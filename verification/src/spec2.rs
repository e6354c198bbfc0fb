use vstd::prelude::*;

use crate::error::ErrV;
use crate::error::TranslateError;
use crate::error::vw_pairs_res;
use crate::error::vw_string_res;
use crate::error::vw_type_res;
use crate::repr::JavaScriptType;
use crate::repr::JavaScriptValue;
use crate::repr::ObjectRow;
use crate::repr::RowV;
use crate::repr::TypeV;
use crate::repr::ValueV;
use crate::repr::contains_name;
use crate::repr::group_vw_lemmas;
use crate::repr::str_eq;
use crate::repr::vw_pair_seq;
use crate::repr::vw_row_seq;
use crate::repr::vw_type;
use crate::repr::vw_type_seq;
use crate::repr::distinct_row_names;
use crate::repr::wf_type;

verus! {

// ---------------------------------------------------------------------------
// Document model
// ---------------------------------------------------------------------------

/// One schema node of a Swagger 2.0 document. Every part is optional; which
/// parts are present decides how the node lowers to a structural type.
#[derive(Debug)]
pub struct Schema {
    /// A local reference `#/definitions/<name>` to another definition.
    pub ref_path: Option<String>,
    pub description: Option<String>,
    /// The `type` keyword: `integer`, `number`, `string`, `boolean`,
    /// `array`, `object`, or anything else.
    pub schema_type: Option<String>,
    pub format: Option<String>,
    /// The `enum` keyword: in this dialect always a list of strings.
    pub enum_values: Option<Vec<String>>,
    /// The names of the required properties of an object schema.
    pub required: Option<Vec<String>>,
    /// The element schema of an array schema.
    pub items: Option<Box<Schema>>,
    /// The properties of an object schema, as `(name, schema)` pairs.
    pub properties: Option<Vec<(String, Schema)>>,
    /// The member schemas of an `allOf` intersection.
    pub all_of: Option<Vec<Schema>>,
}

impl Default for Schema {
    /// A schema with every part absent.
    fn default() -> (r: Schema)
        ensures
            r.ref_path is None,
            r.description is None,
            r.schema_type is None,
            r.format is None,
            r.enum_values is None,
            r.required is None,
            r.items is None,
            r.properties is None,
            r.all_of is None,
    {
        Schema {
            ref_path: None,
            description: None,
            schema_type: None,
            format: None,
            enum_values: None,
            required: None,
            items: None,
            properties: None,
            all_of: None,
        }
    }
}

/// A Swagger 2.0 document: its version marker and its named definitions, as
/// `(name, schema)` pairs.
#[derive(Debug)]
pub struct Spec2 {
    pub swagger: String,
    pub definitions: Option<Vec<(String, Schema)>>,
}

// ---------------------------------------------------------------------------
// Lowering, ghost level
// ---------------------------------------------------------------------------

/// The only reference prefix this dialect resolves.
pub open spec fn ref2_prefix() -> Seq<char> {
    "#/definitions/"@
}

/// Resolving a v2 reference: the text after the exact prefix
/// `#/definitions/`, or an `InvalidReference` error for any other shape.
pub open spec fn spec_parse_ref2(r: Seq<char>) -> Result<Seq<char>, ErrV> {
    if r.len() >= ref2_prefix().len() && r.subrange(0, ref2_prefix().len() as int)
        == ref2_prefix() {
        Ok(r.skip(ref2_prefix().len() as int))
    } else {
        Err(ErrV::InvalidReference(r))
    }
}

/// A v2 enum: each member becomes the type of one string literal, in order.
pub open spec fn spec_str_enum(es: Seq<String>) -> Seq<TypeV>
    decreases es,
{
    if es.len() == 0 {
        Seq::empty()
    } else {
        spec_str_enum(es.drop_last()).push(TypeV::Value(ValueV::Str(es.last()@)))
    }
}

/// The required-name set of an object schema: the listed names, or none.
pub open spec fn spec_req_names(r: Option<Vec<String>>) -> Seq<Seq<char>> {
    match r {
        Some(v) => v.deep_view(),
        None => Seq::empty(),
    }
}

/// Lowering a v2 schema node to a structural type.
///
/// `$ref` wins over everything, then `allOf`, then the `type` keyword. An
/// unrecognized `type` widens to `any`; a node with none of the three lowers
/// to the empty record.
pub open spec fn spec_lower2(s: Schema) -> Result<TypeV, ErrV>
    decreases s,
{
    if s.ref_path is Some {
        match spec_parse_ref2(s.ref_path->0@) {
            Ok(n) => Ok(TypeV::Typename(n)),
            Err(e) => Err(e),
        }
    } else if s.all_of is Some {
        match spec_lower2_seq(s.all_of->0@) {
            Ok(ts) => Ok(TypeV::Product(ts)),
            Err(e) => Err(e),
        }
    } else if s.schema_type is Some {
        let ty = s.schema_type->0@;
        if ty == "integer"@ || ty == "number"@ {
            Ok(TypeV::Typename("number"@))
        } else if ty == "string"@ {
            if s.enum_values is Some {
                Ok(TypeV::Sum(spec_str_enum(s.enum_values->0@)))
            } else if s.format is Some && s.format->0@ == "date-time"@ {
                Ok(TypeV::Typename("Date"@))
            } else {
                Ok(TypeV::Typename("string"@))
            }
        } else if ty == "boolean"@ {
            Ok(TypeV::Typename("boolean"@))
        } else if ty == "array"@ {
            if s.items is Some {
                match spec_lower2(*s.items->0) {
                    Ok(t) => Ok(TypeV::Array(Box::new(t))),
                    Err(e) => Err(e),
                }
            } else {
                Ok(TypeV::Typename("any"@))
            }
        } else if ty == "object"@ {
            spec_object2(s.properties, s.required)
        } else {
            Ok(TypeV::Typename("any"@))
        }
    } else {
        Ok(TypeV::AnonymousObject(Seq::empty()))
    }
}

/// Lowering the members of an `allOf` list, left to right; the first error
/// aborts the whole list.
pub open spec fn spec_lower2_seq(ss: Seq<Schema>) -> Result<Seq<TypeV>, ErrV>
    decreases ss,
{
    if ss.len() == 0 {
        Ok(Seq::empty())
    } else {
        match spec_lower2_seq(ss.drop_last()) {
            Ok(ts) => match spec_lower2(ss.last()) {
                Ok(t) => Ok(ts.push(t)),
                Err(e) => Err(e),
            },
            Err(e) => Err(e),
        }
    }
}

/// Lowering an object schema: its properties become record fields, a field
/// being required iff its name is listed under `required`. Absent
/// `properties` means the empty record.
pub open spec fn spec_object2(
    props: Option<Vec<(String, Schema)>>,
    required: Option<Vec<String>>,
) -> Result<TypeV, ErrV>
    decreases props,
{
    match props {
        Some(v) => match spec_props2(v@, spec_req_names(required)) {
            Ok(rows) => Ok(TypeV::AnonymousObject(rows)),
            Err(e) => Err(e),
        },
        None => Ok(TypeV::AnonymousObject(Seq::empty())),
    }
}

/// Lowering the properties of an object schema, left to right; the first
/// error aborts the whole list.
pub open spec fn spec_props2(props: Seq<(String, Schema)>, req: Seq<Seq<char>>) -> Result<
    Seq<(Seq<char>, RowV)>,
    ErrV,
>
    decreases props,
{
    if props.len() == 0 {
        Ok(Seq::empty())
    } else {
        match spec_props2(props.drop_last(), req) {
            Ok(rows) => match spec_lower2(props.last().1) {
                Ok(t) => Ok(
                    rows.push(
                        (
                            props.last().0@,
                            RowV { required: req.contains(props.last().0@), ttype: t },
                        ),
                    ),
                ),
                Err(e) => Err(e),
            },
            Err(e) => Err(e),
        }
    }
}

/// Lowering a whole v2 document: each definition becomes one named
/// declaration, in order; absent `definitions` means no declarations.
pub open spec fn spec_use_spec2(s: Spec2) -> Result<Seq<(Seq<char>, TypeV)>, ErrV> {
    match s.definitions {
        Some(defs) => spec_defs2(defs@),
        None => Ok(Seq::empty()),
    }
}

/// Lowering the definitions of a v2 document, left to right; the first
/// error aborts the whole document.
pub open spec fn spec_defs2(defs: Seq<(String, Schema)>) -> Result<Seq<(Seq<char>, TypeV)>, ErrV>
    decreases defs,
{
    if defs.len() == 0 {
        Ok(Seq::empty())
    } else {
        match spec_defs2(defs.drop_last()) {
            Ok(pairs) => match spec_lower2(defs.last().1) {
                Ok(t) => Ok(pairs.push((defs.last().0@, t))),
                Err(e) => Err(e),
            },
            Err(e) => Err(e),
        }
    }
}

// ---------------------------------------------------------------------------
// Error propagation in lists
// ---------------------------------------------------------------------------

proof fn lemma_lower2_seq_err(ss: Seq<Schema>, i: int, e: ErrV)
    requires
        0 <= i < ss.len(),
        spec_lower2_seq(ss.subrange(0, i)) is Ok,
        spec_lower2(ss[i]) == Err::<TypeV, ErrV>(e),
    ensures
        spec_lower2_seq(ss) == Err::<Seq<TypeV>, ErrV>(e),
    decreases ss.len(),
{
    if ss.len() == i + 1 {
        assert(ss.drop_last() =~= ss.subrange(0, i));
    } else {
        assert(ss.drop_last().subrange(0, i) =~= ss.subrange(0, i));
        lemma_lower2_seq_err(ss.drop_last(), i, e);
    }
}

proof fn lemma_props2_err(props: Seq<(String, Schema)>, req: Seq<Seq<char>>, i: int, e: ErrV)
    requires
        0 <= i < props.len(),
        spec_props2(props.subrange(0, i), req) is Ok,
        spec_lower2(props[i].1) == Err::<TypeV, ErrV>(e),
    ensures
        spec_props2(props, req) == Err::<Seq<(Seq<char>, RowV)>, ErrV>(e),
    decreases props.len(),
{
    if props.len() == i + 1 {
        assert(props.drop_last() =~= props.subrange(0, i));
    } else {
        assert(props.drop_last().subrange(0, i) =~= props.subrange(0, i));
        lemma_props2_err(props.drop_last(), req, i, e);
    }
}

proof fn lemma_defs2_err(defs: Seq<(String, Schema)>, i: int, e: ErrV)
    requires
        0 <= i < defs.len(),
        spec_defs2(defs.subrange(0, i)) is Ok,
        spec_lower2(defs[i].1) == Err::<TypeV, ErrV>(e),
    ensures
        spec_defs2(defs) == Err::<Seq<(Seq<char>, TypeV)>, ErrV>(e),
    decreases defs.len(),
{
    if defs.len() == i + 1 {
        assert(defs.drop_last() =~= defs.subrange(0, i));
    } else {
        assert(defs.drop_last().subrange(0, i) =~= defs.subrange(0, i));
        lemma_defs2_err(defs.drop_last(), i, e);
    }
}

// ---------------------------------------------------------------------------
// Lowering, executable level
// ---------------------------------------------------------------------------

/// Resolves a v2 reference: the name after `#/definitions/`, or an
/// `InvalidReference` error when the prefix is anything else.
#[verifier::loop_isolation(false)]
pub fn parse_reference(reference: &str) -> (r: Result<String, TranslateError>)
    ensures
        vw_string_res(r) == spec_parse_ref2(reference@),
{
    proof {
        reveal_strlit("#/definitions/");
    }
    let prefix = "#/definitions/";
    let n = reference.unicode_len();
    if n < 14 {
        return Err(TranslateError::InvalidReference(reference.to_owned()));
    }
    for i in 0..14
        invariant
            forall|j: int| 0 <= j < i ==> reference@[j] == ref2_prefix()[j],
    {
        if reference.get_char(i) != prefix.get_char(i) {
            proof {
                assert(reference@.subrange(0, 14) != ref2_prefix()) by {
                    if reference@.subrange(0, 14) == ref2_prefix() {
                        assert(reference@.subrange(0, 14)[i as int] == reference@[i as int]);
                    }
                }
            }
            return Err(TranslateError::InvalidReference(reference.to_owned()));
        }
    }
    proof {
        assert(reference@.subrange(0, 14) =~= ref2_prefix());
        assert(reference@.subrange(14, n as int) =~= reference@.skip(14));
    }
    Ok(reference.substring_char(14, n).to_owned())
}

/// Lowers an object schema to an inline record type.
pub fn convert_schema_to_anonymous_object(schema: &Schema) -> (r: Result<
    JavaScriptType,
    TranslateError,
>)
    ensures
        vw_type_res(r) == spec_object2(schema.properties, schema.required),
{
    match &schema.properties {
        Some(props) => match object_rows(props, &schema.required) {
            Ok(rows) => Ok(JavaScriptType::AnonymousObject(rows)),
            Err(e) => Err(e),
        },
        None => {
            proof {
                assert(vw_row_seq(Seq::<(String, ObjectRow)>::empty()) == Seq::<
                    (Seq<char>, RowV),
                >::empty());
            }
            Ok(JavaScriptType::AnonymousObject(Vec::new()))
        },
    }
}

/// Lowers the properties of an object schema to record fields.
#[verifier::loop_isolation(false)]
fn object_rows(props: &Vec<(String, Schema)>, required: &Option<Vec<String>>) -> (r: Result<
    Vec<(String, ObjectRow)>,
    TranslateError,
>)
    ensures
        match r {
            Ok(rows) => spec_props2(props@, spec_req_names(*required)) == Ok::<_, ErrV>(
                vw_row_seq(rows@),
            ),
            Err(e) => spec_props2(props@, spec_req_names(*required)) == Err::<
                Seq<(Seq<char>, RowV)>,
                ErrV,
            >(e@),
        },
    decreases props@,
{
    broadcast use group_vw_lemmas;

    let ghost pv = props@;
    let ghost req = spec_req_names(*required);
    let mut out: Vec<(String, ObjectRow)> = Vec::new();
    proof {
        assert(pv.subrange(0, 0) =~= Seq::<(String, Schema)>::empty());
    }
    for i in 0..props.len()
        invariant
            spec_props2(pv.subrange(0, i as int), req) == Ok::<_, ErrV>(vw_row_seq(out@)),
    {
        let ghost old_out = out@;
        let row_required = match required {
            Some(names) => contains_name(names, &props[i].0),
            None => false,
        };
        match convert_schema_type_to_javascript_type(&props[i].1) {
            Ok(t) => {
                out.push((props[i].0.clone(), ObjectRow { required: row_required, ttype: t }));
                proof {
                    assert(out@.drop_last() =~= old_out);
                    assert(pv.subrange(0, i as int + 1).drop_last() =~= pv.subrange(0, i as int));
                }
            },
            Err(e) => {
                proof {
                    lemma_props2_err(pv, req, i as int, e@);
                }
                return Err(e);
            },
        }
    }
    proof {
        assert(pv.subrange(0, pv.len() as int) =~= pv);
    }
    Ok(out)
}

/// Lowers a v2 schema node to a structural type: `$ref` first, then
/// `allOf`, then the `type` keyword; an unrecognized `type` widens to
/// `any`, and a node with none of the three becomes the empty record.
#[verifier::loop_isolation(false)]
pub fn convert_schema_type_to_javascript_type(schema: &Schema) -> (r: Result<
    JavaScriptType,
    TranslateError,
>)
    ensures
        vw_type_res(r) == spec_lower2(*schema),
    decreases schema,
{
    broadcast use group_vw_lemmas;

    if let Some(rp) = &schema.ref_path {
        match parse_reference(rp.as_str()) {
            Ok(name) => Ok(JavaScriptType::Typename(name)),
            Err(e) => Err(e),
        }
    } else if let Some(all_of) = &schema.all_of {
        let ghost sv = all_of@;
        let mut out: Vec<JavaScriptType> = Vec::new();
        proof {
            assert(sv.subrange(0, 0) =~= Seq::<Schema>::empty());
        }
        for i in 0..all_of.len()
            invariant
                spec_lower2_seq(sv.subrange(0, i as int)) == Ok::<_, ErrV>(vw_type_seq(out@)),
        {
            let ghost old_out = out@;
            match convert_schema_type_to_javascript_type(&all_of[i]) {
                Ok(t) => {
                    out.push(t);
                    proof {
                        assert(out@.drop_last() =~= old_out);
                        assert(sv.subrange(0, i as int + 1).drop_last() =~= sv.subrange(
                            0,
                            i as int,
                        ));
                    }
                },
                Err(e) => {
                    proof {
                        lemma_lower2_seq_err(sv, i as int, e@);
                    }
                    return Err(e);
                },
            }
        }
        proof {
            assert(sv.subrange(0, sv.len() as int) =~= sv);
        }
        Ok(JavaScriptType::Product(out))
    } else if let Some(ty) = &schema.schema_type {
        if str_eq(ty.as_str(), "integer") || str_eq(ty.as_str(), "number") {
            Ok(JavaScriptType::typename("number"))
        } else if str_eq(ty.as_str(), "string") {
            if let Some(enums) = &schema.enum_values {
                let ghost ev = enums@;
                let mut out: Vec<JavaScriptType> = Vec::new();
                proof {
                    assert(ev.subrange(0, 0) =~= Seq::<String>::empty());
                }
                for i in 0..enums.len()
                    invariant
                        vw_type_seq(out@) == spec_str_enum(ev.subrange(0, i as int)),
                {
                    let ghost old_out = out@;
                    out.push(
                        JavaScriptType::Value(Box::new(JavaScriptValue::Str(enums[i].clone()))),
                    );
                    proof {
                        assert(out@.drop_last() =~= old_out);
                        assert(ev.subrange(0, i as int + 1).drop_last() =~= ev.subrange(
                            0,
                            i as int,
                        ));
                    }
                }
                proof {
                    assert(ev.subrange(0, ev.len() as int) =~= ev);
                }
                Ok(JavaScriptType::Sum(out))
            } else if let Some(f) = &schema.format {
                if str_eq(f.as_str(), "date-time") {
                    Ok(JavaScriptType::typename("Date"))
                } else {
                    Ok(JavaScriptType::typename("string"))
                }
            } else {
                Ok(JavaScriptType::typename("string"))
            }
        } else if str_eq(ty.as_str(), "boolean") {
            Ok(JavaScriptType::typename("boolean"))
        } else if str_eq(ty.as_str(), "array") {
            match &schema.items {
                Some(child) => match convert_schema_type_to_javascript_type(&**child) {
                    Ok(t) => Ok(JavaScriptType::Array(Box::new(t))),
                    Err(e) => Err(e),
                },
                None => Ok(JavaScriptType::typename("any")),
            }
        } else if str_eq(ty.as_str(), "object") {
            proof {
                reveal_with_fuel(spec_lower2, 3);
            }
            match &schema.properties {
                Some(props) => match object_rows(props, &schema.required) {
                    Ok(rows) => Ok(JavaScriptType::AnonymousObject(rows)),
                    Err(e) => Err(e),
                },
                None => {
                    proof {
                        assert(vw_row_seq(Seq::<(String, ObjectRow)>::empty()) == Seq::<
                            (Seq<char>, RowV),
                        >::empty());
                    }
                    Ok(JavaScriptType::AnonymousObject(Vec::new()))
                },
            }
        } else {
            Ok(JavaScriptType::typename("any"))
        }
    } else {
        proof {
            assert(vw_row_seq(Seq::<(String, ObjectRow)>::empty()) == Seq::<
                (Seq<char>, RowV),
            >::empty());
        }
        Ok(JavaScriptType::AnonymousObject(Vec::new()))
    }
}

/// Lowers one named definition to a named declaration.
pub fn parse_root_schema_object_to_javascript_construct(name: &String, schema: &Schema) -> (r:
    Result<(String, JavaScriptType), TranslateError>)
    ensures
        match r {
            Ok(p) => p.0@ == name@ && spec_lower2(*schema) == Ok::<TypeV, ErrV>(vw_type(p.1)),
            Err(e) => spec_lower2(*schema) == Err::<TypeV, ErrV>(e@),
        },
{
    match convert_schema_type_to_javascript_type(schema) {
        Ok(t) => Ok((name.clone(), t)),
        Err(e) => Err(e),
    }
}

/// Lowers a whole v2 document to its named declarations, in order.
#[verifier::loop_isolation(false)]
pub fn use_spec2(spec: &Spec2) -> (r: Result<Vec<(String, JavaScriptType)>, TranslateError>)
    ensures
        vw_pairs_res(r) == spec_use_spec2(*spec),
{
    broadcast use group_vw_lemmas;

    match &spec.definitions {
        Some(defs) => {
            let ghost dv = defs@;
            let mut out: Vec<(String, JavaScriptType)> = Vec::new();
            proof {
                assert(dv.subrange(0, 0) =~= Seq::<(String, Schema)>::empty());
            }
            for i in 0..defs.len()
                invariant
                    spec_defs2(dv.subrange(0, i as int)) == Ok::<_, ErrV>(vw_pair_seq(out@)),
            {
                let ghost old_out = out@;
                match parse_root_schema_object_to_javascript_construct(&defs[i].0, &defs[i].1) {
                    Ok(p) => {
                        out.push(p);
                        proof {
                            assert(out@.drop_last() =~= old_out);
                            assert(dv.subrange(0, i as int + 1).drop_last() =~= dv.subrange(
                                0,
                                i as int,
                            ));
                        }
                    },
                    Err(e) => {
                        proof {
                            lemma_defs2_err(dv, i as int, e@);
                        }
                        return Err(e);
                    },
                }
            }
            proof {
                assert(dv.subrange(0, dv.len() as int) =~= dv);
            }
            Ok(out)
        },
        None => {
            proof {
                assert(vw_pair_seq(Seq::<(String, JavaScriptType)>::empty()) == Seq::<
                    (Seq<char>, TypeV),
                >::empty());
            }
            Ok(Vec::new())
        },
    }
}

// ---------------------------------------------------------------------------
// Laws
// ---------------------------------------------------------------------------

/// Required-field fidelity: lowering the properties of an object schema
/// keeps every property under its own name, in order, marks a field
/// required exactly when its name is listed under `required`, and gives it
/// the lowered form of its own schema.
pub proof fn lemma_props2_required(props: Seq<(String, Schema)>, req: Seq<Seq<char>>)
    ensures
        spec_props2(props, req) matches Ok(rows) ==> rows.len() == props.len() && (forall|i: int|
            0 <= i < props.len() ==> (#[trigger] rows[i]).0 == props[i].0@ && rows[i].1.required
                == req.contains(props[i].0@) && spec_lower2(props[i].1) == Ok::<TypeV, ErrV>(
                rows[i].1.ttype,
            )),
    decreases props,
{
    if props.len() > 0 {
        lemma_props2_required(props.drop_last(), req);
    }
}

/// Intersection fidelity: lowering an `allOf` list keeps its members in
/// order, each the lowered form of its own schema.
pub proof fn lemma_lower2_seq_order(ss: Seq<Schema>)
    ensures
        spec_lower2_seq(ss) matches Ok(ts) ==> ts.len() == ss.len() && (forall|i: int|
            0 <= i < ss.len() ==> spec_lower2(ss[i]) == Ok::<TypeV, ErrV>(#[trigger] ts[i])),
    decreases ss,
{
    if ss.len() > 0 {
        lemma_lower2_seq_order(ss.drop_last());
    }
}

/// Document fidelity: lowering the definitions keeps each declaration
/// under its own name, in order, with the lowered form of its own schema.
pub proof fn lemma_defs2_order(defs: Seq<(String, Schema)>)
    ensures
        spec_defs2(defs) matches Ok(pairs) ==> pairs.len() == defs.len() && (forall|i: int|
            0 <= i < defs.len() ==> (#[trigger] pairs[i]).0 == defs[i].0@ && spec_lower2(
                defs[i].1,
            ) == Ok::<TypeV, ErrV>(pairs[i].1)),
    decreases defs,
{
    if defs.len() > 0 {
        lemma_defs2_order(defs.drop_last());
    }
}

// ---------------------------------------------------------------------------
// Distinct names
// ---------------------------------------------------------------------------

/// The names of a `(name, schema)` list are pairwise distinct, as a
/// name-keyed mapping asks.
pub open spec fn distinct_entry_names2(entries: Seq<(String, Schema)>) -> bool {
    forall|i: int, j: int| 0 <= i < j < entries.len() ==> entries[i].0@ != entries[j].0@
}

/// Well-formedness of a v2 schema node: every properties list in the tree
/// keeps its names pairwise distinct.
pub open spec fn wf_schema2(s: Schema) -> bool
    decreases s,
{
    (s.items is Some ==> wf_schema2(*s.items->0)) && (s.all_of is Some ==> (forall|i: int|
        0 <= i < s.all_of->0@.len() ==> wf_schema2(#[trigger] s.all_of->0@[i]))) && (
    s.properties is Some ==> distinct_entry_names2(s.properties->0@) && (forall|i: int|
        0 <= i < s.properties->0@.len() ==> wf_schema2(#[trigger] s.properties->0@[i].1)))
}

/// Well-formedness of a v2 document: the definition names are pairwise
/// distinct and every definition schema is well formed.
pub open spec fn wf_spec2(s: Spec2) -> bool {
    s.definitions is Some ==> distinct_entry_names2(s.definitions->0@) && (forall|i: int|
        0 <= i < s.definitions->0@.len() ==> wf_schema2(#[trigger] s.definitions->0@[i].1))
}

/// Lowering keeps well-formedness: a well-formed v2 schema lowers to a type
/// whose records all keep pairwise-distinct field names.
pub proof fn lemma_lower2_preserves_wf(s: Schema)
    requires
        wf_schema2(s),
    ensures
        spec_lower2(s) matches Ok(t) ==> wf_type(t),
    decreases s,
{
    if s.ref_path is Some {
    } else if s.all_of is Some {
        let ss = s.all_of->0@;
        lemma_lower2_seq_order(ss);
        match spec_lower2_seq(ss) {
            Ok(ts) => {
                assert forall|k: int| 0 <= k < ts.len() implies wf_type(#[trigger] ts[k]) by {
                    lemma_lower2_preserves_wf(ss[k]);
                };
            },
            Err(e) => {},
        }
    } else if s.schema_type is Some {
        let ty = s.schema_type->0@;
        if ty == "string"@ && s.enum_values is Some {
            let ts = spec_str_enum(s.enum_values->0@);
            lemma_str_enum_order(s.enum_values->0@);
            assert forall|k: int| 0 <= k < ts.len() implies wf_type(#[trigger] ts[k]) by {
                assert(ts[k] == TypeV::Value(ValueV::Str(s.enum_values->0@[k]@)));
            };
        } else if ty == "array"@ && s.items is Some {
            lemma_lower2_preserves_wf(*s.items->0);
        } else if ty == "object"@ {
            lemma_object2_preserves_wf(s.properties, s.required);
        }
    } else {
        assert(distinct_row_names(Seq::<(Seq<char>, RowV)>::empty()));
    }
}

/// Lowering keeps well-formedness across an object schema's properties.
proof fn lemma_object2_preserves_wf(
    props: Option<Vec<(String, Schema)>>,
    required: Option<Vec<String>>,
)
    requires
        props matches Some(v) ==> distinct_entry_names2(v@) && (forall|i: int|
            0 <= i < v@.len() ==> wf_schema2(#[trigger] v@[i].1)),
    ensures
        spec_object2(props, required) matches Ok(t) ==> wf_type(t),
    decreases props,
{
    match props {
        Some(v) => {
            lemma_props2_required(v@, spec_req_names(required));
            match spec_props2(v@, spec_req_names(required)) {
                Ok(rows) => {
                    assert forall|k: int|
                        0 <= k < rows.len() implies wf_type(#[trigger] rows[k].1.ttype) by {
                        lemma_lower2_preserves_wf(v@[k].1);
                    };
                    assert forall|k: int, l: int|
                        0 <= k < l < rows.len() implies rows[k].0 != rows[l].0 by {
                        assert(v@[k].0@ != v@[l].0@);
                    };
                },
                Err(e) => {},
            }
        },
        None => {
            assert(distinct_row_names(Seq::<(Seq<char>, RowV)>::empty()));
        },
    }
}

/// A well-formed v2 document lowers to declarations with pairwise-distinct
/// names, each a well-formed type.
pub proof fn lemma_use_spec2_preserves_wf(s: Spec2)
    requires
        wf_spec2(s),
    ensures
        spec_use_spec2(s) matches Ok(pairs) ==> (forall|i: int, j: int|
            0 <= i < j < pairs.len() ==> (#[trigger] pairs[i]).0 != (#[trigger] pairs[j]).0)
            && (forall|i: int| 0 <= i < pairs.len() ==> wf_type((#[trigger] pairs[i]).1)),
{
    match s.definitions {
        Some(defs) => {
            lemma_defs2_order(defs@);
            match spec_defs2(defs@) {
                Ok(pairs) => {
                    assert forall|i: int|
                        0 <= i < pairs.len() implies wf_type((#[trigger] pairs[i]).1) by {
                        lemma_lower2_preserves_wf(defs@[i].1);
                    };
                    assert forall|i: int, j: int|
                        0 <= i < j < pairs.len() implies (#[trigger] pairs[i]).0 != (
                    #[trigger] pairs[j]).0 by {
                        assert(defs@[i].0@ != defs@[j].0@);
                    };
                },
                Err(e) => {},
            }
        },
        None => {},
    }
}

/// Enum-to-union fidelity: a v2 enum keeps its members in order, each as
/// the type of one string literal.
pub proof fn lemma_str_enum_order(es: Seq<String>)
    ensures
        spec_str_enum(es).len() == es.len(),
        forall|i: int|
            0 <= i < es.len() ==> #[trigger] spec_str_enum(es)[i] == TypeV::Value(
                ValueV::Str(es[i]@),
            ),
    decreases es,
{
    if es.len() > 0 {
        lemma_str_enum_order(es.drop_last());
    }
}

} // verus!
