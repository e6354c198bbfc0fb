use vstd::prelude::*;

use crate::error::ErrV;
use crate::error::TranslateError;
use crate::error::vw_pairs_res;
use crate::error::vw_string_res;
use crate::error::vw_type_res;
use crate::repr::JavaScriptType;
use crate::repr::JavaScriptValue;
use crate::repr::ObjectRow;
use crate::repr::RowV;
use crate::repr::TypeV;
use crate::repr::contains_name;
use crate::repr::group_vw_lemmas;
use crate::repr::str_eq;
use crate::repr::vw_pair_seq;
use crate::repr::vw_row_seq;
use crate::repr::vw_type;
use crate::repr::vw_type_seq;
use crate::repr::vw_value;
use crate::repr::distinct_row_names;
use crate::repr::wf_type;

verus! {

// ---------------------------------------------------------------------------
// Document model
// ---------------------------------------------------------------------------

/// A bare JSON reference: the `$ref` path.
#[derive(Debug)]
pub struct Ref {
    pub ref_path: String,
}

/// A slot that holds either a reference or an inline object. References are
/// deliberately never resolved here; they stay explicit.
#[derive(Debug)]
pub enum ObjectOrReference<T> {
    Ref(Ref),
    Object(T),
}

/// A slot that holds a boolean, an inline object, or a reference, as
/// `additionalProperties` allows.
#[derive(Debug)]
pub enum BooleanObjectOrReference<T> {
    Boolean(bool),
    Object(T),
    Ref(Ref),
}

/// An OpenAPI 3.0 document: its version marker and its components.
#[derive(Debug)]
pub struct Spec3 {
    pub openapi: String,
    pub components: Option<Components>,
}

/// The reusable components of a v3 document: its named schemas, as
/// `(name, schema-or-reference)` pairs.
#[derive(Debug)]
pub struct Components {
    pub schemas: Option<Vec<(String, ObjectOrReference<Schema>)>>,
}

/// One schema node of an OpenAPI 3.0 document. `allOf` lowers to an
/// intersection, as in the other dialect; `oneOf`, `anyOf`, `not` and
/// `additionalProperties` are carried through but not translated.
#[derive(Debug)]
pub struct Schema {
    pub title: Option<String>,
    pub multiple_of: Option<u32>,
    /// The names of the required properties of an object schema.
    pub required: Option<Vec<String>>,
    /// The `enum` keyword: in this dialect a list of arbitrary literals.
    pub enum_values: Option<Vec<JavaScriptValue>>,
    /// The `type` keyword.
    pub schema_type: Option<String>,
    pub one_of: Option<Vec<ObjectOrReference<Schema>>>,
    /// The member schemas of an `allOf` intersection.
    pub all_of: Option<Vec<ObjectOrReference<Schema>>>,
    pub any_of: Option<Vec<ObjectOrReference<Schema>>>,
    pub not: Option<Vec<ObjectOrReference<Schema>>>,
    /// The element schema of an array schema.
    pub items: Option<Box<ObjectOrReference<Schema>>>,
    /// The properties of an object schema.
    pub properties: Option<Vec<(String, ObjectOrReference<Schema>)>>,
    pub additional_properties: Option<BooleanObjectOrReference<Box<Schema>>>,
    pub description: Option<String>,
    pub format: Option<String>,
    pub default: Option<JavaScriptValue>,
}

impl Default for Schema {
    /// A schema with every part absent.
    fn default() -> (r: Schema)
        ensures
            r.title is None,
            r.multiple_of is None,
            r.required is None,
            r.enum_values is None,
            r.schema_type is None,
            r.one_of is None,
            r.all_of is None,
            r.any_of is None,
            r.not is None,
            r.items is None,
            r.properties is None,
            r.additional_properties is None,
            r.description is None,
            r.format is None,
            r.default is None,
    {
        Schema {
            title: None,
            multiple_of: None,
            required: None,
            enum_values: None,
            schema_type: None,
            one_of: None,
            all_of: None,
            any_of: None,
            not: None,
            items: None,
            properties: None,
            additional_properties: None,
            description: None,
            format: None,
            default: None,
        }
    }
}

// ---------------------------------------------------------------------------
// Lowering, ghost level
// ---------------------------------------------------------------------------

/// The only reference prefix this dialect resolves.
pub open spec fn ref3_prefix() -> Seq<char> {
    "#/components/schemas/"@
}

/// Resolving a v3 reference: the text after the exact prefix
/// `#/components/schemas/`, or an `InvalidReference` error for any other
/// shape.
pub open spec fn spec_parse_ref3(r: Seq<char>) -> Result<Seq<char>, ErrV> {
    if r.len() >= ref3_prefix().len() && r.subrange(0, ref3_prefix().len() as int)
        == ref3_prefix() {
        Ok(r.skip(ref3_prefix().len() as int))
    } else {
        Err(ErrV::InvalidReference(r))
    }
}

/// A v3 enum: each member literal becomes the type of that literal, in
/// order, so non-string members keep their kind.
pub open spec fn spec_enum3(es: Seq<JavaScriptValue>) -> Seq<TypeV>
    decreases es,
{
    if es.len() == 0 {
        Seq::empty()
    } else {
        spec_enum3(es.drop_last()).push(TypeV::Value(vw_value(es.last())))
    }
}

/// The required-name set of an object schema: the listed names, or none.
pub open spec fn spec_req_names3(r: Option<Vec<String>>) -> Seq<Seq<char>> {
    match r {
        Some(v) => v.deep_view(),
        None => Seq::empty(),
    }
}

/// Lowering a v3 schema node. `allOf` wins over the `type` keyword and
/// lowers to an intersection. The dialect is otherwise strict: an array
/// schema without `items` and a schema whose `type` names no supported
/// kind are both errors, while a schema without a `type` widens to `any`.
pub open spec fn spec_lower3(s: Schema) -> Result<TypeV, ErrV>
    decreases s,
{
    if s.all_of is Some {
        match spec_lower3_seq(s.all_of->0@) {
            Ok(ts) => Ok(TypeV::Product(ts)),
            Err(e) => Err(e),
        }
    } else if s.schema_type is Some {
        let ty = s.schema_type->0@;
        if ty == "array"@ {
            if s.items is Some {
                match spec_oor_lower3(*s.items->0) {
                    Ok(t) => Ok(TypeV::Array(Box::new(t))),
                    Err(e) => Err(e),
                }
            } else {
                Err(ErrV::CannotConvertSchemaToArray)
            }
        } else if ty == "string"@ {
            if s.enum_values is Some {
                Ok(TypeV::Sum(spec_enum3(s.enum_values->0@)))
            } else if s.format is Some && (s.format->0@ == "date"@ || s.format->0@
                == "date-time"@) {
                Ok(TypeV::Typename("Date"@))
            } else {
                Ok(TypeV::Typename("string"@))
            }
        } else if ty == "object"@ {
            spec_object3(s.properties, s.required)
        } else if ty == "integer"@ || ty == "number"@ {
            Ok(TypeV::Typename("number"@))
        } else if ty == "boolean"@ {
            Ok(TypeV::Typename("boolean"@))
        } else if ty == "unknown"@ {
            Ok(TypeV::Typename("unknown"@))
        } else if ty == "enum"@ {
            Ok(
                TypeV::Sum(
                    match s.enum_values {
                        Some(v) => spec_enum3(v@),
                        None => Seq::empty(),
                    },
                ),
            )
        } else {
            Err(ErrV::UnsupportedSchemaShape(ty))
        }
    } else {
        Ok(TypeV::Typename("any"@))
    }
}

/// Lowering a schema-or-reference slot: a reference becomes the named type
/// it points at, an inline schema lowers recursively.
pub open spec fn spec_oor_lower3(o: ObjectOrReference<Schema>) -> Result<TypeV, ErrV>
    decreases o,
{
    match o {
        ObjectOrReference::Ref(r) => match spec_parse_ref3(r.ref_path@) {
            Ok(n) => Ok(TypeV::Typename(n)),
            Err(e) => Err(e),
        },
        ObjectOrReference::Object(s) => spec_lower3(s),
    }
}

/// Lowering the members of an `allOf` list, left to right; the first error
/// aborts the whole list.
pub open spec fn spec_lower3_seq(ss: Seq<ObjectOrReference<Schema>>) -> Result<Seq<TypeV>, ErrV>
    decreases ss,
{
    if ss.len() == 0 {
        Ok(Seq::empty())
    } else {
        match spec_lower3_seq(ss.drop_last()) {
            Ok(ts) => match spec_oor_lower3(ss.last()) {
                Ok(t) => Ok(ts.push(t)),
                Err(e) => Err(e),
            },
            Err(e) => Err(e),
        }
    }
}

/// Lowering an object schema: its properties become record fields, a field
/// being required iff its name is listed under `required`. Absent
/// `properties` means the empty record.
pub open spec fn spec_object3(
    props: Option<Vec<(String, ObjectOrReference<Schema>)>>,
    required: Option<Vec<String>>,
) -> Result<TypeV, ErrV>
    decreases props,
{
    match props {
        Some(v) => match spec_props3(v@, spec_req_names3(required)) {
            Ok(rows) => Ok(TypeV::AnonymousObject(rows)),
            Err(e) => Err(e),
        },
        None => Ok(TypeV::AnonymousObject(Seq::empty())),
    }
}

/// Lowering the properties of an object schema, left to right; the first
/// error aborts the whole list.
pub open spec fn spec_props3(
    props: Seq<(String, ObjectOrReference<Schema>)>,
    req: Seq<Seq<char>>,
) -> Result<Seq<(Seq<char>, RowV)>, ErrV>
    decreases props,
{
    if props.len() == 0 {
        Ok(Seq::empty())
    } else {
        match spec_props3(props.drop_last(), req) {
            Ok(rows) => match spec_oor_lower3(props.last().1) {
                Ok(t) => Ok(
                    rows.push(
                        (
                            props.last().0@,
                            RowV { required: req.contains(props.last().0@), ttype: t },
                        ),
                    ),
                ),
                Err(e) => Err(e),
            },
            Err(e) => Err(e),
        }
    }
}

/// Lowering a whole v3 document: each named schema becomes one named
/// declaration, in order; absent components or schemas mean no
/// declarations.
pub open spec fn spec_use_spec3(s: Spec3) -> Result<Seq<(Seq<char>, TypeV)>, ErrV> {
    match s.components {
        Some(c) => match c.schemas {
            Some(schemas) => spec_schemas3(schemas@),
            None => Ok(Seq::empty()),
        },
        None => Ok(Seq::empty()),
    }
}

/// Lowering the named schemas of a v3 document, left to right; the first
/// error aborts the whole document.
pub open spec fn spec_schemas3(defs: Seq<(String, ObjectOrReference<Schema>)>) -> Result<
    Seq<(Seq<char>, TypeV)>,
    ErrV,
>
    decreases defs,
{
    if defs.len() == 0 {
        Ok(Seq::empty())
    } else {
        match spec_schemas3(defs.drop_last()) {
            Ok(pairs) => match spec_oor_lower3(defs.last().1) {
                Ok(t) => Ok(pairs.push((defs.last().0@, t))),
                Err(e) => Err(e),
            },
            Err(e) => Err(e),
        }
    }
}

// ---------------------------------------------------------------------------
// Error propagation in lists
// ---------------------------------------------------------------------------

proof fn lemma_lower3_seq_err(ss: Seq<ObjectOrReference<Schema>>, i: int, e: ErrV)
    requires
        0 <= i < ss.len(),
        spec_lower3_seq(ss.subrange(0, i)) is Ok,
        spec_oor_lower3(ss[i]) == Err::<TypeV, ErrV>(e),
    ensures
        spec_lower3_seq(ss) == Err::<Seq<TypeV>, ErrV>(e),
    decreases ss.len(),
{
    if ss.len() == i + 1 {
        assert(ss.drop_last() =~= ss.subrange(0, i));
    } else {
        assert(ss.drop_last().subrange(0, i) =~= ss.subrange(0, i));
        lemma_lower3_seq_err(ss.drop_last(), i, e);
    }
}

proof fn lemma_props3_err(
    props: Seq<(String, ObjectOrReference<Schema>)>,
    req: Seq<Seq<char>>,
    i: int,
    e: ErrV,
)
    requires
        0 <= i < props.len(),
        spec_props3(props.subrange(0, i), req) is Ok,
        spec_oor_lower3(props[i].1) == Err::<TypeV, ErrV>(e),
    ensures
        spec_props3(props, req) == Err::<Seq<(Seq<char>, RowV)>, ErrV>(e),
    decreases props.len(),
{
    if props.len() == i + 1 {
        assert(props.drop_last() =~= props.subrange(0, i));
    } else {
        assert(props.drop_last().subrange(0, i) =~= props.subrange(0, i));
        lemma_props3_err(props.drop_last(), req, i, e);
    }
}

proof fn lemma_schemas3_err(defs: Seq<(String, ObjectOrReference<Schema>)>, i: int, e: ErrV)
    requires
        0 <= i < defs.len(),
        spec_schemas3(defs.subrange(0, i)) is Ok,
        spec_oor_lower3(defs[i].1) == Err::<TypeV, ErrV>(e),
    ensures
        spec_schemas3(defs) == Err::<Seq<(Seq<char>, TypeV)>, ErrV>(e),
    decreases defs.len(),
{
    if defs.len() == i + 1 {
        assert(defs.drop_last() =~= defs.subrange(0, i));
    } else {
        assert(defs.drop_last().subrange(0, i) =~= defs.subrange(0, i));
        lemma_schemas3_err(defs.drop_last(), i, e);
    }
}

// ---------------------------------------------------------------------------
// Lowering, executable level
// ---------------------------------------------------------------------------

/// Resolves a v3 reference: the name after `#/components/schemas/`, or an
/// `InvalidReference` error when the prefix is anything else.
#[verifier::loop_isolation(false)]
pub fn parse_reference(reference: &str) -> (r: Result<String, TranslateError>)
    ensures
        vw_string_res(r) == spec_parse_ref3(reference@),
{
    proof {
        reveal_strlit("#/components/schemas/");
    }
    let prefix = "#/components/schemas/";
    let n = reference.unicode_len();
    if n < 21 {
        return Err(TranslateError::InvalidReference(reference.to_owned()));
    }
    for i in 0..21
        invariant
            forall|j: int| 0 <= j < i ==> reference@[j] == ref3_prefix()[j],
    {
        if reference.get_char(i) != prefix.get_char(i) {
            proof {
                assert(reference@.subrange(0, 21) != ref3_prefix()) by {
                    if reference@.subrange(0, 21) == ref3_prefix() {
                        assert(reference@.subrange(0, 21)[i as int] == reference@[i as int]);
                    }
                }
            }
            return Err(TranslateError::InvalidReference(reference.to_owned()));
        }
    }
    proof {
        assert(reference@.subrange(0, 21) =~= ref3_prefix());
        assert(reference@.subrange(21, n as int) =~= reference@.skip(21));
    }
    Ok(reference.substring_char(21, n).to_owned())
}

/// Lowers a schema-or-reference slot.
fn lower_object_or_reference(o: &ObjectOrReference<Schema>) -> (r: Result<
    JavaScriptType,
    TranslateError,
>)
    ensures
        vw_type_res(r) == spec_oor_lower3(*o),
    decreases o,
{
    match o {
        ObjectOrReference::Ref(rf) => match parse_reference(rf.ref_path.as_str()) {
            Ok(name) => Ok(JavaScriptType::Typename(name)),
            Err(e) => Err(e),
        },
        ObjectOrReference::Object(s) => parse_schema_object_to_javascript_type(s),
    }
}

/// Lowers the properties of an object schema to record fields.
#[verifier::loop_isolation(false)]
fn object_rows3(
    props: &Vec<(String, ObjectOrReference<Schema>)>,
    required: &Option<Vec<String>>,
) -> (r: Result<Vec<(String, ObjectRow)>, TranslateError>)
    ensures
        match r {
            Ok(rows) => spec_props3(props@, spec_req_names3(*required)) == Ok::<_, ErrV>(
                vw_row_seq(rows@),
            ),
            Err(e) => spec_props3(props@, spec_req_names3(*required)) == Err::<
                Seq<(Seq<char>, RowV)>,
                ErrV,
            >(e@),
        },
    decreases props@,
{
    broadcast use group_vw_lemmas;

    let ghost pv = props@;
    let ghost req = spec_req_names3(*required);
    let mut out: Vec<(String, ObjectRow)> = Vec::new();
    proof {
        assert(pv.subrange(0, 0) =~= Seq::<(String, ObjectOrReference<Schema>)>::empty());
    }
    for i in 0..props.len()
        invariant
            spec_props3(pv.subrange(0, i as int), req) == Ok::<_, ErrV>(vw_row_seq(out@)),
    {
        let ghost old_out = out@;
        let row_required = match required {
            Some(names) => contains_name(names, &props[i].0),
            None => false,
        };
        match lower_object_or_reference(&props[i].1) {
            Ok(t) => {
                out.push((props[i].0.clone(), ObjectRow { required: row_required, ttype: t }));
                proof {
                    assert(out@.drop_last() =~= old_out);
                    assert(pv.subrange(0, i as int + 1).drop_last() =~= pv.subrange(0, i as int));
                }
            },
            Err(e) => {
                proof {
                    lemma_props3_err(pv, req, i as int, e@);
                }
                return Err(e);
            },
        }
    }
    proof {
        assert(pv.subrange(0, pv.len() as int) =~= pv);
    }
    Ok(out)
}

/// Lowers the members of an enum to literal types.
#[verifier::loop_isolation(false)]
fn enum_members(es: &Vec<JavaScriptValue>) -> (out: Vec<JavaScriptType>)
    ensures
        vw_type_seq(out@) == spec_enum3(es@),
{
    broadcast use group_vw_lemmas;

    let ghost ev = es@;
    let mut out: Vec<JavaScriptType> = Vec::new();
    proof {
        assert(ev.subrange(0, 0) =~= Seq::<JavaScriptValue>::empty());
    }
    for i in 0..es.len()
        invariant
            vw_type_seq(out@) == spec_enum3(ev.subrange(0, i as int)),
    {
        let ghost old_out = out@;
        let e = &es[i];
        out.push(JavaScriptType::Value(Box::new(e.clone())));
        proof {
            assert(out@.drop_last() =~= old_out);
            assert(ev.subrange(0, i as int + 1).drop_last() =~= ev.subrange(0, i as int));
        }
    }
    proof {
        assert(ev.subrange(0, ev.len() as int) =~= ev);
    }
    out
}

/// Lowers a v3 schema node to a structural type: an `allOf` intersection
/// first, else a dispatch on the `type` keyword; an array schema without
/// `items` and an unrecognized `type` are errors, while a schema with no
/// `allOf` and no `type` at all widens to `any`.
#[verifier::loop_isolation(false)]
pub fn parse_schema_object_to_javascript_type(schema: &Schema) -> (r: Result<
    JavaScriptType,
    TranslateError,
>)
    ensures
        vw_type_res(r) == spec_lower3(*schema),
    decreases schema,
{
    broadcast use group_vw_lemmas;

    if let Some(all_of) = &schema.all_of {
        let ghost sv = all_of@;
        let mut out: Vec<JavaScriptType> = Vec::new();
        proof {
            assert(sv.subrange(0, 0) =~= Seq::<ObjectOrReference<Schema>>::empty());
        }
        for i in 0..all_of.len()
            invariant
                spec_lower3_seq(sv.subrange(0, i as int)) == Ok::<_, ErrV>(vw_type_seq(out@)),
        {
            let ghost old_out = out@;
            match lower_object_or_reference(&all_of[i]) {
                Ok(t) => {
                    out.push(t);
                    proof {
                        assert(out@.drop_last() =~= old_out);
                        assert(sv.subrange(0, i as int + 1).drop_last() =~= sv.subrange(
                            0,
                            i as int,
                        ));
                    }
                },
                Err(e) => {
                    proof {
                        lemma_lower3_seq_err(sv, i as int, e@);
                    }
                    return Err(e);
                },
            }
        }
        proof {
            assert(sv.subrange(0, sv.len() as int) =~= sv);
        }
        Ok(JavaScriptType::Product(out))
    } else if let Some(ty) = &schema.schema_type {
        if str_eq(ty.as_str(), "array") {
            match &schema.items {
                Some(child) => match lower_object_or_reference(&**child) {
                    Ok(t) => Ok(JavaScriptType::Array(Box::new(t))),
                    Err(e) => Err(e),
                },
                None => Err(TranslateError::CannotConvertSchemaToArray),
            }
        } else if str_eq(ty.as_str(), "string") {
            if let Some(enums) = &schema.enum_values {
                Ok(JavaScriptType::Sum(enum_members(enums)))
            } else if let Some(f) = &schema.format {
                if str_eq(f.as_str(), "date") || str_eq(f.as_str(), "date-time") {
                    Ok(JavaScriptType::typename("Date"))
                } else {
                    Ok(JavaScriptType::typename("string"))
                }
            } else {
                Ok(JavaScriptType::typename("string"))
            }
        } else if str_eq(ty.as_str(), "object") {
            proof {
                reveal_with_fuel(spec_lower3, 3);
            }
            match &schema.properties {
                Some(props) => match object_rows3(props, &schema.required) {
                    Ok(rows) => Ok(JavaScriptType::AnonymousObject(rows)),
                    Err(e) => Err(e),
                },
                None => {
                    proof {
                        assert(vw_row_seq(Seq::<(String, ObjectRow)>::empty()) == Seq::<
                            (Seq<char>, RowV),
                        >::empty());
                    }
                    Ok(JavaScriptType::AnonymousObject(Vec::new()))
                },
            }
        } else if str_eq(ty.as_str(), "integer") || str_eq(ty.as_str(), "number") {
            Ok(JavaScriptType::typename("number"))
        } else if str_eq(ty.as_str(), "boolean") {
            Ok(JavaScriptType::typename("boolean"))
        } else if str_eq(ty.as_str(), "unknown") {
            Ok(JavaScriptType::typename("unknown"))
        } else if str_eq(ty.as_str(), "enum") {
            match &schema.enum_values {
                Some(enums) => Ok(JavaScriptType::Sum(enum_members(enums))),
                None => {
                    proof {
                        assert(vw_type_seq(Seq::<JavaScriptType>::empty()) == Seq::<
                            TypeV,
                        >::empty());
                    }
                    Ok(JavaScriptType::Sum(Vec::new()))
                },
            }
        } else {
            Err(TranslateError::UnsupportedSchemaShape(ty.clone()))
        }
    } else {
        Ok(JavaScriptType::typename("any"))
    }
}

/// Lowers one named schema to a named declaration.
pub fn parse_root_schema(name: &String, schema: &ObjectOrReference<Schema>) -> (r: Result<
    (String, JavaScriptType),
    TranslateError,
>)
    ensures
        match r {
            Ok(p) => p.0@ == name@ && spec_oor_lower3(*schema) == Ok::<TypeV, ErrV>(vw_type(p.1)),
            Err(e) => spec_oor_lower3(*schema) == Err::<TypeV, ErrV>(e@),
        },
{
    match lower_object_or_reference(schema) {
        Ok(t) => Ok((name.clone(), t)),
        Err(e) => Err(e),
    }
}

/// Lowers a whole v3 document to its named declarations, in order.
#[verifier::loop_isolation(false)]
pub fn use_spec3(spec: &Spec3) -> (r: Result<Vec<(String, JavaScriptType)>, TranslateError>)
    ensures
        vw_pairs_res(r) == spec_use_spec3(*spec),
{
    broadcast use group_vw_lemmas;

    if let Some(c) = &spec.components {
        if let Some(schemas) = &c.schemas {
            let ghost dv = schemas@;
            let mut out: Vec<(String, JavaScriptType)> = Vec::new();
            proof {
                assert(dv.subrange(0, 0) =~= Seq::<
                    (String, ObjectOrReference<Schema>),
                >::empty());
            }
            for i in 0..schemas.len()
                invariant
                    spec_schemas3(dv.subrange(0, i as int)) == Ok::<_, ErrV>(vw_pair_seq(out@)),
            {
                let ghost old_out = out@;
                match parse_root_schema(&schemas[i].0, &schemas[i].1) {
                    Ok(p) => {
                        out.push(p);
                        proof {
                            assert(out@.drop_last() =~= old_out);
                            assert(dv.subrange(0, i as int + 1).drop_last() =~= dv.subrange(
                                0,
                                i as int,
                            ));
                        }
                    },
                    Err(e) => {
                        proof {
                            lemma_schemas3_err(dv, i as int, e@);
                        }
                        return Err(e);
                    },
                }
            }
            proof {
                assert(dv.subrange(0, dv.len() as int) =~= dv);
            }
            return Ok(out);
        }
    }
    proof {
        assert(vw_pair_seq(Seq::<(String, JavaScriptType)>::empty()) == Seq::<
            (Seq<char>, TypeV),
        >::empty());
    }
    Ok(Vec::new())
}

// ---------------------------------------------------------------------------
// Laws
// ---------------------------------------------------------------------------

/// Required-field fidelity: lowering the properties of an object schema
/// keeps every property under its own name, in order, marks a field
/// required exactly when its name is listed under `required`, and gives it
/// the lowered form of its own schema-or-reference.
pub proof fn lemma_props3_required(
    props: Seq<(String, ObjectOrReference<Schema>)>,
    req: Seq<Seq<char>>,
)
    ensures
        spec_props3(props, req) matches Ok(rows) ==> rows.len() == props.len() && (forall|i: int|
            0 <= i < props.len() ==> (#[trigger] rows[i]).0 == props[i].0@ && rows[i].1.required
                == req.contains(props[i].0@) && spec_oor_lower3(props[i].1) == Ok::<TypeV, ErrV>(
                rows[i].1.ttype,
            )),
    decreases props,
{
    if props.len() > 0 {
        lemma_props3_required(props.drop_last(), req);
    }
}

/// Intersection fidelity: lowering an `allOf` list keeps its members in
/// order, each the lowered form of its own schema-or-reference.
pub proof fn lemma_lower3_seq_order(ss: Seq<ObjectOrReference<Schema>>)
    ensures
        spec_lower3_seq(ss) matches Ok(ts) ==> ts.len() == ss.len() && (forall|i: int|
            0 <= i < ss.len() ==> spec_oor_lower3(ss[i]) == Ok::<TypeV, ErrV>(#[trigger] ts[i])),
    decreases ss,
{
    if ss.len() > 0 {
        lemma_lower3_seq_order(ss.drop_last());
    }
}

/// Document fidelity: lowering the named schemas keeps each declaration
/// under its own name, in order, with the lowered form of its own
/// schema-or-reference.
pub proof fn lemma_schemas3_order(defs: Seq<(String, ObjectOrReference<Schema>)>)
    ensures
        spec_schemas3(defs) matches Ok(pairs) ==> pairs.len() == defs.len() && (forall|i: int|
            0 <= i < defs.len() ==> (#[trigger] pairs[i]).0 == defs[i].0@ && spec_oor_lower3(
                defs[i].1,
            ) == Ok::<TypeV, ErrV>(pairs[i].1)),
    decreases defs,
{
    if defs.len() > 0 {
        lemma_schemas3_order(defs.drop_last());
    }
}

// ---------------------------------------------------------------------------
// Distinct names
// ---------------------------------------------------------------------------

/// The names of a `(name, schema-or-reference)` list are pairwise distinct,
/// as a name-keyed mapping asks.
pub open spec fn distinct_entry_names3(entries: Seq<(String, ObjectOrReference<Schema>)>) -> bool {
    forall|i: int, j: int| 0 <= i < j < entries.len() ==> entries[i].0@ != entries[j].0@
}

/// Well-formedness of a schema-or-reference slot: a reference is always
/// well formed, an inline schema must be.
pub open spec fn wf_oor3(o: ObjectOrReference<Schema>) -> bool
    decreases o,
{
    match o {
        ObjectOrReference::Ref(r) => true,
        ObjectOrReference::Object(s) => wf_schema3(s),
    }
}

/// Well-formedness of a v3 schema node: every properties list in the tree
/// keeps its names pairwise distinct.
pub open spec fn wf_schema3(s: Schema) -> bool
    decreases s,
{
    (s.items is Some ==> wf_oor3(*s.items->0)) && (s.all_of is Some ==> (forall|i: int|
        0 <= i < s.all_of->0@.len() ==> wf_oor3(#[trigger] s.all_of->0@[i]))) && (
    s.properties is Some ==> distinct_entry_names3(s.properties->0@) && (forall|i: int|
        0 <= i < s.properties->0@.len() ==> wf_oor3(#[trigger] s.properties->0@[i].1)))
}

/// Well-formedness of a v3 document: the schema names are pairwise distinct
/// and every named schema is well formed.
pub open spec fn wf_spec3(s: Spec3) -> bool {
    s.components matches Some(c) ==> (c.schemas is Some ==> distinct_entry_names3(
        c.schemas->0@,
    ) && (forall|i: int| 0 <= i < c.schemas->0@.len() ==> wf_oor3(#[trigger] c.schemas->0@[i].1)))
}

/// Lowering keeps well-formedness: a well-formed v3 schema lowers to a type
/// whose records all keep pairwise-distinct field names.
pub proof fn lemma_lower3_preserves_wf(s: Schema)
    requires
        wf_schema3(s),
    ensures
        spec_lower3(s) matches Ok(t) ==> wf_type(t),
    decreases s,
{
    if s.all_of is Some {
        let ss = s.all_of->0@;
        lemma_lower3_seq_order(ss);
        match spec_lower3_seq(ss) {
            Ok(ts) => {
                assert forall|k: int| 0 <= k < ts.len() implies wf_type(#[trigger] ts[k]) by {
                    lemma_oor_lower3_preserves_wf(ss[k]);
                };
            },
            Err(e) => {},
        }
    } else if s.schema_type is Some {
        let ty = s.schema_type->0@;
        if ty == "array"@ && s.items is Some {
            lemma_oor_lower3_preserves_wf(*s.items->0);
        } else if ty == "string"@ && s.enum_values is Some {
            lemma_enum3_wf(s.enum_values->0@);
        } else if ty == "object"@ {
            lemma_object3_preserves_wf(s.properties, s.required);
        } else if ty == "enum"@ {
            match s.enum_values {
                Some(v) => {
                    lemma_enum3_wf(v@);
                },
                None => {},
            }
        }
    }
}

/// Every member of a lowered enum is a literal type, hence well formed.
proof fn lemma_enum3_wf(es: Seq<JavaScriptValue>)
    ensures
        forall|k: int| 0 <= k < spec_enum3(es).len() ==> wf_type(#[trigger] spec_enum3(es)[k]),
{
    lemma_enum3_order(es);
    assert forall|k: int|
        0 <= k < spec_enum3(es).len() implies wf_type(#[trigger] spec_enum3(es)[k]) by {
        assert(spec_enum3(es)[k] == TypeV::Value(vw_value(es[k])));
    };
}

/// Lowering keeps well-formedness across a schema-or-reference slot.
proof fn lemma_oor_lower3_preserves_wf(o: ObjectOrReference<Schema>)
    requires
        wf_oor3(o),
    ensures
        spec_oor_lower3(o) matches Ok(t) ==> wf_type(t),
    decreases o,
{
    match o {
        ObjectOrReference::Ref(r) => {},
        ObjectOrReference::Object(s) => {
            lemma_lower3_preserves_wf(s);
        },
    }
}

/// Lowering keeps well-formedness across an object schema's properties.
proof fn lemma_object3_preserves_wf(
    props: Option<Vec<(String, ObjectOrReference<Schema>)>>,
    required: Option<Vec<String>>,
)
    requires
        props matches Some(v) ==> distinct_entry_names3(v@) && (forall|i: int|
            0 <= i < v@.len() ==> wf_oor3(#[trigger] v@[i].1)),
    ensures
        spec_object3(props, required) matches Ok(t) ==> wf_type(t),
    decreases props,
{
    match props {
        Some(v) => {
            lemma_props3_required(v@, spec_req_names3(required));
            match spec_props3(v@, spec_req_names3(required)) {
                Ok(rows) => {
                    assert forall|k: int|
                        0 <= k < rows.len() implies wf_type(#[trigger] rows[k].1.ttype) by {
                        lemma_oor_lower3_preserves_wf(v@[k].1);
                    };
                    assert forall|k: int, l: int|
                        0 <= k < l < rows.len() implies rows[k].0 != rows[l].0 by {
                        assert(v@[k].0@ != v@[l].0@);
                    };
                },
                Err(e) => {},
            }
        },
        None => {
            assert(distinct_row_names(Seq::<(Seq<char>, RowV)>::empty()));
        },
    }
}

/// A well-formed v3 document lowers to declarations with pairwise-distinct
/// names, each a well-formed type.
pub proof fn lemma_use_spec3_preserves_wf(s: Spec3)
    requires
        wf_spec3(s),
    ensures
        spec_use_spec3(s) matches Ok(pairs) ==> (forall|i: int, j: int|
            0 <= i < j < pairs.len() ==> (#[trigger] pairs[i]).0 != (#[trigger] pairs[j]).0)
            && (forall|i: int| 0 <= i < pairs.len() ==> wf_type((#[trigger] pairs[i]).1)),
{
    match s.components {
        Some(c) => match c.schemas {
            Some(defs) => {
                lemma_schemas3_order(defs@);
                match spec_schemas3(defs@) {
                    Ok(pairs) => {
                        assert forall|i: int|
                            0 <= i < pairs.len() implies wf_type((#[trigger] pairs[i]).1) by {
                            lemma_oor_lower3_preserves_wf(defs@[i].1);
                        };
                        assert forall|i: int, j: int|
                            0 <= i < j < pairs.len() implies (#[trigger] pairs[i]).0 != (
                        #[trigger] pairs[j]).0 by {
                            assert(defs@[i].0@ != defs@[j].0@);
                        };
                    },
                    Err(e) => {},
                }
            },
            None => {},
        },
        None => {},
    }
}

/// Enum-to-union fidelity: a v3 enum keeps its members in order, each as
/// the type of that member literal, so non-string members keep their kind.
pub proof fn lemma_enum3_order(es: Seq<JavaScriptValue>)
    ensures
        spec_enum3(es).len() == es.len(),
        forall|i: int|
            0 <= i < es.len() ==> #[trigger] spec_enum3(es)[i] == TypeV::Value(vw_value(es[i])),
    decreases es,
{
    if es.len() > 0 {
        lemma_enum3_order(es.drop_last());
    }
}

} // verus!
