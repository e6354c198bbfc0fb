use vstd::prelude::*;

verus! {

// ---------------------------------------------------------------------------
// Ghost models
// ---------------------------------------------------------------------------

/// Mathematical model of a literal value: the ghost counterpart of
/// `JavaScriptValue`, with sequences in place of vectors and strings.
pub enum ValueV {
    Null,
    Str(Seq<char>),
    Bool(bool),
    Num(Seq<char>),
    List(Seq<ValueV>),
    Obj(Seq<(Seq<char>, ValueV)>),
}

/// Mathematical model of a structural type: the ghost counterpart of
/// `JavaScriptType`. A record field is a `(name, RowV)` pair.
pub enum TypeV {
    Array(Box<TypeV>),
    Product(Seq<TypeV>),
    Sum(Seq<TypeV>),
    Typename(Seq<char>),
    AnonymousObject(Seq<(Seq<char>, RowV)>),
    Value(ValueV),
}

/// Ghost counterpart of `ObjectRow`: one record field without its name.
pub struct RowV {
    pub required: bool,
    pub ttype: TypeV,
}

// ---------------------------------------------------------------------------
// Executable data
// ---------------------------------------------------------------------------

/// One `key: value` entry of an object literal.
#[derive(Debug)]
pub struct ObjectEntry {
    pub key: String,
    pub val: JavaScriptValue,
}

/// A literal value as it appears in a schema document: null, string,
/// boolean, number (kept as its decimal text), array or object.
#[derive(Debug)]
pub enum JavaScriptValue {
    Null,
    Str(String),
    Bool(bool),
    Num(String),
    List(Vec<JavaScriptValue>),
    Obj(Vec<ObjectEntry>),
}

/// A structural type: array, intersection, union, named reference, inline
/// record, or the singleton type of one literal value.
#[derive(Debug)]
pub enum JavaScriptType {
    Array(Box<JavaScriptType>),
    Product(Vec<JavaScriptType>),
    Sum(Vec<JavaScriptType>),
    Typename(String),
    AnonymousObject(Vec<(String, ObjectRow)>),
    Value(Box<JavaScriptValue>),
}

/// One field of an inline record: whether it is required, and its type.
#[derive(Debug)]
pub struct ObjectRow {
    pub required: bool,
    pub ttype: JavaScriptType,
}

// ---------------------------------------------------------------------------
// Views
// ---------------------------------------------------------------------------

pub open spec fn vw_value(v: JavaScriptValue) -> ValueV
    decreases v,
{
    match v {
        JavaScriptValue::Null => ValueV::Null,
        JavaScriptValue::Str(s) => ValueV::Str(s@),
        JavaScriptValue::Bool(b) => ValueV::Bool(b),
        JavaScriptValue::Num(n) => ValueV::Num(n@),
        JavaScriptValue::List(l) => ValueV::List(vw_value_seq(l@)),
        JavaScriptValue::Obj(o) => ValueV::Obj(vw_entry_seq(o@)),
    }
}

pub open spec fn vw_value_seq(s: Seq<JavaScriptValue>) -> Seq<ValueV>
    decreases s,
{
    if s.len() == 0 {
        Seq::empty()
    } else {
        vw_value_seq(s.drop_last()).push(vw_value(s.last()))
    }
}

pub open spec fn vw_entry_seq(s: Seq<ObjectEntry>) -> Seq<(Seq<char>, ValueV)>
    decreases s,
{
    if s.len() == 0 {
        Seq::empty()
    } else {
        vw_entry_seq(s.drop_last()).push((s.last().key@, vw_value(s.last().val)))
    }
}

impl View for JavaScriptValue {
    type V = ValueV;

    open spec fn view(&self) -> ValueV {
        vw_value(*self)
    }
}

pub open spec fn vw_type(t: JavaScriptType) -> TypeV
    decreases t,
{
    match t {
        JavaScriptType::Array(b) => TypeV::Array(Box::new(vw_type(*b))),
        JavaScriptType::Product(v) => TypeV::Product(vw_type_seq(v@)),
        JavaScriptType::Sum(v) => TypeV::Sum(vw_type_seq(v@)),
        JavaScriptType::Typename(s) => TypeV::Typename(s@),
        JavaScriptType::AnonymousObject(rows) => TypeV::AnonymousObject(vw_row_seq(rows@)),
        JavaScriptType::Value(b) => TypeV::Value(vw_value(*b)),
    }
}

pub open spec fn vw_type_seq(s: Seq<JavaScriptType>) -> Seq<TypeV>
    decreases s,
{
    if s.len() == 0 {
        Seq::empty()
    } else {
        vw_type_seq(s.drop_last()).push(vw_type(s.last()))
    }
}

pub open spec fn vw_row_seq(s: Seq<(String, ObjectRow)>) -> Seq<(Seq<char>, RowV)>
    decreases s,
{
    if s.len() == 0 {
        Seq::empty()
    } else {
        vw_row_seq(s.drop_last()).push(
            (
                s.last().0@,
                RowV { required: s.last().1.required, ttype: vw_type(s.last().1.ttype) },
            ),
        )
    }
}

impl View for JavaScriptType {
    type V = TypeV;

    open spec fn view(&self) -> TypeV {
        vw_type(*self)
    }
}

impl View for ObjectRow {
    type V = RowV;

    open spec fn view(&self) -> RowV {
        RowV { required: self.required, ttype: vw_type(self.ttype) }
    }
}

// ---------------------------------------------------------------------------
// Pointwise view lemmas
// ---------------------------------------------------------------------------

pub broadcast proof fn lemma_vw_value_seq_len(s: Seq<JavaScriptValue>)
    ensures
        (#[trigger] vw_value_seq(s)).len() == s.len(),
    decreases s,
{
    if s.len() > 0 {
        lemma_vw_value_seq_len(s.drop_last());
    }
}

pub broadcast proof fn lemma_vw_value_seq_index(s: Seq<JavaScriptValue>, i: int)
    requires
        0 <= i < s.len(),
    ensures
        #[trigger] vw_value_seq(s)[i] == vw_value(s[i]),
    decreases s,
{
    lemma_vw_value_seq_len(s);
    if i < s.len() - 1 {
        lemma_vw_value_seq_index(s.drop_last(), i);
        lemma_vw_value_seq_len(s.drop_last());
    }
}

pub broadcast proof fn lemma_vw_entry_seq_len(s: Seq<ObjectEntry>)
    ensures
        (#[trigger] vw_entry_seq(s)).len() == s.len(),
    decreases s,
{
    if s.len() > 0 {
        lemma_vw_entry_seq_len(s.drop_last());
    }
}

pub broadcast proof fn lemma_vw_entry_seq_index(s: Seq<ObjectEntry>, i: int)
    requires
        0 <= i < s.len(),
    ensures
        #[trigger] vw_entry_seq(s)[i] == (s[i].key@, vw_value(s[i].val)),
    decreases s,
{
    lemma_vw_entry_seq_len(s);
    if i < s.len() - 1 {
        lemma_vw_entry_seq_index(s.drop_last(), i);
        lemma_vw_entry_seq_len(s.drop_last());
    }
}

pub broadcast proof fn lemma_vw_type_seq_len(s: Seq<JavaScriptType>)
    ensures
        (#[trigger] vw_type_seq(s)).len() == s.len(),
    decreases s,
{
    if s.len() > 0 {
        lemma_vw_type_seq_len(s.drop_last());
    }
}

pub broadcast proof fn lemma_vw_type_seq_index(s: Seq<JavaScriptType>, i: int)
    requires
        0 <= i < s.len(),
    ensures
        #[trigger] vw_type_seq(s)[i] == vw_type(s[i]),
    decreases s,
{
    lemma_vw_type_seq_len(s);
    if i < s.len() - 1 {
        lemma_vw_type_seq_index(s.drop_last(), i);
        lemma_vw_type_seq_len(s.drop_last());
    }
}

pub broadcast proof fn lemma_vw_row_seq_len(s: Seq<(String, ObjectRow)>)
    ensures
        (#[trigger] vw_row_seq(s)).len() == s.len(),
    decreases s,
{
    if s.len() > 0 {
        lemma_vw_row_seq_len(s.drop_last());
    }
}

pub broadcast proof fn lemma_vw_row_seq_index(s: Seq<(String, ObjectRow)>, i: int)
    requires
        0 <= i < s.len(),
    ensures
        #[trigger] vw_row_seq(s)[i] == (
            s[i].0@,
            RowV { required: s[i].1.required, ttype: vw_type(s[i].1.ttype) },
        ),
    decreases s,
{
    lemma_vw_row_seq_len(s);
    if i < s.len() - 1 {
        lemma_vw_row_seq_index(s.drop_last(), i);
        lemma_vw_row_seq_len(s.drop_last());
    }
}

pub broadcast group group_vw_lemmas {
    lemma_vw_pair_seq_len,
    lemma_vw_pair_seq_index,
    lemma_vw_value_seq_len,
    lemma_vw_value_seq_index,
    lemma_vw_entry_seq_len,
    lemma_vw_entry_seq_index,
    lemma_vw_type_seq_len,
    lemma_vw_type_seq_index,
    lemma_vw_row_seq_len,
    lemma_vw_row_seq_index,
}

// ---------------------------------------------------------------------------
// Named declarations: (name, type) pairs
// ---------------------------------------------------------------------------

pub open spec fn vw_pair_seq(s: Seq<(String, JavaScriptType)>) -> Seq<(Seq<char>, TypeV)>
    decreases s,
{
    if s.len() == 0 {
        Seq::empty()
    } else {
        vw_pair_seq(s.drop_last()).push((s.last().0@, vw_type(s.last().1)))
    }
}

pub broadcast proof fn lemma_vw_pair_seq_len(s: Seq<(String, JavaScriptType)>)
    ensures
        (#[trigger] vw_pair_seq(s)).len() == s.len(),
    decreases s,
{
    if s.len() > 0 {
        lemma_vw_pair_seq_len(s.drop_last());
    }
}

pub broadcast proof fn lemma_vw_pair_seq_index(s: Seq<(String, JavaScriptType)>, i: int)
    requires
        0 <= i < s.len(),
    ensures
        #[trigger] vw_pair_seq(s)[i] == (s[i].0@, vw_type(s[i].1)),
    decreases s,
{
    lemma_vw_pair_seq_len(s);
    if i < s.len() - 1 {
        lemma_vw_pair_seq_index(s.drop_last(), i);
        lemma_vw_pair_seq_len(s.drop_last());
    }
}

// ---------------------------------------------------------------------------
// Cloning
// ---------------------------------------------------------------------------

impl Clone for ObjectEntry {
    fn clone(&self) -> (res: Self)
        ensures
            res.key@ == self.key@,
            vw_value(res.val) == vw_value(self.val),
        decreases self,
    {
        ObjectEntry { key: self.key.clone(), val: self.val.clone() }
    }
}

impl Clone for JavaScriptValue {
    #[verifier::loop_isolation(false)]
    fn clone(&self) -> (res: Self)
        ensures
            vw_value(res) == vw_value(*self),
        decreases self,
    {
        broadcast use group_vw_lemmas;

        match self {
            JavaScriptValue::Null => JavaScriptValue::Null,
            JavaScriptValue::Str(s) => JavaScriptValue::Str(s.clone()),
            JavaScriptValue::Bool(b) => JavaScriptValue::Bool(*b),
            JavaScriptValue::Num(n) => JavaScriptValue::Num(n.clone()),
            JavaScriptValue::List(l) => {
                let mut r: Vec<JavaScriptValue> = Vec::new();
                for i in 0..l.len()
                    invariant
                        r@.len() == i,
                        forall|j: int| 0 <= j < i ==> vw_value(r@[j]) == vw_value(l@[j]),
                {
                    let e = &l[i];
                    r.push(e.clone());
                }
                proof {
                    assert(vw_value_seq(r@) =~= vw_value_seq(l@));
                }
                JavaScriptValue::List(r)
            },
            JavaScriptValue::Obj(o) => {
                let mut r: Vec<ObjectEntry> = Vec::new();
                for i in 0..o.len()
                    invariant
                        r@.len() == i,
                        forall|j: int|
                            0 <= j < i ==> r@[j].key@ == o@[j].key@ && vw_value(r@[j].val)
                                == vw_value(o@[j].val),
                {
                    let e = &o[i];
                    r.push(e.clone());
                }
                proof {
                    assert(vw_entry_seq(r@) =~= vw_entry_seq(o@));
                }
                JavaScriptValue::Obj(r)
            },
        }
    }
}

// ---------------------------------------------------------------------------
// Equality
// ---------------------------------------------------------------------------

impl vstd::std_specs::cmp::PartialEqSpecImpl for JavaScriptValue {
    open spec fn obeys_eq_spec() -> bool {
        true
    }

    open spec fn eq_spec(&self, other: &Self) -> bool {
        vw_value(*self) == vw_value(*other)
    }
}

impl PartialEq for JavaScriptValue {
    /// Two literal values are equal exactly when they model the same value.
    #[verifier::loop_isolation(false)]
    fn eq(&self, other: &Self) -> (r: bool)
        decreases self,
    {
        broadcast use group_vw_lemmas;

        match (self, other) {
            (JavaScriptValue::Null, JavaScriptValue::Null) => true,
            (JavaScriptValue::Str(a), JavaScriptValue::Str(b)) => str_eq(a.as_str(), b.as_str()),
            (JavaScriptValue::Bool(a), JavaScriptValue::Bool(b)) => *a == *b,
            (JavaScriptValue::Num(a), JavaScriptValue::Num(b)) => str_eq(a.as_str(), b.as_str()),
            (JavaScriptValue::List(a), JavaScriptValue::List(b)) => {
                if a.len() != b.len() {
                    proof {
                        assert(vw_value_seq(a@).len() == a@.len());
                        assert(vw_value_seq(b@).len() == b@.len());
                    }
                    return false;
                }
                for i in 0..a.len()
                    invariant
                        forall|j: int| 0 <= j < i ==> vw_value(a@[j]) == vw_value(b@[j]),
                {
                    if !(&a[i]).eq(&b[i]) {
                        proof {
                            assert(vw_value(*self) != vw_value(*other)) by {
                                if vw_value_seq(a@) == vw_value_seq(b@) {
                                    assert(vw_value_seq(a@)[i as int] == vw_value_seq(
                                        b@,
                                    )[i as int]);
                                }
                            }
                        }
                        return false;
                    }
                }
                proof {
                    assert(vw_value_seq(a@) =~= vw_value_seq(b@));
                }
                true
            },
            (JavaScriptValue::Obj(a), JavaScriptValue::Obj(b)) => {
                if a.len() != b.len() {
                    proof {
                        assert(vw_entry_seq(a@).len() == a@.len());
                        assert(vw_entry_seq(b@).len() == b@.len());
                    }
                    return false;
                }
                for i in 0..a.len()
                    invariant
                        forall|j: int|
                            0 <= j < i ==> a@[j].key@ == b@[j].key@ && vw_value(a@[j].val)
                                == vw_value(b@[j].val),
                {
                    let keys_agree = str_eq(a[i].key.as_str(), b[i].key.as_str());
                    if !keys_agree || !(&a[i].val).eq(&b[i].val) {
                        proof {
                            assert(vw_value(*self) != vw_value(*other)) by {
                                if vw_entry_seq(a@) == vw_entry_seq(b@) {
                                    assert(vw_entry_seq(a@)[i as int] == vw_entry_seq(
                                        b@,
                                    )[i as int]);
                                }
                            }
                        }
                        return false;
                    }
                }
                proof {
                    assert(vw_entry_seq(a@) =~= vw_entry_seq(b@));
                }
                true
            },
            _ => false,
        }
    }
}

impl Eq for JavaScriptValue {
}

// ---------------------------------------------------------------------------
// Constructors
// ---------------------------------------------------------------------------

impl JavaScriptType {
    /// A named reference to a type declared elsewhere.
    pub fn typename(s: &str) -> (r: JavaScriptType)
        ensures
            r@ == TypeV::Typename(s@),
    {
        JavaScriptType::Typename(s.to_owned())
    }
}

impl ObjectRow {
    /// One record field from its required marker and its type.
    pub fn from_data(required: bool, ttype: JavaScriptType) -> (r: ObjectRow)
        ensures
            r@ == (RowV { required, ttype: ttype@ }),
    {
        ObjectRow { required, ttype }
    }
}

// ---------------------------------------------------------------------------
// Rendering, ghost level
// ---------------------------------------------------------------------------

/// Text of a literal value: strings single-quoted, booleans bare, numbers
/// verbatim, arrays bracketed and objects braced with comma separators.
pub open spec fn render_value(v: ValueV) -> Seq<char>
    decreases v,
{
    match v {
        ValueV::Null => "null"@,
        ValueV::Str(s) => "'"@ + s + "'"@,
        ValueV::Bool(b) => if b {
            "true"@
        } else {
            "false"@
        },
        ValueV::Num(n) => n,
        ValueV::List(l) => "["@ + render_value_list(l) + "]"@,
        ValueV::Obj(o) => "{"@ + render_value_obj(o) + "}"@,
    }
}

/// Comma-joined text of the elements of an array literal.
pub open spec fn render_value_list(l: Seq<ValueV>) -> Seq<char>
    decreases l,
{
    if l.len() == 0 {
        Seq::empty()
    } else if l.len() == 1 {
        render_value(l[0])
    } else {
        render_value(l[0]) + ","@ + render_value_list(l.drop_first())
    }
}

/// Comma-joined text of the entries of an object literal, each rendered as
/// a double-quoted key, a colon, and the entry's value.
pub open spec fn render_value_obj(o: Seq<(Seq<char>, ValueV)>) -> Seq<char>
    decreases o,
{
    if o.len() == 0 {
        Seq::empty()
    } else if o.len() == 1 {
        "\""@ + o[0].0 + "\":"@ + render_value(o[0].1)
    } else {
        "\""@ + o[0].0 + "\":"@ + render_value(o[0].1) + ","@ + render_value_obj(o.drop_first())
    }
}

/// Text of a structural type.
pub open spec fn render_type(t: TypeV) -> Seq<char>
    decreases t,
{
    match t {
        TypeV::Array(b) => render_type(*b) + "[]"@,
        TypeV::Product(ts) => render_type_list(ts, "&"@),
        TypeV::Sum(ts) => render_type_list(ts, "|"@),
        TypeV::Typename(n) => n,
        TypeV::AnonymousObject(rows) => "{"@ + render_rows(rows) + "}"@,
        TypeV::Value(v) => render_value(v),
    }
}

/// Members of a product or sum, joined by the separator. An empty member
/// list renders as the empty text.
pub open spec fn render_type_list(ts: Seq<TypeV>, sep: Seq<char>) -> Seq<char>
    decreases ts,
{
    if ts.len() == 0 {
        Seq::empty()
    } else if ts.len() == 1 {
        render_type(ts[0])
    } else {
        render_type(ts[0]) + sep + render_type_list(ts.drop_first(), sep)
    }
}

/// One record field: the double-quoted name, a `?` marker iff the field is
/// optional, the field's type, and a closing semicolon.
pub open spec fn render_row(name: Seq<char>, r: RowV) -> Seq<char>
    decreases r,
{
    "\""@ + name + "\" "@ + (if r.required {
        Seq::<char>::empty()
    } else {
        "? "@
    }) + ": "@ + render_type(r.ttype) + ";"@
}

/// The concatenated fields of a record.
pub open spec fn render_rows(rows: Seq<(Seq<char>, RowV)>) -> Seq<char>
    decreases rows,
{
    if rows.len() == 0 {
        Seq::empty()
    } else {
        render_row(rows[0].0, rows[0].1) + render_rows(rows.drop_first())
    }
}

// ---------------------------------------------------------------------------
// Rendering: unfolding joins from the right
// ---------------------------------------------------------------------------

proof fn lemma_render_value_list_push(s: Seq<ValueV>, x: ValueV)
    ensures
        render_value_list(s.push(x)) == if s.len() == 0 {
            render_value(x)
        } else {
            render_value_list(s) + ","@ + render_value(x)
        },
    decreases s,
{
    if s.len() == 0 {
        assert(s.push(x)[0] == x);
    } else {
        lemma_render_value_list_push(s.drop_first(), x);
        assert(s.push(x).drop_first() =~= s.drop_first().push(x));
        assert(s.push(x)[0] == s[0]);
        if s.len() > 1 {
            assert(render_value(s[0]) + ","@ + (render_value_list(s.drop_first()) + ","@
                + render_value(x)) =~= (render_value(s[0]) + ","@ + render_value_list(
                s.drop_first(),
            )) + ","@ + render_value(x));
        }
    }
}

proof fn lemma_render_value_obj_push(s: Seq<(Seq<char>, ValueV)>, x: (Seq<char>, ValueV))
    ensures
        render_value_obj(s.push(x)) == if s.len() == 0 {
            "\""@ + x.0 + "\":"@ + render_value(x.1)
        } else {
            render_value_obj(s) + ","@ + ("\""@ + x.0 + "\":"@ + render_value(x.1))
        },
    decreases s,
{
    if s.len() == 0 {
        assert(s.push(x)[0] == x);
    } else {
        lemma_render_value_obj_push(s.drop_first(), x);
        assert(s.push(x).drop_first() =~= s.drop_first().push(x));
        assert(s.push(x)[0] == s[0]);
        let e0 = "\""@ + s[0].0 + "\":"@ + render_value(s[0].1);
        let ex = "\""@ + x.0 + "\":"@ + render_value(x.1);
        if s.len() > 1 {
            assert(e0 + ","@ + (render_value_obj(s.drop_first()) + ","@ + ex) =~= (e0 + ","@
                + render_value_obj(s.drop_first())) + ","@ + ex);
        } else {
            assert(e0 + ","@ + ex =~= render_value_obj(s) + ","@ + ex);
        }
    }
}

proof fn lemma_render_type_list_push(s: Seq<TypeV>, x: TypeV, sep: Seq<char>)
    ensures
        render_type_list(s.push(x), sep) == if s.len() == 0 {
            render_type(x)
        } else {
            render_type_list(s, sep) + sep + render_type(x)
        },
    decreases s,
{
    if s.len() == 0 {
        assert(s.push(x)[0] == x);
    } else {
        lemma_render_type_list_push(s.drop_first(), x, sep);
        assert(s.push(x).drop_first() =~= s.drop_first().push(x));
        assert(s.push(x)[0] == s[0]);
        if s.len() > 1 {
            assert(render_type(s[0]) + sep + (render_type_list(s.drop_first(), sep) + sep
                + render_type(x)) =~= (render_type(s[0]) + sep + render_type_list(
                s.drop_first(),
                sep,
            )) + sep + render_type(x));
        }
    }
}

proof fn lemma_render_rows_push(s: Seq<(Seq<char>, RowV)>, x: (Seq<char>, RowV))
    ensures
        render_rows(s.push(x)) == render_rows(s) + render_row(x.0, x.1),
    decreases s,
{
    if s.len() == 0 {
        assert(s.push(x)[0] == x);
        assert(s.push(x).drop_first() =~= Seq::<(Seq<char>, RowV)>::empty());
        assert(render_rows(Seq::<(Seq<char>, RowV)>::empty()) == Seq::<char>::empty());
        assert(Seq::<char>::empty() + render_row(x.0, x.1) =~= render_row(x.0, x.1));
        assert(render_row(x.0, x.1) + Seq::<char>::empty() =~= render_row(x.0, x.1));
    } else {
        lemma_render_rows_push(s.drop_first(), x);
        assert(s.push(x).drop_first() =~= s.drop_first().push(x));
        assert(s.push(x)[0] == s[0]);
        assert(render_row(s[0].0, s[0].1) + (render_rows(s.drop_first()) + render_row(x.0, x.1))
            =~= (render_row(s[0].0, s[0].1) + render_rows(s.drop_first())) + render_row(x.0, x.1));
    }
}

// ---------------------------------------------------------------------------
// Rendering, executable level
// ---------------------------------------------------------------------------

impl JavaScriptValue {
    /// The text of this literal value.
    #[verifier::loop_isolation(false)]
    #[verifier::rlimit(60)]
    pub fn to_text(&self) -> (r: String)
        ensures
            r@ == render_value(vw_value(*self)),
        decreases self,
    {
        broadcast use group_vw_lemmas;

        match self {
            JavaScriptValue::Null => "null".to_owned(),
            JavaScriptValue::Str(s) => {
                let mut r = "'".to_owned();
                r.append(s.as_str());
                r.append("'");
                r
            },
            JavaScriptValue::Bool(b) => if *b {
                "true".to_owned()
            } else {
                "false".to_owned()
            },
            JavaScriptValue::Num(n) => n.clone(),
            JavaScriptValue::List(l) => {
                let ghost lv = vw_value_seq(l@);
                let mut r = "[".to_owned();
                proof {
                    assert(lv.subrange(0, 0) =~= Seq::<ValueV>::empty());
                    assert("["@ + Seq::<char>::empty() =~= "["@);
                }
                for i in 0..l.len()
                    invariant
                        r@ == "["@ + render_value_list(lv.subrange(0, i as int)),
                {
                    if i > 0 {
                        r.append(",");
                    }
                    let t = (&l[i]).to_text();
                    r.append(t.as_str());
                    proof {
                        let pre = lv.subrange(0, i as int);
                        lemma_render_value_list_push(pre, vw_value(l@[i as int]));
                        assert(pre.push(vw_value(l@[i as int])) =~= lv.subrange(0, i as int + 1));
                        if i > 0 {
                            assert(("["@ + render_value_list(pre)) + ","@ + render_value(
                                vw_value(l@[i as int]),
                            ) =~= "["@ + (render_value_list(pre) + ","@ + render_value(
                                vw_value(l@[i as int]),
                            )));
                        } else {
                            assert(("["@ + render_value_list(pre)) + render_value(
                                vw_value(l@[i as int]),
                            ) =~= "["@ + render_value(vw_value(l@[i as int])));
                        }
                    }
                }
                r.append("]");
                proof {
                    assert(lv.subrange(0, l@.len() as int) =~= lv);
                }
                r
            },
            JavaScriptValue::Obj(o) => {
                let ghost ov = vw_entry_seq(o@);
                let mut r = "{".to_owned();
                proof {
                    assert(ov.subrange(0, 0) =~= Seq::<(Seq<char>, ValueV)>::empty());
                    assert("{"@ + Seq::<char>::empty() =~= "{"@);
                }
                for i in 0..o.len()
                    invariant
                        r@ == "{"@ + render_value_obj(ov.subrange(0, i as int)),
                {
                    if i > 0 {
                        r.append(",");
                    }
                    r.append("\"");
                    r.append(o[i].key.as_str());
                    r.append("\":");
                    let t = (&o[i].val).to_text();
                    r.append(t.as_str());
                    proof {
                        let pre = ov.subrange(0, i as int);
                        let x = (o@[i as int].key@, vw_value(o@[i as int].val));
                        lemma_render_value_obj_push(pre, x);
                        assert(pre.push(x) =~= ov.subrange(0, i as int + 1));
                        let ex = "\""@ + x.0 + "\":"@ + render_value(x.1);
                        if i > 0 {
                            assert(r@ =~= "{"@ + (render_value_obj(pre) + ","@ + ex));
                        } else {
                            assert(r@ =~= "{"@ + ex);
                        }
                    }
                }
                r.append("}");
                proof {
                    assert(ov.subrange(0, o@.len() as int) =~= ov);
                }
                r
            },
        }
    }
}

impl JavaScriptType {
    /// The text of this structural type.
    #[verifier::loop_isolation(false)]
    #[verifier::rlimit(60)]
    pub fn to_text(&self) -> (r: String)
        ensures
            r@ == render_type(vw_type(*self)),
        decreases self,
    {
        broadcast use group_vw_lemmas;

        match self {
            JavaScriptType::Array(b) => {
                let mut r = (&**b).to_text();
                r.append("[]");
                r
            },
            JavaScriptType::Product(ts) => render_joined(ts, "&"),
            JavaScriptType::Sum(ts) => render_joined(ts, "|"),
            JavaScriptType::Typename(n) => n.clone(),
            JavaScriptType::AnonymousObject(rows) => {
                let ghost rv = vw_row_seq(rows@);
                let mut r = "{".to_owned();
                proof {
                    assert(rv.subrange(0, 0) =~= Seq::<(Seq<char>, RowV)>::empty());
                    assert("{"@ + Seq::<char>::empty() =~= "{"@);
                }
                for i in 0..rows.len()
                    invariant
                        r@ == "{"@ + render_rows(rv.subrange(0, i as int)),
                {
                    r.append("\"");
                    r.append(rows[i].0.as_str());
                    r.append("\" ");
                    if !rows[i].1.required {
                        r.append("? ");
                    }
                    r.append(": ");
                    let t = (&rows[i].1.ttype).to_text();
                    r.append(t.as_str());
                    r.append(";");
                    proof {
                        let pre = rv.subrange(0, i as int);
                        let x = (
                            rows@[i as int].0@,
                            RowV {
                                required: rows@[i as int].1.required,
                                ttype: vw_type(rows@[i as int].1.ttype),
                            },
                        );
                        lemma_render_rows_push(pre, x);
                        assert(pre.push(x) =~= rv.subrange(0, i as int + 1));
                        assert(r@ =~= "{"@ + (render_rows(pre) + render_row(x.0, x.1)));
                    }
                }
                r.append("}");
                proof {
                    assert(rv.subrange(0, rows@.len() as int) =~= rv);
                }
                r
            },
            JavaScriptType::Value(v) => (&**v).to_text(),
        }
    }
}

/// The members of a product or sum, rendered and joined by the separator.
#[verifier::loop_isolation(false)]
fn render_joined(ts: &Vec<JavaScriptType>, sep: &str) -> (r: String)
    ensures
        r@ == render_type_list(vw_type_seq(ts@), sep@),
    decreases ts@,
{
    broadcast use group_vw_lemmas;

    let ghost tv = vw_type_seq(ts@);
    let mut r = String::new();
    proof {
        assert(tv.subrange(0, 0) =~= Seq::<TypeV>::empty());
    }
    for i in 0..ts.len()
        invariant
            r@ == render_type_list(tv.subrange(0, i as int), sep@),
    {
        if i > 0 {
            r.append(sep);
        }
        let t = (&ts[i]).to_text();
        r.append(t.as_str());
        proof {
            let pre = tv.subrange(0, i as int);
            lemma_render_type_list_push(pre, vw_type(ts@[i as int]), sep@);
            assert(pre.push(vw_type(ts@[i as int])) =~= tv.subrange(0, i as int + 1));
            if i == 0 {
                assert(Seq::<char>::empty() + render_type(vw_type(ts@[i as int])) =~= render_type(
                    vw_type(ts@[i as int]),
                ));
            }
        }
    }
    proof {
        assert(tv.subrange(0, ts@.len() as int) =~= tv);
    }
    r
}

// ---------------------------------------------------------------------------
// Transforms, ghost level
// ---------------------------------------------------------------------------

/// Recursively strips empty structure from a type. A record, sum or product
/// whose members all prune away is itself pruned (`None`); named references
/// and literal types are always kept.
pub open spec fn prune_empty(t: TypeV) -> Option<TypeV>
    decreases t,
{
    match t {
        TypeV::Array(b) => match prune_empty(*b) {
            Some(u) => Some(TypeV::Array(Box::new(u))),
            None => None,
        },
        TypeV::Product(ts) => {
            let r = prune_empty_seq(ts);
            if r.len() == 0 {
                None
            } else {
                Some(TypeV::Product(r))
            }
        },
        TypeV::Sum(ts) => {
            let r = prune_empty_seq(ts);
            if r.len() == 0 {
                None
            } else {
                Some(TypeV::Sum(r))
            }
        },
        TypeV::Typename(n) => Some(TypeV::Typename(n)),
        TypeV::AnonymousObject(rows) => {
            let r = prune_empty_rows(rows);
            if r.len() == 0 {
                None
            } else {
                Some(TypeV::AnonymousObject(r))
            }
        },
        TypeV::Value(v) => Some(TypeV::Value(v)),
    }
}

/// An optional member as a member list: one survivor or none.
pub open spec fn opt_as_seq(o: Option<TypeV>) -> Seq<TypeV> {
    match o {
        Some(u) => seq![u],
        None => Seq::empty(),
    }
}

/// An optional field type as a field list: one surviving field or none.
pub open spec fn opt_as_row_seq(name: Seq<char>, required: bool, o: Option<TypeV>) -> Seq<
    (Seq<char>, RowV),
> {
    match o {
        Some(u) => seq![(name, RowV { required, ttype: u })],
        None => Seq::empty(),
    }
}

/// The members of a sum or product that survive pruning, in order.
pub open spec fn prune_empty_seq(ts: Seq<TypeV>) -> Seq<TypeV>
    decreases ts,
{
    if ts.len() == 0 {
        Seq::empty()
    } else {
        prune_empty_seq(ts.drop_last()) + opt_as_seq(prune_empty(ts.last()))
    }
}

/// The fields of a record whose types survive pruning, in order.
pub open spec fn prune_empty_rows(rows: Seq<(Seq<char>, RowV)>) -> Seq<(Seq<char>, RowV)>
    decreases rows,
{
    if rows.len() == 0 {
        Seq::empty()
    } else {
        prune_empty_rows(rows.drop_last()) + opt_as_row_seq(
            rows.last().0,
            rows.last().1.required,
            prune_empty(rows.last().1.ttype),
        )
    }
}

/// Recursively removes named references whose name is in `names`. A record,
/// sum or product whose members were all removed is itself removed; one that
/// was empty to begin with is kept as it stands; literal types are always
/// kept.
pub open spec fn exclude_named(t: TypeV, names: Seq<Seq<char>>) -> Option<TypeV>
    decreases t,
{
    match t {
        TypeV::Array(b) => match exclude_named(*b, names) {
            Some(u) => Some(TypeV::Array(Box::new(u))),
            None => None,
        },
        TypeV::Product(ts) => {
            let r = exclude_named_seq(ts, names);
            if ts.len() > 0 && r.len() == 0 {
                None
            } else {
                Some(TypeV::Product(r))
            }
        },
        TypeV::Sum(ts) => {
            let r = exclude_named_seq(ts, names);
            if ts.len() > 0 && r.len() == 0 {
                None
            } else {
                Some(TypeV::Sum(r))
            }
        },
        TypeV::Typename(n) => if names.contains(n) {
            None
        } else {
            Some(TypeV::Typename(n))
        },
        TypeV::AnonymousObject(rows) => {
            let r = exclude_named_rows(rows, names);
            if rows.len() > 0 && r.len() == 0 {
                None
            } else {
                Some(TypeV::AnonymousObject(r))
            }
        },
        TypeV::Value(v) => Some(TypeV::Value(v)),
    }
}

/// The members of a sum or product that survive exclusion, in order.
pub open spec fn exclude_named_seq(ts: Seq<TypeV>, names: Seq<Seq<char>>) -> Seq<TypeV>
    decreases ts,
{
    if ts.len() == 0 {
        Seq::empty()
    } else {
        exclude_named_seq(ts.drop_last(), names) + opt_as_seq(exclude_named(ts.last(), names))
    }
}

/// The fields of a record whose types survive exclusion, in order.
pub open spec fn exclude_named_rows(rows: Seq<(Seq<char>, RowV)>, names: Seq<Seq<char>>) -> Seq<
    (Seq<char>, RowV),
>
    decreases rows,
{
    if rows.len() == 0 {
        Seq::empty()
    } else {
        exclude_named_rows(rows.drop_last(), names) + opt_as_row_seq(
            rows.last().0,
            rows.last().1.required,
            exclude_named(rows.last().1.ttype, names),
        )
    }
}

// ---------------------------------------------------------------------------
// Transforms, executable level
// ---------------------------------------------------------------------------

/// The view of an optional type.
pub open spec fn opt_vw(o: Option<JavaScriptType>) -> Option<TypeV> {
    match o {
        Some(t) => Some(vw_type(t)),
        None => None,
    }
}

/// Whether the two strings hold the same characters.
#[verifier::loop_isolation(false)]
pub(crate) fn str_eq(a: &str, b: &str) -> (r: bool)
    ensures
        r == (a@ == b@),
{
    let an = a.unicode_len();
    let bn = b.unicode_len();
    if an != bn {
        proof {
            assert(a@ != b@) by {
                if a@ == b@ {
                    assert(a@.len() == b@.len());
                }
            }
        }
        return false;
    }
    for i in 0..an
        invariant
            forall|j: int| 0 <= j < i ==> a@[j] == b@[j],
    {
        if a.get_char(i) != b.get_char(i) {
            proof {
                assert(a@ != b@) by {
                    if a@ == b@ {
                        assert(a@[i as int] == b@[i as int]);
                    }
                }
            }
            return false;
        }
    }
    proof {
        assert(a@ =~= b@);
    }
    true
}

/// Whether `n` is one of the names in `names`.
#[verifier::loop_isolation(false)]
pub(crate) fn contains_name(names: &Vec<String>, n: &String) -> (r: bool)
    ensures
        r == names.deep_view().contains(n@),
{
    let ghost dv = names.deep_view();
    proof {
        assert(dv.len() == names@.len());
    }
    for i in 0..names.len()
        invariant
            forall|j: int| 0 <= j < i ==> dv[j] != n@,
    {
        if names[i].eq(n) {
            proof {
                assert(dv[i as int] == n@);
            }
            return true;
        }
    }
    proof {
        assert(!dv.contains(n@));
    }
    false
}

/// Recursively strips empty structure from a type, returning `None` when the
/// whole type prunes away.
pub fn filter_empty_types(tt: &JavaScriptType) -> (r: Option<JavaScriptType>)
    ensures
        opt_vw(r) == prune_empty(vw_type(*tt)),
    decreases tt,
{
    match tt {
        JavaScriptType::Array(b) => {
            match filter_empty_types(&**b) {
                Some(u) => Some(JavaScriptType::Array(Box::new(u))),
                None => None,
            }
        },
        JavaScriptType::Product(ts) => {
            let out = prune_members(ts);
            if out.len() == 0 {
                None
            } else {
                Some(JavaScriptType::Product(out))
            }
        },
        JavaScriptType::Sum(ts) => {
            let out = prune_members(ts);
            if out.len() == 0 {
                None
            } else {
                Some(JavaScriptType::Sum(out))
            }
        },
        JavaScriptType::Typename(n) => Some(JavaScriptType::Typename(n.clone())),
        JavaScriptType::AnonymousObject(rows) => {
            let out = prune_fields(rows);
            if out.len() == 0 {
                None
            } else {
                Some(JavaScriptType::AnonymousObject(out))
            }
        },
        JavaScriptType::Value(v) => Some(JavaScriptType::Value(Box::new((&**v).clone()))),
    }
}

/// The members of a sum or product that survive pruning.
#[verifier::loop_isolation(false)]
fn prune_members(ts: &Vec<JavaScriptType>) -> (out: Vec<JavaScriptType>)
    ensures
        vw_type_seq(out@) == prune_empty_seq(vw_type_seq(ts@)),
    decreases ts@,
{
    broadcast use group_vw_lemmas;

    let ghost tv = vw_type_seq(ts@);
    let mut out: Vec<JavaScriptType> = Vec::new();
    proof {
        assert(tv.subrange(0, 0) =~= Seq::<TypeV>::empty());
    }
    for i in 0..ts.len()
        invariant
            vw_type_seq(out@) == prune_empty_seq(tv.subrange(0, i as int)),
    {
        let ghost old_out = out@;
        match filter_empty_types(&ts[i]) {
            Some(u) => {
                out.push(u);
                proof {
                    assert(out@.drop_last() =~= old_out);
                    assert(prune_empty_seq(tv.subrange(0, i as int)) + seq![vw_type(u)]
                        =~= prune_empty_seq(tv.subrange(0, i as int)).push(vw_type(u)));
                }
            },
            None => {
                proof {
                    assert(prune_empty_seq(tv.subrange(0, i as int)) + Seq::<TypeV>::empty()
                        =~= prune_empty_seq(tv.subrange(0, i as int)));
                }
            },
        }
        proof {
            assert(tv.subrange(0, i as int + 1).drop_last() =~= tv.subrange(0, i as int));
        }
    }
    proof {
        assert(tv.subrange(0, ts@.len() as int) =~= tv);
    }
    out
}

/// The fields of a record whose types survive pruning.
#[verifier::loop_isolation(false)]
fn prune_fields(rows: &Vec<(String, ObjectRow)>) -> (out: Vec<(String, ObjectRow)>)
    ensures
        vw_row_seq(out@) == prune_empty_rows(vw_row_seq(rows@)),
    decreases rows@,
{
    broadcast use group_vw_lemmas;

    let ghost rv = vw_row_seq(rows@);
    let mut out: Vec<(String, ObjectRow)> = Vec::new();
    proof {
        assert(rv.subrange(0, 0) =~= Seq::<(Seq<char>, RowV)>::empty());
    }
    for i in 0..rows.len()
        invariant
            vw_row_seq(out@) == prune_empty_rows(rv.subrange(0, i as int)),
    {
        let ghost old_out = out@;
        match filter_empty_types(&rows[i].1.ttype) {
            Some(u) => {
                let ghost uv = vw_type(u);
                out.push((rows[i].0.clone(), ObjectRow { required: rows[i].1.required, ttype: u }));
                proof {
                    assert(out@.drop_last() =~= old_out);
                    let x = (rv[i as int].0, RowV { required: rv[i as int].1.required, ttype: uv });
                    assert(prune_empty_rows(rv.subrange(0, i as int)) + seq![x]
                        =~= prune_empty_rows(rv.subrange(0, i as int)).push(x));
                }
            },
            None => {
                proof {
                    assert(prune_empty_rows(rv.subrange(0, i as int)) + Seq::<
                        (Seq<char>, RowV),
                    >::empty() =~= prune_empty_rows(rv.subrange(0, i as int)));
                }
            },
        }
        proof {
            assert(rv.subrange(0, i as int + 1).drop_last() =~= rv.subrange(0, i as int));
        }
    }
    proof {
        assert(rv.subrange(0, rows@.len() as int) =~= rv);
    }
    out
}

/// Recursively removes the named references listed in `skip_types`,
/// returning `None` when the whole type is removed.
pub fn filter_unwanted_types(tt: &JavaScriptType, skip_types: &Vec<String>) -> (r: Option<
    JavaScriptType,
>)
    ensures
        opt_vw(r) == exclude_named(vw_type(*tt), skip_types.deep_view()),
    decreases tt,
{
    broadcast use group_vw_lemmas;

    match tt {
        JavaScriptType::Array(b) => {
            match filter_unwanted_types(&**b, skip_types) {
                Some(u) => Some(JavaScriptType::Array(Box::new(u))),
                None => None,
            }
        },
        JavaScriptType::Product(ts) => {
            let out = exclude_members(ts, skip_types);
            if ts.len() > 0 && out.len() == 0 {
                None
            } else {
                Some(JavaScriptType::Product(out))
            }
        },
        JavaScriptType::Sum(ts) => {
            let out = exclude_members(ts, skip_types);
            if ts.len() > 0 && out.len() == 0 {
                None
            } else {
                Some(JavaScriptType::Sum(out))
            }
        },
        JavaScriptType::Typename(n) => {
            if contains_name(skip_types, n) {
                None
            } else {
                Some(JavaScriptType::Typename(n.clone()))
            }
        },
        JavaScriptType::AnonymousObject(rows) => {
            let out = exclude_fields(rows, skip_types);
            if rows.len() > 0 && out.len() == 0 {
                None
            } else {
                Some(JavaScriptType::AnonymousObject(out))
            }
        },
        JavaScriptType::Value(v) => Some(JavaScriptType::Value(Box::new((&**v).clone()))),
    }
}

/// The members of a sum or product that survive exclusion.
#[verifier::loop_isolation(false)]
fn exclude_members(ts: &Vec<JavaScriptType>, skip_types: &Vec<String>) -> (out: Vec<
    JavaScriptType,
>)
    ensures
        vw_type_seq(out@) == exclude_named_seq(vw_type_seq(ts@), skip_types.deep_view()),
    decreases ts@,
{
    broadcast use group_vw_lemmas;

    let ghost names = skip_types.deep_view();
    let ghost tv = vw_type_seq(ts@);
    let mut out: Vec<JavaScriptType> = Vec::new();
    proof {
        assert(tv.subrange(0, 0) =~= Seq::<TypeV>::empty());
    }
    for i in 0..ts.len()
        invariant
            vw_type_seq(out@) == exclude_named_seq(tv.subrange(0, i as int), names),
    {
        let ghost old_out = out@;
        match filter_unwanted_types(&ts[i], skip_types) {
            Some(u) => {
                out.push(u);
                proof {
                    assert(out@.drop_last() =~= old_out);
                    assert(exclude_named_seq(tv.subrange(0, i as int), names) + seq![vw_type(u)]
                        =~= exclude_named_seq(tv.subrange(0, i as int), names).push(vw_type(u)));
                }
            },
            None => {
                proof {
                    assert(exclude_named_seq(tv.subrange(0, i as int), names) + Seq::<
                        TypeV,
                    >::empty() =~= exclude_named_seq(tv.subrange(0, i as int), names));
                }
            },
        }
        proof {
            assert(tv.subrange(0, i as int + 1).drop_last() =~= tv.subrange(0, i as int));
        }
    }
    proof {
        assert(tv.subrange(0, ts@.len() as int) =~= tv);
    }
    out
}

/// The fields of a record whose types survive exclusion.
#[verifier::loop_isolation(false)]
fn exclude_fields(rows: &Vec<(String, ObjectRow)>, skip_types: &Vec<String>) -> (out: Vec<
    (String, ObjectRow),
>)
    ensures
        vw_row_seq(out@) == exclude_named_rows(vw_row_seq(rows@), skip_types.deep_view()),
    decreases rows@,
{
    broadcast use group_vw_lemmas;

    let ghost names = skip_types.deep_view();
    let ghost rv = vw_row_seq(rows@);
    let mut out: Vec<(String, ObjectRow)> = Vec::new();
    proof {
        assert(rv.subrange(0, 0) =~= Seq::<(Seq<char>, RowV)>::empty());
    }
    for i in 0..rows.len()
        invariant
            vw_row_seq(out@) == exclude_named_rows(rv.subrange(0, i as int), names),
    {
        let ghost old_out = out@;
        match filter_unwanted_types(&rows[i].1.ttype, skip_types) {
            Some(u) => {
                let ghost uv = vw_type(u);
                out.push((rows[i].0.clone(), ObjectRow { required: rows[i].1.required, ttype: u }));
                proof {
                    assert(out@.drop_last() =~= old_out);
                    let x = (rv[i as int].0, RowV { required: rv[i as int].1.required, ttype: uv });
                    assert(exclude_named_rows(rv.subrange(0, i as int), names) + seq![x]
                        =~= exclude_named_rows(rv.subrange(0, i as int), names).push(x));
                }
            },
            None => {
                proof {
                    assert(exclude_named_rows(rv.subrange(0, i as int), names) + Seq::<
                        (Seq<char>, RowV),
                    >::empty() =~= exclude_named_rows(rv.subrange(0, i as int), names));
                }
            },
        }
        proof {
            assert(rv.subrange(0, i as int + 1).drop_last() =~= rv.subrange(0, i as int));
        }
    }
    proof {
        assert(rv.subrange(0, rows@.len() as int) =~= rv);
    }
    out
}

// ---------------------------------------------------------------------------
// Laws
// ---------------------------------------------------------------------------

/// Pruning is idempotent: whatever `prune_empty` keeps, a second pruning
/// keeps unchanged.
pub proof fn lemma_prune_empty_idempotent(t: TypeV)
    ensures
        match prune_empty(t) {
            Some(u) => prune_empty(u) == Some(u),
            None => true,
        },
    decreases t,
{
    match t {
        TypeV::Array(b) => {
            lemma_prune_empty_idempotent(*b);
        },
        TypeV::Product(ts) => {
            lemma_prune_empty_seq_fixed(ts);
            let r = prune_empty_seq(ts);
            if r.len() > 0 {
                lemma_prune_empty_seq_of_fixed(r);
            }
        },
        TypeV::Sum(ts) => {
            lemma_prune_empty_seq_fixed(ts);
            let r = prune_empty_seq(ts);
            if r.len() > 0 {
                lemma_prune_empty_seq_of_fixed(r);
            }
        },
        TypeV::Typename(n) => {},
        TypeV::AnonymousObject(rows) => {
            lemma_prune_empty_rows_fixed(rows);
            let r = prune_empty_rows(rows);
            if r.len() > 0 {
                lemma_prune_empty_rows_of_fixed(r);
            }
        },
        TypeV::Value(v) => {},
    }
}

/// Every member that survives pruning is a fixed point of `prune_empty`.
proof fn lemma_prune_empty_seq_fixed(ts: Seq<TypeV>)
    ensures
        forall|i: int|
            0 <= i < prune_empty_seq(ts).len() ==> #[trigger] prune_empty(prune_empty_seq(ts)[i])
                == Some(prune_empty_seq(ts)[i]),
    decreases ts,
{
    if ts.len() > 0 {
        lemma_prune_empty_idempotent(ts.last());
        lemma_prune_empty_seq_fixed(ts.drop_last());
    }
}

/// Every field type that survives pruning is a fixed point of `prune_empty`.
proof fn lemma_prune_empty_rows_fixed(rows: Seq<(Seq<char>, RowV)>)
    ensures
        forall|i: int|
            0 <= i < prune_empty_rows(rows).len() ==> #[trigger] prune_empty(
                prune_empty_rows(rows)[i].1.ttype,
            ) == Some(prune_empty_rows(rows)[i].1.ttype),
    decreases rows,
{
    if rows.len() > 0 {
        lemma_prune_empty_idempotent(rows.last().1.ttype);
        lemma_prune_empty_rows_fixed(rows.drop_last());
        let r0 = prune_empty_rows(rows.drop_last());
        let r = prune_empty_rows(rows);
        assert forall|i: int|
            0 <= i < r.len() implies #[trigger] prune_empty(r[i].1.ttype) == Some(
            r[i].1.ttype,
        ) by {
            if i < r0.len() {
                assert(r[i] == r0[i]);
                assert(prune_empty(r0[i].1.ttype) == Some(r0[i].1.ttype));
            } else {
                match prune_empty(rows.last().1.ttype) {
                    Some(u) => {
                        assert(r[i] == (
                            rows.last().0,
                            RowV { required: rows.last().1.required, ttype: u },
                        ));
                    },
                    None => {},
                }
            }
        };
    }
}

/// Pruning keeps a member list unchanged when every member is a fixed point.
proof fn lemma_prune_empty_seq_of_fixed(ts: Seq<TypeV>)
    requires
        forall|i: int| 0 <= i < ts.len() ==> #[trigger] prune_empty(ts[i]) == Some(ts[i]),
    ensures
        prune_empty_seq(ts) == ts,
    decreases ts,
{
    if ts.len() == 0 {
        assert(prune_empty_seq(ts) =~= ts);
    } else {
        assert(prune_empty(ts.last()) == Some(ts.last()));
        assert(forall|i: int|
            0 <= i < ts.drop_last().len() ==> #[trigger] prune_empty(ts.drop_last()[i]) == Some(
                ts.drop_last()[i],
            ));
        lemma_prune_empty_seq_of_fixed(ts.drop_last());
        assert(prune_empty_seq(ts) =~= ts);
    }
}

/// Pruning keeps a field list unchanged when every field's type is a fixed
/// point.
proof fn lemma_prune_empty_rows_of_fixed(rows: Seq<(Seq<char>, RowV)>)
    requires
        forall|i: int|
            0 <= i < rows.len() ==> #[trigger] prune_empty(rows[i].1.ttype) == Some(
                rows[i].1.ttype,
            ),
    ensures
        prune_empty_rows(rows) == rows,
    decreases rows,
{
    if rows.len() == 0 {
        assert(prune_empty_rows(rows) =~= rows);
    } else {
        assert(prune_empty(rows.last().1.ttype) == Some(rows.last().1.ttype));
        assert forall|i: int|
            0 <= i < rows.drop_last().len() implies #[trigger] prune_empty(
            rows.drop_last()[i].1.ttype,
        ) == Some(rows.drop_last()[i].1.ttype) by {
            assert(rows.drop_last()[i] == rows[i]);
        };
        lemma_prune_empty_rows_of_fixed(rows.drop_last());
        assert(rows.last() == (rows.last().0, RowV {
            required: rows.last().1.required,
            ttype: rows.last().1.ttype,
        }));
        assert(prune_empty_rows(rows) =~= rows);
    }
}

/// Exclusion is idempotent: whatever `exclude_named` keeps, a second pass
/// with the same name set keeps unchanged.
pub proof fn lemma_exclude_named_idempotent(t: TypeV, names: Seq<Seq<char>>)
    ensures
        match exclude_named(t, names) {
            Some(u) => exclude_named(u, names) == Some(u),
            None => true,
        },
    decreases t,
{
    match t {
        TypeV::Array(b) => {
            lemma_exclude_named_idempotent(*b, names);
        },
        TypeV::Product(ts) => {
            lemma_exclude_named_seq_fixed(ts, names);
            let r = exclude_named_seq(ts, names);
            if ts.len() == 0 {
                assert(exclude_named_seq(Seq::<TypeV>::empty(), names) =~= Seq::<TypeV>::empty());
            } else if r.len() > 0 {
                lemma_exclude_named_seq_of_fixed(r, names);
            }
        },
        TypeV::Sum(ts) => {
            lemma_exclude_named_seq_fixed(ts, names);
            let r = exclude_named_seq(ts, names);
            if ts.len() == 0 {
                assert(exclude_named_seq(Seq::<TypeV>::empty(), names) =~= Seq::<TypeV>::empty());
            } else if r.len() > 0 {
                lemma_exclude_named_seq_of_fixed(r, names);
            }
        },
        TypeV::Typename(n) => {},
        TypeV::AnonymousObject(rows) => {
            lemma_exclude_named_rows_fixed(rows, names);
            let r = exclude_named_rows(rows, names);
            if rows.len() == 0 {
                assert(exclude_named_rows(Seq::<(Seq<char>, RowV)>::empty(), names) =~= Seq::<
                    (Seq<char>, RowV),
                >::empty());
            } else if r.len() > 0 {
                lemma_exclude_named_rows_of_fixed(r, names);
            }
        },
        TypeV::Value(v) => {},
    }
}

/// Every member that survives exclusion is a fixed point of `exclude_named`.
proof fn lemma_exclude_named_seq_fixed(ts: Seq<TypeV>, names: Seq<Seq<char>>)
    ensures
        forall|i: int|
            0 <= i < exclude_named_seq(ts, names).len() ==> #[trigger] exclude_named(
                exclude_named_seq(ts, names)[i],
                names,
            ) == Some(exclude_named_seq(ts, names)[i]),
    decreases ts,
{
    if ts.len() > 0 {
        lemma_exclude_named_idempotent(ts.last(), names);
        lemma_exclude_named_seq_fixed(ts.drop_last(), names);
    }
}

/// Every field type that survives exclusion is a fixed point of
/// `exclude_named`.
proof fn lemma_exclude_named_rows_fixed(rows: Seq<(Seq<char>, RowV)>, names: Seq<Seq<char>>)
    ensures
        forall|i: int|
            0 <= i < exclude_named_rows(rows, names).len() ==> #[trigger] exclude_named(
                exclude_named_rows(rows, names)[i].1.ttype,
                names,
            ) == Some(exclude_named_rows(rows, names)[i].1.ttype),
    decreases rows,
{
    if rows.len() > 0 {
        lemma_exclude_named_idempotent(rows.last().1.ttype, names);
        lemma_exclude_named_rows_fixed(rows.drop_last(), names);
        let r0 = exclude_named_rows(rows.drop_last(), names);
        let r = exclude_named_rows(rows, names);
        assert forall|i: int|
            0 <= i < r.len() implies #[trigger] exclude_named(r[i].1.ttype, names) == Some(
            r[i].1.ttype,
        ) by {
            if i < r0.len() {
                assert(r[i] == r0[i]);
                assert(exclude_named(r0[i].1.ttype, names) == Some(r0[i].1.ttype));
            } else {
                match exclude_named(rows.last().1.ttype, names) {
                    Some(u) => {
                        assert(r[i] == (
                            rows.last().0,
                            RowV { required: rows.last().1.required, ttype: u },
                        ));
                    },
                    None => {},
                }
            }
        };
    }
}

/// Exclusion keeps a member list unchanged when every member is a fixed
/// point.
proof fn lemma_exclude_named_seq_of_fixed(ts: Seq<TypeV>, names: Seq<Seq<char>>)
    requires
        forall|i: int|
            0 <= i < ts.len() ==> #[trigger] exclude_named(ts[i], names) == Some(ts[i]),
    ensures
        exclude_named_seq(ts, names) == ts,
    decreases ts,
{
    if ts.len() == 0 {
        assert(exclude_named_seq(ts, names) =~= ts);
    } else {
        assert(exclude_named(ts.last(), names) == Some(ts.last()));
        assert(forall|i: int|
            0 <= i < ts.drop_last().len() ==> #[trigger] exclude_named(ts.drop_last()[i], names)
                == Some(ts.drop_last()[i]));
        lemma_exclude_named_seq_of_fixed(ts.drop_last(), names);
        assert(exclude_named_seq(ts, names) =~= ts);
    }
}

/// Exclusion keeps a field list unchanged when every field's type is a fixed
/// point.
proof fn lemma_exclude_named_rows_of_fixed(rows: Seq<(Seq<char>, RowV)>, names: Seq<Seq<char>>)
    requires
        forall|i: int|
            0 <= i < rows.len() ==> #[trigger] exclude_named(rows[i].1.ttype, names) == Some(
                rows[i].1.ttype,
            ),
    ensures
        exclude_named_rows(rows, names) == rows,
    decreases rows,
{
    if rows.len() == 0 {
        assert(exclude_named_rows(rows, names) =~= rows);
    } else {
        assert(exclude_named(rows.last().1.ttype, names) == Some(rows.last().1.ttype));
        assert forall|i: int|
            0 <= i < rows.drop_last().len() implies #[trigger] exclude_named(
            rows.drop_last()[i].1.ttype,
            names,
        ) == Some(rows.drop_last()[i].1.ttype) by {
            assert(rows.drop_last()[i] == rows[i]);
        };
        lemma_exclude_named_rows_of_fixed(rows.drop_last(), names);
        assert(rows.last() == (rows.last().0, RowV {
            required: rows.last().1.required,
            ttype: rows.last().1.ttype,
        }));
        assert(exclude_named_rows(rows, names) =~= rows);
    }
}

/// Pruning an optional type: `None` stays `None`.
pub open spec fn opt_prune(o: Option<TypeV>) -> Option<TypeV> {
    match o {
        Some(t) => prune_empty(t),
        None => None,
    }
}

/// Excluding names from an optional type: `None` stays `None`.
pub open spec fn opt_exclude(o: Option<TypeV>, names: Seq<Seq<char>>) -> Option<TypeV> {
    match o {
        Some(t) => exclude_named(t, names),
        None => None,
    }
}

/// The two filters are order-independent: excluding names and then pruning
/// empty structure yields the same type as pruning first and excluding
/// afterwards.
pub proof fn lemma_filters_commute(t: TypeV, names: Seq<Seq<char>>)
    ensures
        opt_prune(exclude_named(t, names)) == opt_exclude(prune_empty(t), names),
    decreases t,
{
    match t {
        TypeV::Array(b) => {
            lemma_filters_commute(*b, names);
        },
        TypeV::Product(ts) => {
            lemma_filters_commute_seq(ts, names);
            let e = exclude_named_seq(ts, names);
            let q = prune_empty_seq(ts);
            let c = prune_empty_seq(e);
            assert(exclude_named_seq(q, names) == c);
            if !(ts.len() > 0 && e.len() == 0) {
                assert(prune_empty(TypeV::Product(e)) == (if c.len() == 0 {
                    None::<TypeV>
                } else {
                    Some(TypeV::Product(c))
                }));
            }
            if q.len() > 0 {
                assert(exclude_named(TypeV::Product(q), names) == (if c.len() == 0 {
                    None::<TypeV>
                } else {
                    Some(TypeV::Product(c))
                }));
            }
            if ts.len() > 0 && e.len() == 0 {
                lemma_prune_empty_seq_of_no_members(e);
            }
            if q.len() == 0 {
                lemma_exclude_named_seq_of_no_members(q, names);
            }
        },
        TypeV::Sum(ts) => {
            lemma_filters_commute_seq(ts, names);
            let e = exclude_named_seq(ts, names);
            let q = prune_empty_seq(ts);
            let c = prune_empty_seq(e);
            assert(exclude_named_seq(q, names) == c);
            if !(ts.len() > 0 && e.len() == 0) {
                assert(prune_empty(TypeV::Sum(e)) == (if c.len() == 0 {
                    None::<TypeV>
                } else {
                    Some(TypeV::Sum(c))
                }));
            }
            if q.len() > 0 {
                assert(exclude_named(TypeV::Sum(q), names) == (if c.len() == 0 {
                    None::<TypeV>
                } else {
                    Some(TypeV::Sum(c))
                }));
            }
            if ts.len() > 0 && e.len() == 0 {
                lemma_prune_empty_seq_of_no_members(e);
            }
            if q.len() == 0 {
                lemma_exclude_named_seq_of_no_members(q, names);
            }
        },
        TypeV::Typename(n) => {},
        TypeV::AnonymousObject(rows) => {
            lemma_filters_commute_rows(rows, names);
            let e = exclude_named_rows(rows, names);
            let q = prune_empty_rows(rows);
            let c = prune_empty_rows(e);
            assert(exclude_named_rows(q, names) == c);
            if !(rows.len() > 0 && e.len() == 0) {
                assert(prune_empty(TypeV::AnonymousObject(e)) == (if c.len() == 0 {
                    None::<TypeV>
                } else {
                    Some(TypeV::AnonymousObject(c))
                }));
            }
            if q.len() > 0 {
                assert(exclude_named(TypeV::AnonymousObject(q), names) == (if c.len() == 0 {
                    None::<TypeV>
                } else {
                    Some(TypeV::AnonymousObject(c))
                }));
            }
            if rows.len() > 0 && e.len() == 0 {
                lemma_prune_empty_rows_of_no_fields(e);
            }
            if q.len() == 0 {
                lemma_exclude_named_rows_of_no_fields(q, names);
            }
        },
        TypeV::Value(v) => {},
    }
}

/// Pruning an empty member list yields the empty list.
proof fn lemma_prune_empty_seq_of_no_members(ts: Seq<TypeV>)
    requires
        ts.len() == 0,
    ensures
        prune_empty_seq(ts).len() == 0,
{
}

/// Excluding from an empty member list yields the empty list.
proof fn lemma_exclude_named_seq_of_no_members(ts: Seq<TypeV>, names: Seq<Seq<char>>)
    requires
        ts.len() == 0,
    ensures
        exclude_named_seq(ts, names).len() == 0,
{
}

/// Pruning an empty field list yields the empty list.
proof fn lemma_prune_empty_rows_of_no_fields(rows: Seq<(Seq<char>, RowV)>)
    requires
        rows.len() == 0,
    ensures
        prune_empty_rows(rows).len() == 0,
{
}

/// Excluding from an empty field list yields the empty list.
proof fn lemma_exclude_named_rows_of_no_fields(rows: Seq<(Seq<char>, RowV)>, names: Seq<Seq<char>>)
    requires
        rows.len() == 0,
    ensures
        exclude_named_rows(rows, names).len() == 0,
{
}

/// Order-independence over a member list: pruning what exclusion left
/// equals excluding from what pruning left.
proof fn lemma_filters_commute_seq(ts: Seq<TypeV>, names: Seq<Seq<char>>)
    ensures
        prune_empty_seq(exclude_named_seq(ts, names)) == exclude_named_seq(
            prune_empty_seq(ts),
            names,
        ),
    decreases ts,
{
    if ts.len() == 0 {
        assert(prune_empty_seq(exclude_named_seq(ts, names)) =~= exclude_named_seq(
            prune_empty_seq(ts),
            names,
        ));
    } else {
        let x = ts.last();
        lemma_filters_commute_seq(ts.drop_last(), names);
        lemma_filters_commute(x, names);
        let e0 = exclude_named_seq(ts.drop_last(), names);
        let q0 = prune_empty_seq(ts.drop_last());
        lemma_prune_seq_snoc(e0, exclude_named(x, names));
        lemma_exclude_seq_snoc(q0, prune_empty(x), names);
    }
}

/// Appending one optional member distributes over pruning.
proof fn lemma_prune_seq_snoc(s: Seq<TypeV>, o: Option<TypeV>)
    ensures
        prune_empty_seq(s + opt_as_seq(o)) == prune_empty_seq(s) + opt_as_seq(opt_prune(o)),
    decreases s.len(),
{
    match o {
        Some(u) => {
            assert((s + opt_as_seq(o)).drop_last() =~= s);
            assert((s + opt_as_seq(o)).last() == u);
        },
        None => {
            assert(s + opt_as_seq(o) =~= s);
            assert(prune_empty_seq(s) + opt_as_seq(opt_prune(o)) =~= prune_empty_seq(s));
        },
    }
}

/// Appending one optional member distributes over exclusion.
proof fn lemma_exclude_seq_snoc(s: Seq<TypeV>, o: Option<TypeV>, names: Seq<Seq<char>>)
    ensures
        exclude_named_seq(s + opt_as_seq(o), names) == exclude_named_seq(s, names) + opt_as_seq(
            opt_exclude(o, names),
        ),
    decreases s.len(),
{
    match o {
        Some(u) => {
            assert((s + opt_as_seq(o)).drop_last() =~= s);
            assert((s + opt_as_seq(o)).last() == u);
        },
        None => {
            assert(s + opt_as_seq(o) =~= s);
            assert(exclude_named_seq(s, names) + opt_as_seq(opt_exclude(o, names))
                =~= exclude_named_seq(s, names));
        },
    }
}

/// Order-independence over a field list: the surviving field set is the
/// same whichever filter runs first.
proof fn lemma_filters_commute_rows(rows: Seq<(Seq<char>, RowV)>, names: Seq<Seq<char>>)
    ensures
        prune_empty_rows(exclude_named_rows(rows, names)) == exclude_named_rows(
            prune_empty_rows(rows),
            names,
        ),
    decreases rows,
{
    if rows.len() == 0 {
        assert(prune_empty_rows(exclude_named_rows(rows, names)) =~= exclude_named_rows(
            prune_empty_rows(rows),
            names,
        ));
    } else {
        let x = rows.last();
        lemma_filters_commute_rows(rows.drop_last(), names);
        lemma_filters_commute(x.1.ttype, names);
        let e0 = exclude_named_rows(rows.drop_last(), names);
        let q0 = prune_empty_rows(rows.drop_last());
        lemma_prune_rows_snoc(e0, x.0, x.1.required, exclude_named(x.1.ttype, names));
        lemma_exclude_rows_snoc(q0, x.0, x.1.required, prune_empty(x.1.ttype), names);
    }
}

/// Appending one optional field distributes over pruning.
proof fn lemma_prune_rows_snoc(
    s: Seq<(Seq<char>, RowV)>,
    name: Seq<char>,
    required: bool,
    o: Option<TypeV>,
)
    ensures
        prune_empty_rows(s + opt_as_row_seq(name, required, o)) == prune_empty_rows(s)
            + opt_as_row_seq(name, required, opt_prune(o)),
    decreases s.len(),
{
    match o {
        Some(u) => {
            assert((s + opt_as_row_seq(name, required, o)).drop_last() =~= s);
            assert((s + opt_as_row_seq(name, required, o)).last() == (
                name,
                RowV { required, ttype: u },
            ));
        },
        None => {
            assert(s + opt_as_row_seq(name, required, o) =~= s);
            assert(prune_empty_rows(s) + opt_as_row_seq(name, required, opt_prune(o))
                =~= prune_empty_rows(s));
        },
    }
}

/// Appending one optional field distributes over exclusion.
proof fn lemma_exclude_rows_snoc(
    s: Seq<(Seq<char>, RowV)>,
    name: Seq<char>,
    required: bool,
    o: Option<TypeV>,
    names: Seq<Seq<char>>,
)
    ensures
        exclude_named_rows(s + opt_as_row_seq(name, required, o), names) == exclude_named_rows(
            s,
            names,
        ) + opt_as_row_seq(name, required, opt_exclude(o, names)),
    decreases s.len(),
{
    match o {
        Some(u) => {
            assert((s + opt_as_row_seq(name, required, o)).drop_last() =~= s);
            assert((s + opt_as_row_seq(name, required, o)).last() == (
                name,
                RowV { required, ttype: u },
            ));
        },
        None => {
            assert(s + opt_as_row_seq(name, required, o) =~= s);
            assert(exclude_named_rows(s, names) + opt_as_row_seq(
                name,
                required,
                opt_exclude(o, names),
            ) =~= exclude_named_rows(s, names));
        },
    }
}

/// The field names of a record are pairwise distinct.
pub open spec fn distinct_row_names(rows: Seq<(Seq<char>, RowV)>) -> bool {
    forall|i: int, j: int| 0 <= i < j < rows.len() ==> rows[i].0 != rows[j].0
}

/// Well-formedness of a structural type: every inline record in the tree
/// keeps its field names pairwise distinct, as a name-keyed mapping asks.
pub open spec fn wf_type(t: TypeV) -> bool
    decreases t,
{
    match t {
        TypeV::Array(b) => wf_type(*b),
        TypeV::Product(ts) => forall|i: int| 0 <= i < ts.len() ==> wf_type(#[trigger] ts[i]),
        TypeV::Sum(ts) => forall|i: int| 0 <= i < ts.len() ==> wf_type(#[trigger] ts[i]),
        TypeV::Typename(n) => true,
        TypeV::AnonymousObject(rows) => distinct_row_names(rows) && (forall|i: int|
            0 <= i < rows.len() ==> wf_type(#[trigger] rows[i].1.ttype)),
        TypeV::Value(v) => true,
    }
}

/// Every member that survives pruning is the pruned form of some member of
/// the original list.
proof fn lemma_prune_seq_member(ts: Seq<TypeV>, k: int)
    requires
        0 <= k < prune_empty_seq(ts).len(),
    ensures
        exists|i: int|
            0 <= i < ts.len() && #[trigger] prune_empty(ts[i]) == Some(prune_empty_seq(ts)[k]),
    decreases ts,
{
    let r = prune_empty_seq(ts);
    let r0 = prune_empty_seq(ts.drop_last());
    if k < r0.len() {
        lemma_prune_seq_member(ts.drop_last(), k);
        let i = choose|i: int|
            0 <= i < ts.drop_last().len() && #[trigger] prune_empty(ts.drop_last()[i]) == Some(
                r0[k],
            );
        assert(ts[i] == ts.drop_last()[i]);
        assert(r[k] == r0[k]);
        assert(prune_empty(ts[i]) == Some(r[k]));
    } else {
        assert(prune_empty(ts.last()) == Some(r[k]));
        assert(ts[ts.len() - 1] == ts.last());
    }
}

/// Every field that survives pruning keeps its name and required mark, and
/// its type is the pruned form of the matching original field's type.
proof fn lemma_prune_rows_member(rows: Seq<(Seq<char>, RowV)>, k: int)
    requires
        0 <= k < prune_empty_rows(rows).len(),
    ensures
        exists|i: int|
            0 <= i < rows.len() && #[trigger] rows[i].0 == prune_empty_rows(rows)[k].0
                && rows[i].1.required == prune_empty_rows(rows)[k].1.required && prune_empty(
                rows[i].1.ttype,
            ) == Some(prune_empty_rows(rows)[k].1.ttype),
    decreases rows,
{
    let r = prune_empty_rows(rows);
    let r0 = prune_empty_rows(rows.drop_last());
    if k < r0.len() {
        lemma_prune_rows_member(rows.drop_last(), k);
        let i = choose|i: int|
            0 <= i < rows.drop_last().len() && #[trigger] rows.drop_last()[i].0 == r0[k].0
                && rows.drop_last()[i].1.required == r0[k].1.required && prune_empty(
                rows.drop_last()[i].1.ttype,
            ) == Some(r0[k].1.ttype);
        assert(rows[i] == rows.drop_last()[i]);
        assert(r[k] == r0[k]);
        assert(rows[i].0 == r[k].0 && rows[i].1.required == r[k].1.required && prune_empty(
            rows[i].1.ttype,
        ) == Some(r[k].1.ttype));
    } else {
        match prune_empty(rows.last().1.ttype) {
            Some(u) => {
                assert(r[k] == (
                    rows.last().0,
                    RowV { required: rows.last().1.required, ttype: u },
                ));
                let i = rows.len() - 1;
                assert(rows[i].0 == r[k].0 && rows[i].1.required == r[k].1.required
                    && prune_empty(rows[i].1.ttype) == Some(r[k].1.ttype));
            },
            None => {},
        }
    }
}

/// Every member that survives exclusion is the excluded form of some member
/// of the original list.
proof fn lemma_exclude_seq_member(ts: Seq<TypeV>, names: Seq<Seq<char>>, k: int)
    requires
        0 <= k < exclude_named_seq(ts, names).len(),
    ensures
        exists|i: int|
            0 <= i < ts.len() && #[trigger] exclude_named(ts[i], names) == Some(
                exclude_named_seq(ts, names)[k],
            ),
    decreases ts,
{
    let r = exclude_named_seq(ts, names);
    let r0 = exclude_named_seq(ts.drop_last(), names);
    if k < r0.len() {
        lemma_exclude_seq_member(ts.drop_last(), names, k);
        let i = choose|i: int|
            0 <= i < ts.drop_last().len() && #[trigger] exclude_named(ts.drop_last()[i], names)
                == Some(r0[k]);
        assert(ts[i] == ts.drop_last()[i]);
        assert(r[k] == r0[k]);
        assert(exclude_named(ts[i], names) == Some(r[k]));
    } else {
        assert(exclude_named(ts.last(), names) == Some(r[k]));
        assert(ts[ts.len() - 1] == ts.last());
    }
}

/// Every field that survives exclusion keeps its name and required mark,
/// and its type is the excluded form of the matching original field's type.
proof fn lemma_exclude_rows_member(rows: Seq<(Seq<char>, RowV)>, names: Seq<Seq<char>>, k: int)
    requires
        0 <= k < exclude_named_rows(rows, names).len(),
    ensures
        exists|i: int|
            0 <= i < rows.len() && #[trigger] rows[i].0 == exclude_named_rows(rows, names)[k].0
                && rows[i].1.required == exclude_named_rows(rows, names)[k].1.required
                && exclude_named(rows[i].1.ttype, names) == Some(
                exclude_named_rows(rows, names)[k].1.ttype,
            ),
    decreases rows,
{
    let r = exclude_named_rows(rows, names);
    let r0 = exclude_named_rows(rows.drop_last(), names);
    if k < r0.len() {
        lemma_exclude_rows_member(rows.drop_last(), names, k);
        let i = choose|i: int|
            0 <= i < rows.drop_last().len() && #[trigger] rows.drop_last()[i].0 == r0[k].0
                && rows.drop_last()[i].1.required == r0[k].1.required && exclude_named(
                rows.drop_last()[i].1.ttype,
                names,
            ) == Some(r0[k].1.ttype);
        assert(rows[i] == rows.drop_last()[i]);
        assert(r[k] == r0[k]);
        assert(rows[i].0 == r[k].0 && rows[i].1.required == r[k].1.required && exclude_named(
            rows[i].1.ttype,
            names,
        ) == Some(r[k].1.ttype));
    } else {
        match exclude_named(rows.last().1.ttype, names) {
            Some(u) => {
                assert(r[k] == (
                    rows.last().0,
                    RowV { required: rows.last().1.required, ttype: u },
                ));
                let i = rows.len() - 1;
                assert(rows[i].0 == r[k].0 && rows[i].1.required == r[k].1.required
                    && exclude_named(rows[i].1.ttype, names) == Some(r[k].1.ttype));
            },
            None => {},
        }
    }
}

/// Pruning keeps a type well formed: surviving records keep pairwise
/// distinct field names.
pub proof fn lemma_prune_empty_preserves_wf(t: TypeV)
    requires
        wf_type(t),
    ensures
        prune_empty(t) matches Some(u) ==> wf_type(u),
    decreases t,
{
    match t {
        TypeV::Array(b) => {
            lemma_prune_empty_preserves_wf(*b);
        },
        TypeV::Product(ts) => {
            let r = prune_empty_seq(ts);
            assert forall|k: int| 0 <= k < r.len() implies wf_type(#[trigger] r[k]) by {
                lemma_prune_seq_member(ts, k);
                let i = choose|i: int|
                    0 <= i < ts.len() && #[trigger] prune_empty(ts[i]) == Some(r[k]);
                lemma_prune_empty_preserves_wf(ts[i]);
            };
        },
        TypeV::Sum(ts) => {
            let r = prune_empty_seq(ts);
            assert forall|k: int| 0 <= k < r.len() implies wf_type(#[trigger] r[k]) by {
                lemma_prune_seq_member(ts, k);
                let i = choose|i: int|
                    0 <= i < ts.len() && #[trigger] prune_empty(ts[i]) == Some(r[k]);
                lemma_prune_empty_preserves_wf(ts[i]);
            };
        },
        TypeV::Typename(n) => {},
        TypeV::AnonymousObject(rows) => {
            let r = prune_empty_rows(rows);
            assert forall|k: int|
                0 <= k < r.len() implies wf_type(#[trigger] r[k].1.ttype) by {
                lemma_prune_rows_member(rows, k);
                let i = choose|i: int|
                    0 <= i < rows.len() && #[trigger] rows[i].0 == r[k].0 && rows[i].1.required
                        == r[k].1.required && prune_empty(rows[i].1.ttype) == Some(r[k].1.ttype);
                lemma_prune_empty_preserves_wf(rows[i].1.ttype);
            };
            assert forall|k: int, l: int| 0 <= k < l < r.len() implies r[k].0 != r[l].0 by {
                lemma_prune_rows_indices_ordered(rows, k, l);
            };
        },
        TypeV::Value(v) => {},
    }
}

/// Exclusion keeps a type well formed: surviving records keep pairwise
/// distinct field names.
pub proof fn lemma_exclude_named_preserves_wf(t: TypeV, names: Seq<Seq<char>>)
    requires
        wf_type(t),
    ensures
        exclude_named(t, names) matches Some(u) ==> wf_type(u),
    decreases t,
{
    match t {
        TypeV::Array(b) => {
            lemma_exclude_named_preserves_wf(*b, names);
        },
        TypeV::Product(ts) => {
            let r = exclude_named_seq(ts, names);
            assert forall|k: int| 0 <= k < r.len() implies wf_type(#[trigger] r[k]) by {
                lemma_exclude_seq_member(ts, names, k);
                let i = choose|i: int|
                    0 <= i < ts.len() && #[trigger] exclude_named(ts[i], names) == Some(r[k]);
                lemma_exclude_named_preserves_wf(ts[i], names);
            };
        },
        TypeV::Sum(ts) => {
            let r = exclude_named_seq(ts, names);
            assert forall|k: int| 0 <= k < r.len() implies wf_type(#[trigger] r[k]) by {
                lemma_exclude_seq_member(ts, names, k);
                let i = choose|i: int|
                    0 <= i < ts.len() && #[trigger] exclude_named(ts[i], names) == Some(r[k]);
                lemma_exclude_named_preserves_wf(ts[i], names);
            };
        },
        TypeV::Typename(n) => {},
        TypeV::AnonymousObject(rows) => {
            let r = exclude_named_rows(rows, names);
            assert forall|k: int|
                0 <= k < r.len() implies wf_type(#[trigger] r[k].1.ttype) by {
                lemma_exclude_rows_member(rows, names, k);
                let i = choose|i: int|
                    0 <= i < rows.len() && #[trigger] rows[i].0 == r[k].0 && rows[i].1.required
                        == r[k].1.required && exclude_named(rows[i].1.ttype, names) == Some(
                        r[k].1.ttype,
                    );
                lemma_exclude_named_preserves_wf(rows[i].1.ttype, names);
            };
            assert forall|k: int, l: int| 0 <= k < l < r.len() implies r[k].0 != r[l].0 by {
                lemma_exclude_rows_indices_ordered(rows, names, k, l);
            };
        },
        TypeV::Value(v) => {},
    }
}

/// Two surviving fields in order come from two original fields in order,
/// so under distinct original names their names differ.
proof fn lemma_prune_rows_indices_ordered(rows: Seq<(Seq<char>, RowV)>, k: int, l: int)
    requires
        distinct_row_names(rows),
        0 <= k < l < prune_empty_rows(rows).len(),
    ensures
        prune_empty_rows(rows)[k].0 != prune_empty_rows(rows)[l].0,
    decreases rows,
{
    let r = prune_empty_rows(rows);
    let r0 = prune_empty_rows(rows.drop_last());
    if l < r0.len() {
        assert forall|i: int, j: int|
            0 <= i < j < rows.drop_last().len() implies rows.drop_last()[i].0
            != rows.drop_last()[j].0 by {
            assert(rows[i].0 != rows[j].0);
        };
        lemma_prune_rows_indices_ordered(rows.drop_last(), k, l);
        assert(r[k] == r0[k]);
        assert(r[l] == r0[l]);
    } else {
        assert(r[k] == r0[k]);
        lemma_prune_rows_member(rows.drop_last(), k);
        let i = choose|i: int|
            0 <= i < rows.drop_last().len() && #[trigger] rows.drop_last()[i].0 == r0[k].0
                && rows.drop_last()[i].1.required == r0[k].1.required && prune_empty(
                rows.drop_last()[i].1.ttype,
            ) == Some(r0[k].1.ttype);
        match prune_empty(rows.last().1.ttype) {
            Some(u) => {
                assert(r[l] == (
                    rows.last().0,
                    RowV { required: rows.last().1.required, ttype: u },
                ));
                assert(rows[i].0 != rows[rows.len() - 1].0);
            },
            None => {},
        }
    }
}

/// Two surviving fields in order come from two original fields in order,
/// so under distinct original names their names differ.
proof fn lemma_exclude_rows_indices_ordered(
    rows: Seq<(Seq<char>, RowV)>,
    names: Seq<Seq<char>>,
    k: int,
    l: int,
)
    requires
        distinct_row_names(rows),
        0 <= k < l < exclude_named_rows(rows, names).len(),
    ensures
        exclude_named_rows(rows, names)[k].0 != exclude_named_rows(rows, names)[l].0,
    decreases rows,
{
    let r = exclude_named_rows(rows, names);
    let r0 = exclude_named_rows(rows.drop_last(), names);
    if l < r0.len() {
        assert forall|i: int, j: int|
            0 <= i < j < rows.drop_last().len() implies rows.drop_last()[i].0
            != rows.drop_last()[j].0 by {
            assert(rows[i].0 != rows[j].0);
        };
        lemma_exclude_rows_indices_ordered(rows.drop_last(), names, k, l);
        assert(r[k] == r0[k]);
        assert(r[l] == r0[l]);
    } else {
        assert(r[k] == r0[k]);
        lemma_exclude_rows_member(rows.drop_last(), names, k);
        let i = choose|i: int|
            0 <= i < rows.drop_last().len() && #[trigger] rows.drop_last()[i].0 == r0[k].0
                && rows.drop_last()[i].1.required == r0[k].1.required && exclude_named(
                rows.drop_last()[i].1.ttype,
                names,
            ) == Some(r0[k].1.ttype);
        match exclude_named(rows.last().1.ttype, names) {
            Some(u) => {
                assert(r[l] == (
                    rows.last().0,
                    RowV { required: rows.last().1.required, ttype: u },
                ));
                assert(rows[i].0 != rows[rows.len() - 1].0);
            },
            None => {},
        }
    }
}

/// An empty record, an empty sum and an empty product all prune away
/// entirely.
pub proof fn lemma_prune_empty_of_empty(t: TypeV)
    ensures
        t == TypeV::AnonymousObject(Seq::<(Seq<char>, RowV)>::empty()) ==> prune_empty(t)
            == None::<TypeV>,
        t == TypeV::Sum(Seq::<TypeV>::empty()) ==> prune_empty(t) == None::<TypeV>,
        t == TypeV::Product(Seq::<TypeV>::empty()) ==> prune_empty(t) == None::<TypeV>,
{
    if t == TypeV::AnonymousObject(Seq::<(Seq<char>, RowV)>::empty()) {
        assert(prune_empty_rows(Seq::<(Seq<char>, RowV)>::empty()).len() == 0);
        assert(prune_empty(t) == None::<TypeV>);
    }
    if t == TypeV::Sum(Seq::<TypeV>::empty()) {
        assert(prune_empty_seq(Seq::<TypeV>::empty()).len() == 0);
        assert(prune_empty(t) == None::<TypeV>);
    }
    if t == TypeV::Product(Seq::<TypeV>::empty()) {
        assert(prune_empty_seq(Seq::<TypeV>::empty()).len() == 0);
        assert(prune_empty(t) == None::<TypeV>);
    }
}

/// Rendering a literal keeps its category: a string literal renders
/// single-quoted, a boolean as `true` or `false`, null as `null`, and a
/// number as its own digits.
pub proof fn lemma_render_literal_category(v: ValueV)
    ensures
        v matches ValueV::Str(s) ==> render_value(v) == "'"@ + s + "'"@
            && render_value(v).len() == s.len() + 2 && render_value(v).first() == '\''
            && render_value(v).last() == '\'',
        v matches ValueV::Bool(b) ==> render_value(v) == if b {
            "true"@
        } else {
            "false"@
        },
        v is Null ==> render_value(v) == "null"@,
        v matches ValueV::Num(n) ==> render_value(v) == n,
{
    match v {
        ValueV::Str(s) => {
            reveal_strlit("'");
            assert(render_value(v).len() == s.len() + 2);
            assert(render_value(v).first() == '\'');
            assert(render_value(v).last() == '\'');
        },
        _ => {},
    }
}

} // verus!
