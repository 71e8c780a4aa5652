//! The raw schema vocabulary, lifted from a generic JSON tree into a
//! typed form. Only the keywords the compiler acts on are kept; unknown
//! members are ignored, but every kept member must have the shape the
//! vocabulary asks for, or the whole document is rejected.

use vstd::prelude::*;
use crate::json::{Json, JsonV};
use crate::text::str_eq;

verus! {

/// The value of the `type` keyword.
#[derive(Debug, PartialEq, Eq, Clone, Copy)]
pub enum Types {
    Null,
    Boolean,
    Integer,
    Number,
    String,
    Array,
    Object,
}

/// One schema document or subschema, decoded keyword by keyword.
pub struct Schema {
    pub ref_: Option<String>,
    pub title: Option<String>,
    pub type_: Option<Types>,
    pub enum_: Option<Vec<Json>>,
    pub required: Option<Vec<String>>,
    pub constant: Option<Json>,
    pub properties: Vec<(String, Schema)>,
    pub pattern_properties: Vec<(String, Schema)>,
    pub items: Option<Box<Schema>>,
    pub definitions: Vec<(String, Schema)>,
    pub defs: Vec<(String, Schema)>,
    pub one_of: Vec<Schema>,
    pub any_of: Vec<Schema>,
    pub all_of: Vec<Schema>,
}

/// The mathematical shape of a [`Schema`].
#[verifier::ext_equal]
pub struct SchemaV {
    pub ref_: Option<Seq<char>>,
    pub title: Option<Seq<char>>,
    pub type_: Option<Types>,
    pub enum_: Option<Seq<JsonV>>,
    pub required: Option<Seq<Seq<char>>>,
    pub constant: Option<JsonV>,
    pub properties: Seq<(Seq<char>, SchemaV)>,
    pub pattern_properties: Seq<(Seq<char>, SchemaV)>,
    pub items: Option<Box<SchemaV>>,
    pub definitions: Seq<(Seq<char>, SchemaV)>,
    pub defs: Seq<(Seq<char>, SchemaV)>,
    pub one_of: Seq<SchemaV>,
    pub any_of: Seq<SchemaV>,
    pub all_of: Seq<SchemaV>,
}

/// View of an association list of subschemas.
pub open spec fn schema_pairs_v(m: Seq<(String, Schema)>) -> Seq<(Seq<char>, SchemaV)>
    decreases m,
{
    Seq::new(
        m.len(),
        |i: int| if 0 <= i < m.len() {
            (m[i].0@, m[i].1.dv())
        } else {
            (Seq::empty(), empty_schema_v())
        },
    )
}

/// View of a list of subschemas.
pub open spec fn schema_list_v(a: Seq<Schema>) -> Seq<SchemaV>
    decreases a,
{
    Seq::new(
        a.len(),
        |i: int| if 0 <= i < a.len() {
            a[i].dv()
        } else {
            empty_schema_v()
        },
    )
}

impl Schema {
    /// The schema as its mathematical shape.
    pub open spec fn dv(self) -> SchemaV
        decreases self,
    {
        SchemaV {
            ref_: match self.ref_ {
                Some(s) => Some(s@),
                None => None,
            },
            title: match self.title {
                Some(s) => Some(s@),
                None => None,
            },
            type_: self.type_,
            enum_: match self.enum_ {
                Some(v) => Some(crate::json::jsons_v(v@)),
                None => None,
            },
            required: match self.required {
                Some(v) => Some(strings_v(v@)),
                None => None,
            },
            constant: match self.constant {
                Some(j) => Some(j.dv()),
                None => None,
            },
            properties: schema_pairs_v(self.properties@),
            pattern_properties: schema_pairs_v(self.pattern_properties@),
            items: match self.items {
                Some(b) => Some(Box::new((*b).dv())),
                None => None,
            },
            definitions: schema_pairs_v(self.definitions@),
            defs: schema_pairs_v(self.defs@),
            one_of: schema_list_v(self.one_of@),
            any_of: schema_list_v(self.any_of@),
            all_of: schema_list_v(self.all_of@),
        }
    }

    /// A schema with every keyword absent.
    pub fn empty() -> (s: Schema)
        ensures
            s.dv() == empty_schema_v(),
    {
        let s = Schema {
            ref_: None,
            title: None,
            type_: None,
            enum_: None,
            required: None,
            constant: None,
            properties: Vec::new(),
            pattern_properties: Vec::new(),
            items: None,
            definitions: Vec::new(),
            defs: Vec::new(),
            one_of: Vec::new(),
            any_of: Vec::new(),
            all_of: Vec::new(),
        };
        proof {
            assert(schema_pairs_v(s.properties@).len() == 0);
            assert(schema_list_v(s.one_of@).len() == 0);
            assert(s.dv().properties =~= empty_schema_v().properties);
            assert(s.dv().pattern_properties =~= empty_schema_v().pattern_properties);
            assert(s.dv().definitions =~= empty_schema_v().definitions);
            assert(s.dv().defs =~= empty_schema_v().defs);
            assert(s.dv().one_of =~= empty_schema_v().one_of);
            assert(s.dv().any_of =~= empty_schema_v().any_of);
            assert(s.dv().all_of =~= empty_schema_v().all_of);
        }
        s
    }
}

/// The shape with every keyword absent.
pub open spec fn empty_schema_v() -> SchemaV {
    SchemaV {
        ref_: None,
        title: None,
        type_: None,
        enum_: None,
        required: None,
        constant: None,
        properties: Seq::empty(),
        pattern_properties: Seq::empty(),
        items: None,
        definitions: Seq::empty(),
        defs: Seq::empty(),
        one_of: Seq::empty(),
        any_of: Seq::empty(),
        all_of: Seq::empty(),
    }
}

/// Reading the `type` keyword's string.
pub open spec fn types_of_str(s: Seq<char>) -> Option<Types> {
    if s == "null"@ {
        Some(Types::Null)
    } else if s == "boolean"@ {
        Some(Types::Boolean)
    } else if s == "integer"@ {
        Some(Types::Integer)
    } else if s == "number"@ {
        Some(Types::Number)
    } else if s == "string"@ {
        Some(Types::String)
    } else if s == "array"@ {
        Some(Types::Array)
    } else if s == "object"@ {
        Some(Types::Object)
    } else {
        None
    }
}

/// Every element must be a string.
pub open spec fn strings_of(a: Seq<JsonV>) -> Option<Seq<Seq<char>>>
    decreases a.len(),
{
    if a.len() == 0 {
        Some(Seq::empty())
    } else {
        match a[0] {
            JsonV::Str(s) => match strings_of(a.subrange(1, a.len() as int)) {
                Some(rest) => Some(seq![s] + rest),
                None => None,
            },
            _ => None,
        }
    }
}

/// Decoding one whole schema document from a JSON value: an object whose
/// known members all carry well-shaped values, folded member by member
/// over the empty schema; any other value is rejected.
pub open spec fn schema_of_json(j: JsonV) -> Option<SchemaV>
    decreases j, 0int,
{
    match j {
        JsonV::Obj(m) => fold_members(m, empty_schema_v()),
        _ => None,
    }
}

/// Folds the members of a schema object left to right; a later member
/// under the same name overrides an earlier one.
pub open spec fn fold_members(m: Seq<(Seq<char>, JsonV)>, acc: SchemaV) -> Option<SchemaV>
    decreases m, 2int,
{
    if m.len() == 0 {
        Some(acc)
    } else {
        match apply_member(acc, m[0].0, m[0].1) {
            Some(acc2) => fold_members(m.subrange(1, m.len() as int), acc2),
            None => None,
        }
    }
}

/// Decoding an object whose values are all subschemas.
pub open spec fn schema_map_of(m: Seq<(Seq<char>, JsonV)>) -> Option<Seq<(Seq<char>, SchemaV)>>
    decreases m, 2int,
{
    if m.len() == 0 {
        Some(Seq::empty())
    } else {
        match schema_of_json(m[0].1) {
            Some(s) => match schema_map_of(m.subrange(1, m.len() as int)) {
                Some(rest) => Some(seq![(m[0].0, s)] + rest),
                None => None,
            },
            None => None,
        }
    }
}

/// Decoding an array whose elements are all subschemas.
pub open spec fn schema_seq_of(a: Seq<JsonV>) -> Option<Seq<SchemaV>>
    decreases a, 2int,
{
    if a.len() == 0 {
        Some(Seq::empty())
    } else {
        match schema_of_json(a[0]) {
            Some(s) => match schema_seq_of(a.subrange(1, a.len() as int)) {
                Some(rest) => Some(seq![s] + rest),
                None => None,
            },
            None => None,
        }
    }
}

/// The effect of one member on the schema under construction. An unknown
/// member changes nothing; a known member must be well-shaped. A `null`
/// leaves an optional keyword absent, as a JSON decoder for optional
/// fields does.
pub open spec fn apply_member(acc: SchemaV, k: Seq<char>, v: JsonV) -> Option<SchemaV>
    decreases v, 1int,
{
    if k == "$ref"@ {
        match v {
            JsonV::Null => Some(SchemaV { ref_: None, ..acc }),
            JsonV::Str(s) => Some(SchemaV { ref_: Some(s), ..acc }),
            _ => None,
        }
    } else if k == "title"@ {
        match v {
            JsonV::Null => Some(SchemaV { title: None, ..acc }),
            JsonV::Str(s) => Some(SchemaV { title: Some(s), ..acc }),
            _ => None,
        }
    } else if k == "type"@ {
        match v {
            JsonV::Null => Some(SchemaV { type_: None, ..acc }),
            JsonV::Str(s) => match types_of_str(s) {
                Some(t) => Some(SchemaV { type_: Some(t), ..acc }),
                None => None,
            },
            _ => None,
        }
    } else if k == "enum"@ {
        match v {
            JsonV::Null => Some(SchemaV { enum_: None, ..acc }),
            JsonV::Arr(a) => Some(SchemaV { enum_: Some(a), ..acc }),
            _ => None,
        }
    } else if k == "required"@ {
        match v {
            JsonV::Null => Some(SchemaV { required: None, ..acc }),
            JsonV::Arr(a) => match strings_of(a) {
                Some(names) => Some(SchemaV { required: Some(names), ..acc }),
                None => None,
            },
            _ => None,
        }
    } else if k == "constant"@ {
        match v {
            JsonV::Null => Some(SchemaV { constant: None, ..acc }),
            _ => Some(SchemaV { constant: Some(v), ..acc }),
        }
    } else if k == "properties"@ {
        match v {
            JsonV::Obj(pm) => match schema_map_of(pm) {
                Some(ps) => Some(SchemaV { properties: ps, ..acc }),
                None => None,
            },
            _ => None,
        }
    } else if k == "patternProperties"@ {
        match v {
            JsonV::Obj(pm) => match schema_map_of(pm) {
                Some(ps) => Some(SchemaV { pattern_properties: ps, ..acc }),
                None => None,
            },
            _ => None,
        }
    } else if k == "items"@ {
        match v {
            JsonV::Null => Some(SchemaV { items: None, ..acc }),
            _ => match schema_of_json(v) {
                Some(s) => Some(SchemaV { items: Some(Box::new(s)), ..acc }),
                None => None,
            },
        }
    } else if k == "definitions"@ {
        match v {
            JsonV::Obj(pm) => match schema_map_of(pm) {
                Some(ps) => Some(SchemaV { definitions: ps, ..acc }),
                None => None,
            },
            _ => None,
        }
    } else if k == "$defs"@ {
        match v {
            JsonV::Obj(pm) => match schema_map_of(pm) {
                Some(ps) => Some(SchemaV { defs: ps, ..acc }),
                None => None,
            },
            _ => None,
        }
    } else if k == "oneOf"@ {
        match v {
            JsonV::Arr(a) => match schema_seq_of(a) {
                Some(ss) => Some(SchemaV { one_of: ss, ..acc }),
                None => None,
            },
            _ => None,
        }
    } else if k == "anyOf"@ {
        match v {
            JsonV::Arr(a) => match schema_seq_of(a) {
                Some(ss) => Some(SchemaV { any_of: ss, ..acc }),
                None => None,
            },
            _ => None,
        }
    } else if k == "allOf"@ {
        match v {
            JsonV::Arr(a) => match schema_seq_of(a) {
                Some(ss) => Some(SchemaV { all_of: ss, ..acc }),
                None => None,
            },
            _ => None,
        }
    } else {
        Some(acc)
    }
}


/// Reads the `type` keyword's string form.
pub fn types_from_str(s: &str) -> (r: Option<Types>)
    ensures
        r == types_of_str(s@),
{
    if str_eq(s, "null") {
        Some(Types::Null)
    } else if str_eq(s, "boolean") {
        Some(Types::Boolean)
    } else if str_eq(s, "integer") {
        Some(Types::Integer)
    } else if str_eq(s, "number") {
        Some(Types::Number)
    } else if str_eq(s, "string") {
        Some(Types::String)
    } else if str_eq(s, "array") {
        Some(Types::Array)
    } else if str_eq(s, "object") {
        Some(Types::Object)
    } else {
        None
    }
}

/// Copy of a list of JSON values, same shape.
fn clone_jsons(v: &Vec<Json>) -> (r: Vec<Json>)
    ensures
        crate::json::jsons_v(r@) == crate::json::jsons_v(v@),
{
    let mut out: Vec<Json> = Vec::new();
    let mut i: usize = 0;
    while i < v.len()
        invariant
            0 <= i <= v@.len(),
            out@.len() == i,
            forall|j: int| 0 <= j < i ==> #[trigger] out@[j].dv() == v@[j].dv(),
        decreases v@.len() - i,
    {
        out.push(v[i].clone());
        i = i + 1;
    }
    proof {
        assert(crate::json::jsons_v(out@) =~= crate::json::jsons_v(v@));
    }
    out
}

/// View of a list of strings.
pub open spec fn strings_v(v: Seq<String>) -> Seq<Seq<char>> {
    Seq::new(
        v.len(),
        |i: int| if 0 <= i < v.len() {
            v[i]@
        } else {
            Seq::empty()
        },
    )
}

/// Reads an array that must hold strings only.
fn decode_strings(a: &Vec<Json>) -> (r: Option<Vec<String>>)
    ensures
        match r {
            Some(out) => strings_of(crate::json::jsons_v(a@)) == Some(strings_v(out@)),
            None => strings_of(crate::json::jsons_v(a@)) is None,
        },
{
    let ghost av = crate::json::jsons_v(a@);
    proof {
        assert(av.subrange(0, av.len() as int) =~= av);
    }
    let mut out: Vec<String> = Vec::new();
    let mut i: usize = 0;
    while i < a.len()
        invariant
            0 <= i <= a@.len(),
            av == crate::json::jsons_v(a@),
            match strings_of(av.subrange(i as int, av.len() as int)) {
                Some(rest) => strings_of(av) == Some(strings_v(out@) + rest),
                None => strings_of(av) is None,
            },
        decreases av.len() - i,
    {
        let ghost tail = av.subrange(i as int, av.len() as int);
        proof {
            assert(tail.len() > 0);
            assert(tail[0] == a@[i as int].dv());
            assert(tail.subrange(1, tail.len() as int) =~= av.subrange(
                i as int + 1,
                av.len() as int,
            ));
        }
        match &a[i] {
            Json::Str(x) => {
                let ghost out0 = out@;
                out.push(x.clone());
                proof {
                    assert(strings_v(out@) =~= strings_v(out0).push(x@));
                    if strings_of(av.subrange(i as int + 1, av.len() as int)) is Some {
                        let rest2 = strings_of(av.subrange(i as int + 1, av.len() as int))->0;
                        assert(strings_of(tail) == Some(seq![x@] + rest2));
                        assert(strings_v(out0) + (seq![x@] + rest2) =~= strings_v(out@) + rest2);
                    }
                }
            },
            _ => {
                proof {
                    assert(strings_of(tail) is None);
                }
                return None;
            },
        }
        i = i + 1;
    }
    proof {
        assert(av.subrange(i as int, av.len() as int).len() == 0);
        assert(strings_v(out@) + Seq::<Seq<char>>::empty() =~= strings_v(out@));
    }
    Some(out)
}

/// Copy of a list of strings, same contents.
pub(crate) fn clone_strings(v: &Vec<String>) -> (r: Vec<String>)
    ensures
        strings_v(r@) == strings_v(v@),
{
    let mut out: Vec<String> = Vec::new();
    let mut i: usize = 0;
    while i < v.len()
        invariant
            0 <= i <= v@.len(),
            out@.len() == i,
            forall|j: int| 0 <= j < i ==> #[trigger] out@[j]@ == v@[j]@,
        decreases v@.len() - i,
    {
        out.push(v[i].clone());
        i = i + 1;
    }
    proof {
        assert(strings_v(out@) =~= strings_v(v@));
    }
    out
}

/// Decodes one schema document from a JSON value.
pub fn decode_schema(j: &Json) -> (r: Option<Schema>)
    ensures
        match r {
            Some(s) => schema_of_json(j.dv()) == Some(s.dv()),
            None => schema_of_json(j.dv()) is None,
        },
    decreases *j, 0int,
{
    match j {
        Json::Obj(m) => {
            let ghost mv = crate::json::json_pairs_v(m@);
            proof {
                crate::json::lemma_dv_lists(*j);
                assert(mv.subrange(0, mv.len() as int) =~= mv);
            }
            let mut acc = Schema::empty();
            let mut i: usize = 0;
            while i < m.len()
                invariant
                    0 <= i <= m@.len(),
                    *j == Json::Obj(*m),
                    mv == crate::json::json_pairs_v(m@),
                    schema_of_json(j.dv()) == fold_members(
                        mv.subrange(i as int, mv.len() as int),
                        acc.dv(),
                    ),
                decreases mv.len() - i,
            {
                let ghost tail = mv.subrange(i as int, mv.len() as int);
                proof {
                    assert(tail.len() > 0);
                    assert(tail[0] == (m@[i as int].0@, m@[i as int].1.dv()));
                    assert(tail.subrange(1, tail.len() as int) =~= mv.subrange(
                        i as int + 1,
                        mv.len() as int,
                    ));
                    assert(decreases_to!(*j => j->Obj_0));
                    assert(decreases_to!(j->Obj_0 => j->Obj_0@));
                    assert(decreases_to!(j->Obj_0@ => j->Obj_0@[i as int]));
                    assert(decreases_to!(j->Obj_0@[i as int] => j->Obj_0@[i as int].1));
                }
                match apply_field(acc, &m[i].0, &m[i].1) {
                    Some(acc2) => {
                        acc = acc2;
                    },
                    None => {
                        return None;
                    },
                }
                i = i + 1;
            }
            proof {
                assert(mv.subrange(i as int, mv.len() as int).len() == 0);
            }
            Some(acc)
        },
        _ => None,
    }
}

/// Applies one object member to the schema under construction.
fn apply_field(acc: Schema, k: &String, v: &Json) -> (r: Option<Schema>)
    ensures
        match r {
            Some(s2) => apply_member(acc.dv(), k@, v.dv()) == Some(s2.dv()),
            None => apply_member(acc.dv(), k@, v.dv()) is None,
        },
    decreases *v, 1int,
{
    let ghost a0 = acc;
    let ks = k.as_str();
    if str_eq(ks, "$ref") {
        match v {
            Json::Null => {
                let s2 = Schema { ref_: None, ..acc };
                proof {
                    assert(s2.dv() =~~= SchemaV { ref_: None, ..a0.dv() });
                }
                Some(s2)
            },
            Json::Str(x) => {
                let s2 = Schema { ref_: Some(x.clone()), ..acc };
                proof {
                    assert(s2.dv() =~~= SchemaV { ref_: Some(x@), ..a0.dv() });
                }
                Some(s2)
            },
            _ => None,
        }
    } else if str_eq(ks, "title") {
        match v {
            Json::Null => {
                let s2 = Schema { title: None, ..acc };
                proof {
                    assert(s2.dv() =~~= SchemaV { title: None, ..a0.dv() });
                }
                Some(s2)
            },
            Json::Str(x) => {
                let s2 = Schema { title: Some(x.clone()), ..acc };
                proof {
                    assert(s2.dv() =~~= SchemaV { title: Some(x@), ..a0.dv() });
                }
                Some(s2)
            },
            _ => None,
        }
    } else if str_eq(ks, "type") {
        match v {
            Json::Null => {
                let s2 = Schema { type_: None, ..acc };
                proof {
                    assert(s2.dv() =~~= SchemaV { type_: None, ..a0.dv() });
                }
                Some(s2)
            },
            Json::Str(x) => match types_from_str(x.as_str()) {
                Some(t) => {
                    let s2 = Schema { type_: Some(t), ..acc };
                    proof {
                        assert(s2.dv() =~~= SchemaV { type_: Some(t), ..a0.dv() });
                    }
                    Some(s2)
                },
                None => None,
            },
            _ => None,
        }
    } else if str_eq(ks, "enum") {
        match v {
            Json::Null => {
                let s2 = Schema { enum_: None, ..acc };
                proof {
                    assert(s2.dv() =~~= SchemaV { enum_: None, ..a0.dv() });
                }
                Some(s2)
            },
            Json::Arr(a) => {
                let cloned = clone_jsons(a);
                let s2 = Schema { enum_: Some(cloned), ..acc };
                proof {
                    crate::json::lemma_dv_lists(*v);
                    assert(s2.dv() =~~= SchemaV {
                        enum_: Some(crate::json::jsons_v(a@)),
                        ..a0.dv()
                    });
                }
                Some(s2)
            },
            _ => None,
        }
    } else if str_eq(ks, "required") {
        match v {
            Json::Null => {
                let s2 = Schema { required: None, ..acc };
                proof {
                    assert(s2.dv() =~~= SchemaV { required: None, ..a0.dv() });
                }
                Some(s2)
            },
            Json::Arr(a) => {
                proof {
                    crate::json::lemma_dv_lists(*v);
                }
                match decode_strings(a) {
                    Some(names) => {
                        let s2 = Schema { required: Some(names), ..acc };
                        proof {
                            assert(s2.dv() =~~= SchemaV {
                                required: Some(strings_v(s2.required->0@)),
                                ..a0.dv()
                            });
                        }
                        Some(s2)
                    },
                    None => None,
                }
            },
            _ => None,
        }
    } else if str_eq(ks, "constant") {
        match v {
            Json::Null => {
                let s2 = Schema { constant: None, ..acc };
                proof {
                    assert(s2.dv() =~~= SchemaV { constant: None, ..a0.dv() });
                }
                Some(s2)
            },
            _ => {
                let s2 = Schema { constant: Some(v.clone()), ..acc };
                proof {
                    assert(s2.dv() =~~= SchemaV { constant: Some(v.dv()), ..a0.dv() });
                }
                Some(s2)
            },
        }
    } else if str_eq(ks, "properties") {
        match v {
            Json::Obj(pm) => {
                proof {
                    crate::json::lemma_dv_lists(*v);
                    assert(decreases_to!(*v => v->Obj_0));
                }
                match decode_schema_map(pm) {
                    Some(ps) => {
                        let s2 = Schema { properties: ps, ..acc };
                        proof {
                            assert(s2.dv() =~~= SchemaV {
                                properties: schema_pairs_v(s2.properties@),
                                ..a0.dv()
                            });
                        }
                        Some(s2)
                    },
                    None => None,
                }
            },
            _ => None,
        }
    } else if str_eq(ks, "patternProperties") {
        match v {
            Json::Obj(pm) => {
                proof {
                    crate::json::lemma_dv_lists(*v);
                    assert(decreases_to!(*v => v->Obj_0));
                }
                match decode_schema_map(pm) {
                    Some(ps) => {
                        let s2 = Schema { pattern_properties: ps, ..acc };
                        proof {
                            assert(s2.dv() =~~= SchemaV {
                                pattern_properties: schema_pairs_v(s2.pattern_properties@),
                                ..a0.dv()
                            });
                        }
                        Some(s2)
                    },
                    None => None,
                }
            },
            _ => None,
        }
    } else if str_eq(ks, "items") {
        match v {
            Json::Null => {
                let s2 = Schema { items: None, ..acc };
                proof {
                    assert(s2.dv() =~~= SchemaV { items: None, ..a0.dv() });
                }
                Some(s2)
            },
            _ => match decode_schema(v) {
                Some(inner) => {
                    let s2 = Schema { items: Some(Box::new(inner)), ..acc };
                    proof {
                        assert(s2.dv() =~~= SchemaV {
                            items: Some(Box::new((*s2.items->0).dv())),
                            ..a0.dv()
                        });
                    }
                    Some(s2)
                },
                None => None,
            },
        }
    } else if str_eq(ks, "definitions") {
        match v {
            Json::Obj(pm) => {
                proof {
                    crate::json::lemma_dv_lists(*v);
                    assert(decreases_to!(*v => v->Obj_0));
                }
                match decode_schema_map(pm) {
                    Some(ps) => {
                        let s2 = Schema { definitions: ps, ..acc };
                        proof {
                            assert(s2.dv() =~~= SchemaV {
                                definitions: schema_pairs_v(s2.definitions@),
                                ..a0.dv()
                            });
                        }
                        Some(s2)
                    },
                    None => None,
                }
            },
            _ => None,
        }
    } else if str_eq(ks, "$defs") {
        match v {
            Json::Obj(pm) => {
                proof {
                    crate::json::lemma_dv_lists(*v);
                    assert(decreases_to!(*v => v->Obj_0));
                }
                match decode_schema_map(pm) {
                    Some(ps) => {
                        let s2 = Schema { defs: ps, ..acc };
                        proof {
                            assert(s2.dv() =~~= SchemaV {
                                defs: schema_pairs_v(s2.defs@),
                                ..a0.dv()
                            });
                        }
                        Some(s2)
                    },
                    None => None,
                }
            },
            _ => None,
        }
    } else if str_eq(ks, "oneOf") {
        match v {
            Json::Arr(a) => {
                proof {
                    crate::json::lemma_dv_lists(*v);
                    assert(decreases_to!(*v => v->Arr_0));
                }
                match decode_schema_vec(a) {
                    Some(ss) => {
                        let s2 = Schema { one_of: ss, ..acc };
                        proof {
                            assert(s2.dv() =~~= SchemaV {
                                one_of: schema_list_v(s2.one_of@),
                                ..a0.dv()
                            });
                        }
                        Some(s2)
                    },
                    None => None,
                }
            },
            _ => None,
        }
    } else if str_eq(ks, "anyOf") {
        match v {
            Json::Arr(a) => {
                proof {
                    crate::json::lemma_dv_lists(*v);
                    assert(decreases_to!(*v => v->Arr_0));
                }
                match decode_schema_vec(a) {
                    Some(ss) => {
                        let s2 = Schema { any_of: ss, ..acc };
                        proof {
                            assert(s2.dv() =~~= SchemaV {
                                any_of: schema_list_v(s2.any_of@),
                                ..a0.dv()
                            });
                        }
                        Some(s2)
                    },
                    None => None,
                }
            },
            _ => None,
        }
    } else if str_eq(ks, "allOf") {
        match v {
            Json::Arr(a) => {
                proof {
                    crate::json::lemma_dv_lists(*v);
                    assert(decreases_to!(*v => v->Arr_0));
                }
                match decode_schema_vec(a) {
                    Some(ss) => {
                        let s2 = Schema { all_of: ss, ..acc };
                        proof {
                            assert(s2.dv() =~~= SchemaV {
                                all_of: schema_list_v(s2.all_of@),
                                ..a0.dv()
                            });
                        }
                        Some(s2)
                    },
                    None => None,
                }
            },
            _ => None,
        }
    } else {
        Some(acc)
    }
}

/// Decodes an object whose values must all be subschemas.
fn decode_schema_map(pm: &Vec<(String, Json)>) -> (r: Option<Vec<(String, Schema)>>)
    ensures
        match r {
            Some(out) => schema_map_of(crate::json::json_pairs_v(pm@)) == Some(
                schema_pairs_v(out@),
            ),
            None => schema_map_of(crate::json::json_pairs_v(pm@)) is None,
        },
    decreases *pm, 0int,
{
    let ghost pv = crate::json::json_pairs_v(pm@);
    proof {
        assert(pv.subrange(0, pv.len() as int) =~= pv);
    }
    let mut out: Vec<(String, Schema)> = Vec::new();
    let mut i: usize = 0;
    while i < pm.len()
        invariant
            0 <= i <= pm@.len(),
            pv == crate::json::json_pairs_v(pm@),
            match schema_map_of(pv.subrange(i as int, pv.len() as int)) {
                Some(rest) => schema_map_of(pv) == Some(schema_pairs_v(out@) + rest),
                None => schema_map_of(pv) is None,
            },
        decreases pv.len() - i,
    {
        let ghost tail = pv.subrange(i as int, pv.len() as int);
        proof {
            assert(tail.len() > 0);
            assert(tail[0] == (pm@[i as int].0@, pm@[i as int].1.dv()));
            assert(tail.subrange(1, tail.len() as int) =~= pv.subrange(
                i as int + 1,
                pv.len() as int,
            ));
            assert(decreases_to!(*pm => pm@));
            assert(decreases_to!(pm@ => pm@[i as int]));
            assert(decreases_to!(pm@[i as int] => pm@[i as int].1));
        }
        match decode_schema(&pm[i].1) {
            Some(sch) => {
                let ghost out0 = out@;
                out.push((pm[i].0.clone(), sch));
                proof {
                    assert(schema_pairs_v(out@) =~= schema_pairs_v(out0).push(
                        (pm@[i as int].0@, sch.dv()),
                    ));
                    if schema_map_of(pv.subrange(i as int + 1, pv.len() as int)) is Some {
                        let rest2 = schema_map_of(pv.subrange(i as int + 1, pv.len() as int))->0;
                        assert(schema_map_of(tail) == Some(
                            seq![(pm@[i as int].0@, sch.dv())] + rest2,
                        ));
                        assert(schema_pairs_v(out0) + (seq![(pm@[i as int].0@, sch.dv())] + rest2)
                            =~= schema_pairs_v(out@) + rest2);
                    }
                }
            },
            None => {
                proof {
                    assert(schema_map_of(tail) is None);
                }
                return None;
            },
        }
        i = i + 1;
    }
    proof {
        assert(pv.subrange(i as int, pv.len() as int).len() == 0);
        assert(schema_pairs_v(out@) + Seq::<(Seq<char>, SchemaV)>::empty() =~= schema_pairs_v(
            out@,
        ));
    }
    Some(out)
}

/// Decodes an array whose elements must all be subschemas.
fn decode_schema_vec(a: &Vec<Json>) -> (r: Option<Vec<Schema>>)
    ensures
        match r {
            Some(out) => schema_seq_of(crate::json::jsons_v(a@)) == Some(schema_list_v(out@)),
            None => schema_seq_of(crate::json::jsons_v(a@)) is None,
        },
    decreases *a, 0int,
{
    let ghost av = crate::json::jsons_v(a@);
    proof {
        assert(av.subrange(0, av.len() as int) =~= av);
    }
    let mut out: Vec<Schema> = Vec::new();
    let mut i: usize = 0;
    while i < a.len()
        invariant
            0 <= i <= a@.len(),
            av == crate::json::jsons_v(a@),
            match schema_seq_of(av.subrange(i as int, av.len() as int)) {
                Some(rest) => schema_seq_of(av) == Some(schema_list_v(out@) + rest),
                None => schema_seq_of(av) is None,
            },
        decreases av.len() - i,
    {
        let ghost tail = av.subrange(i as int, av.len() as int);
        proof {
            assert(tail.len() > 0);
            assert(tail[0] == a@[i as int].dv());
            assert(tail.subrange(1, tail.len() as int) =~= av.subrange(
                i as int + 1,
                av.len() as int,
            ));
            assert(decreases_to!(*a => a@));
            assert(decreases_to!(a@ => a@[i as int]));
        }
        match decode_schema(&a[i]) {
            Some(sch) => {
                let ghost out0 = out@;
                out.push(sch);
                proof {
                    assert(schema_list_v(out@) =~= schema_list_v(out0).push(sch.dv()));
                    if schema_seq_of(av.subrange(i as int + 1, av.len() as int)) is Some {
                        let rest2 = schema_seq_of(av.subrange(i as int + 1, av.len() as int))->0;
                        assert(schema_seq_of(tail) == Some(seq![sch.dv()] + rest2));
                        assert(schema_list_v(out0) + (seq![sch.dv()] + rest2) =~= schema_list_v(
                            out@,
                        ) + rest2);
                    }
                }
            },
            None => {
                proof {
                    assert(schema_seq_of(tail) is None);
                }
                return None;
            },
        }
        i = i + 1;
    }
    proof {
        assert(av.subrange(i as int, av.len() as int).len() == 0);
        assert(schema_list_v(out@) + Seq::<SchemaV>::empty() =~= schema_list_v(out@));
    }
    Some(out)
}

} // verus!
