//! A generic JSON value tree. The schema compiler works on this in-memory
//! form; reading bytes from disk and lifting them to this tree is the job
//! of the surrounding program.
//!
//! Numeric payloads play no part in the schema vocabulary this compiler
//! reads, so a number is kept only as the fact that one stood there.
//! Object members keep the order in which the producer listed them; a
//! producer that sorts keys (as a sorted map does) therefore yields a
//! deterministic member order.

use vstd::prelude::*;

verus! {

/// One JSON value.
#[derive(Debug, PartialEq)]
pub enum Json {
    Null,
    Bool(bool),
    Number,
    Str(String),
    Arr(Vec<Json>),
    Obj(Vec<(String, Json)>),
}

/// The mathematical shape of a [`Json`] value.
#[verifier::ext_equal]
pub enum JsonV {
    Null,
    Bool(bool),
    Number,
    Str(Seq<char>),
    Arr(Seq<JsonV>),
    Obj(Seq<(Seq<char>, JsonV)>),
}

impl Json {
    /// The value as its mathematical shape.
    pub open spec fn dv(self) -> JsonV
        decreases self,
    {
        match self {
            Json::Null => JsonV::Null,
            Json::Bool(b) => JsonV::Bool(b),
            Json::Number => JsonV::Number,
            Json::Str(s) => JsonV::Str(s@),
            Json::Arr(v) => JsonV::Arr(
                Seq::new(
                    v@.len(),
                    |i: int| if 0 <= i < v@.len() {
                        v@[i].dv()
                    } else {
                        JsonV::Null
                    },
                ),
            ),
            Json::Obj(m) => JsonV::Obj(
                Seq::new(
                    m@.len(),
                    |i: int| if 0 <= i < m@.len() {
                        (m@[i].0@, m@[i].1.dv())
                    } else {
                        (Seq::empty(), JsonV::Null)
                    },
                ),
            ),
        }
    }
}

/// View of a list of JSON values.
pub open spec fn jsons_v(a: Seq<Json>) -> Seq<JsonV> {
    Seq::new(
        a.len(),
        |i: int| if 0 <= i < a.len() {
            a[i].dv()
        } else {
            JsonV::Null
        },
    )
}

/// View of an object's member list.
pub open spec fn json_pairs_v(m: Seq<(String, Json)>) -> Seq<(Seq<char>, JsonV)> {
    Seq::new(
        m.len(),
        |i: int| if 0 <= i < m.len() {
            (m[i].0@, m[i].1.dv())
        } else {
            (Seq::empty(), JsonV::Null)
        },
    )
}

/// `dv` agrees with the two list views.
pub proof fn lemma_dv_lists(j: Json)
    ensures
        j is Arr ==> j.dv() == JsonV::Arr(jsons_v(j->Arr_0@)),
        j is Obj ==> j.dv() == JsonV::Obj(json_pairs_v(j->Obj_0@)),
{
    if j is Arr {
        assert(j.dv()->Arr_0 =~= jsons_v(j->Arr_0@));
    }
    if j is Obj {
        assert(j.dv()->Obj_0 =~= json_pairs_v(j->Obj_0@));
    }
}

impl Clone for Json {
    /// A clone is the same value, seen through `dv`.
    fn clone(&self) -> (r: Self)
        ensures
            r.dv() == self.dv(),
        decreases self,
    {
        match self {
            Json::Null => Json::Null,
            Json::Bool(b) => Json::Bool(*b),
            Json::Number => Json::Number,
            Json::Str(s) => Json::Str(s.clone()),
            Json::Arr(v) => {
                let mut out: Vec<Json> = Vec::new();
                let mut i: usize = 0;
                while i < v.len()
                    invariant
                        0 <= i <= v@.len(),
                        out@.len() == i,
                        *self == Json::Arr(*v),
                        forall|j: int| 0 <= j < i ==> #[trigger] out@[j].dv() == v@[j].dv(),
                    decreases v@.len() - i,
                {
                    proof {
                        assert(decreases_to!(*self => self->Arr_0));
                        assert(decreases_to!(self->Arr_0 => self->Arr_0@));
                        assert(decreases_to!(self->Arr_0@ => self->Arr_0@[i as int]));
                        assert(self->Arr_0@[i as int] == v@[i as int]);
                    }
                    out.push(v[i].clone());
                    i = i + 1;
                }
                proof {
                    let lhs = Json::Arr(out).dv()->Arr_0;
                    let rhs = self.dv()->Arr_0;
                    assert(lhs.len() == rhs.len());
                    assert forall|j: int| 0 <= j < lhs.len() implies lhs[j] == rhs[j] by {
                        assert(out@[j].dv() == v@[j].dv());
                    }
                    assert(lhs =~= rhs);
                }
                Json::Arr(out)
            },
            Json::Obj(m) => {
                let mut out: Vec<(String, Json)> = Vec::new();
                let mut i: usize = 0;
                while i < m.len()
                    invariant
                        0 <= i <= m@.len(),
                        out@.len() == i,
                        *self == Json::Obj(*m),
                        forall|j: int| 0 <= j < i ==> #[trigger] out@[j].0@ == m@[j].0@
                            && #[trigger] out@[j].1.dv() == m@[j].1.dv(),
                    decreases m@.len() - i,
                {
                    proof {
                        assert(decreases_to!(*self => self->Obj_0));
                        assert(decreases_to!(self->Obj_0 => self->Obj_0@));
                        assert(decreases_to!(self->Obj_0@ => self->Obj_0@[i as int]));
                        assert(decreases_to!(self->Obj_0@[i as int] => self->Obj_0@[i as int].1));
                        assert(self->Obj_0@[i as int].1 == m@[i as int].1);
                    }
                    out.push((m[i].0.clone(), m[i].1.clone()));
                    i = i + 1;
                }
                proof {
                    let lhs = Json::Obj(out).dv()->Obj_0;
                    let rhs = self.dv()->Obj_0;
                    assert(lhs.len() == rhs.len());
                    assert forall|j: int| 0 <= j < lhs.len() implies lhs[j] == rhs[j] by {
                        assert(out@[j].0@ == m@[j].0@ && out@[j].1.dv() == m@[j].1.dv());
                    }
                    assert(lhs =~= rhs);
                }
                Json::Obj(out)
            },
        }
    }
}

} // verus!
