//! The generator: walks parsed schema trees, materialising one record
//! descriptor per distinct `src`, under globally unique names, in a
//! stable first-seen order.
//!
//! A record's `src` moves only forward through three stages: unseen, then
//! named (a positional slot is reserved and the chosen name recorded
//! before any child is visited, so that cycles find it), then complete
//! (the slot holds the finished descriptor). A reference that lands on a
//! `src` already on the current traversal stack is a back-edge and is
//! rendered as a boxed reference.

use vstd::prelude::*;
use crate::error::GenError;
use crate::generated::{GeneratedProperty, GeneratedPropertyV, GeneratedType, SerdeOptions};
use crate::parser::{DataType, DataTypeV, Object, ObjectProperty, ObjectV, PropertyV, Root};
use crate::resolver::{Resolver, cache_v};
use crate::sanitizer::{sanitize_property_name, sanitize_struct_name, struct_ident, property_ident};
use crate::text::{
    dec_str, parent_dir, seq_contains_str, str_concat, str_eq, u128_to_string,
    vec_contains_string, lemma_dec_str_len, lemma_dec_str_injective,
};
use vstd::string::StringExecFns;

verus! {

/// How many traversal steps one generation run is allowed; deeper or
/// more entangled schemas than this abort with a recursion error.
pub const GENERATION_FUEL: u64 = 4294967296;

/// A payload tagged with the position at which it was first allocated.
#[derive(Debug, PartialEq, Eq, PartialOrd, Ord)]
pub struct EntryWithPosition<T> {
    pub position: u64,
    pub payload: T,
}

/// The generator's mutable state.
pub struct Generator {
    pub resolver: Resolver,
    pub types: Vec<EntryWithPosition<GeneratedType>>,
    pub next_position: u64,
    pub known_type_names: Vec<(String, String)>,
}

/// Whether some entry of the name registry is keyed by `src`.
pub open spec fn known_has_src(m: Seq<(String, String)>, src: Seq<char>) -> bool {
    exists|i: int| 0 <= i < m.len() && (#[trigger] m[i]).0@ == src
}

/// Whether some entry of the name registry carries the name `n`.
pub open spec fn known_has_name(m: Seq<(String, String)>, n: Seq<char>) -> bool {
    exists|i: int| 0 <= i < m.len() && (#[trigger] m[i]).1@ == n
}

/// Whether the name registry maps `src` to `name`.
pub open spec fn known_pair(m: Seq<(String, String)>, src: Seq<char>, name: Seq<char>) -> bool {
    exists|i: int| 0 <= i < m.len() && (#[trigger] m[i]).0@ == src && m[i].1@ == name
}

/// The candidate names tried for a colliding record name: the sanitized
/// name itself, then the name with 1, 2, ... appended.
pub open spec fn name_candidate(base: Seq<char>, k: nat) -> Seq<char> {
    if k == 0 {
        base
    } else {
        base + dec_str(k)
    }
}

/// The `src` a reference's target is recorded under: the target file's
/// path, with the local fragment appended after a `#` when there is one.
pub open spec fn ref_target_src(res: crate::resolver::ResolveResultV) -> Seq<char> {
    match res.path {
        Some(p) => res.root.file + "#"@ + p,
        None => res.root.file,
    }
}

/// The type-reference text for an optional value.
pub open spec fn opt_wrapped(s: Seq<char>) -> Seq<char> {
    "Option<"@ + s + ">"@
}

/// The type-reference text for a heap-indirected back-reference.
pub open spec fn box_wrapped(s: Seq<char>) -> Seq<char> {
    "Box<"@ + s + ">"@
}

/// The type-reference text for a primitive leaf. `Null` carries no
/// structure and falls back to the dynamic value type.
pub open spec fn primitive_ref(p: crate::parser::PrimitiveType) -> Seq<char> {
    match p {
        crate::parser::PrimitiveType::Null => "Value"@,
        crate::parser::PrimitiveType::Boolean => "bool"@,
        crate::parser::PrimitiveType::Integer => "i64"@,
        crate::parser::PrimitiveType::Number => "f64"@,
        crate::parser::PrimitiveType::String => "String"@,
    }
}

/// The name registered for `eff` describes the reference text `n`: the
/// bare name or a boxed back-reference, wrapped in `Option` exactly when
/// the usage is not required.
pub open spec fn object_named(b: Generator, eff: Seq<char>, required: bool, n: Seq<char>) -> bool {
    exists|nm: Seq<char>|
        #[trigger] known_pair(b.known_type_names@, eff, nm) && (if required {
            n == nm || n == box_wrapped(nm)
        } else {
            n == opt_wrapped(nm) || n == opt_wrapped(box_wrapped(nm))
        })
}

/// As [`object_named`], and when `eff` was unseen in state `a`, a record
/// slot carrying that `src` and name was emitted between `a` and `b`.
pub open spec fn object_materialised(
    a: Generator,
    b: Generator,
    eff: Seq<char>,
    required: bool,
    n: Seq<char>,
) -> bool {
    exists|nm: Seq<char>|
        #[trigger] known_pair(b.known_type_names@, eff, nm) && (if required {
            n == nm || n == box_wrapped(nm)
        } else {
            n == opt_wrapped(nm) || n == opt_wrapped(box_wrapped(nm))
        }) && (!known_has_src(a.known_type_names@, eff) ==> exists|i: int|
            a.types@.len() <= i < b.types@.len() && (#[trigger] b.types@[i]).payload.src@ == eff
                && b.types@[i].payload.name@ == nm)
}

/// What a returned type-reference text says about the node it stands
/// for, over the generator's state before (`a`) and after (`b`) the
/// call. Container elements are materialised as required, so their
/// references are bare; a reference node's target is described by a
/// separate clause over its resolution.
pub open spec fn reference_matches(
    a: Generator,
    b: Generator,
    src_override: Option<Seq<char>>,
    dt: DataTypeV,
    required: bool,
    n: Seq<char>,
) -> bool {
    match dt {
        DataTypeV::Primitive(p) => n == (if (p is Null) || required {
            primitive_ref(p)
        } else {
            opt_wrapped(primitive_ref(p))
        }),
        DataTypeV::Array(t) => {
            &&& exists|inner: Seq<char>| #![auto] n == "Vec<"@ + inner + ">"@
            &&& (*t) is Primitive ==> n == "Vec<"@ + primitive_ref((*t)->Primitive_0) + ">"@
            &&& (*t) is Any ==> n == "Vec<"@ + "Value"@ + ">"@
        },
        DataTypeV::Mapping(t) => {
            &&& exists|inner: Seq<char>| #![auto] n == "BTreeMap<String, "@ + inner + ">"@
            &&& (*t) is Primitive ==> n == "BTreeMap<String, "@ + primitive_ref(
                (*t)->Primitive_0,
            ) + ">"@
            &&& (*t) is Any ==> n == "BTreeMap<String, "@ + "Value"@ + ">"@
        },
        DataTypeV::Object(o) => object_materialised(
            a,
            b,
            (match src_override {
                Some(sv) => sv,
                None => o.src,
            }),
            required,
            n,
        ),
        DataTypeV::Ref(_) => true,
        DataTypeV::OneOf(_) => n == "Value"@,
        DataTypeV::AnyOf(_) => n == "Value"@,
        DataTypeV::AllOf(_) => n == "Value"@,
        DataTypeV::Any => n == "Value"@,
    }
}

/// Every alternative of a composition that is itself an object has been
/// registered under its `src`.
pub open spec fn objects_registered(b: Generator, alts: Seq<DataType>) -> bool {
    forall|k: int|
        0 <= k < alts.len() && (#[trigger] alts[k]) is Object ==> known_has_src(
            b.known_type_names@,
            alts[k]->Object_0.src@,
        )
}

/// One stored field descriptor is the one the walk builds for the
/// property: sanitized identifier, rename exactly when the identifier
/// changed, skip marker exactly when optional, and a type reference
/// described by the property's node against the final state.
pub open spec fn property_described(b: Generator, gp: GeneratedPropertyV, prop: PropertyV) -> bool {
    &&& gp.name == property_ident(prop.name)
    &&& gp.rename == (if property_ident(prop.name) == prop.name {
        None::<Seq<char>>
    } else {
        Some(prop.name)
    })
    &&& gp.skip_serializing_if == (if prop.required {
        None::<Seq<char>>
    } else {
        Some("Option::is_none"@)
    })
    &&& reference_matches(b, b, None::<Seq<char>>, prop.data_type, prop.required, gp.property_type)
}

/// Every property of the object is a primitive leaf or the dynamic
/// value type, so no child recursion can fail.
pub open spec fn simple_object(o: ObjectV) -> bool {
    forall|i: int|
        0 <= i < o.properties.len() ==> (#[trigger] o.properties[i]).data_type is Primitive
            || o.properties[i].data_type is Any
}

/// The properties stored in the record slot `idx`, as their shapes.
pub open spec fn stored_properties(g: Generator, idx: int) -> Seq<GeneratedPropertyV> {
    crate::generated::gen_properties_v(g.types@[idx].payload.properties@)
}

impl Generator {
    /// The generator's records, names and positions are consistent:
    /// positions count up with the slots, the registry maps each slot's
    /// `src` to its name, and both srcs and names are unique.
    pub open spec fn wf(self) -> bool {
        &&& self.next_position as int == self.types@.len()
        &&& forall|i: int|
            0 <= i < self.types@.len() ==> (#[trigger] self.types@[i]).position as int == i
        &&& forall|i: int, j: int|
            0 <= i < j < self.known_type_names@.len() ==> (#[trigger] self.known_type_names@[i]).0@
                != (#[trigger] self.known_type_names@[j]).0@
        &&& forall|i: int, j: int|
            0 <= i < j < self.known_type_names@.len() ==> (#[trigger] self.known_type_names@[i]).1@
                != (#[trigger] self.known_type_names@[j]).1@
        &&& forall|i: int|
            0 <= i < self.types@.len() ==> known_pair(
                self.known_type_names@,
                (#[trigger] self.types@[i]).payload.src@,
                self.types@[i].payload.name@,
            )
        &&& forall|i: int, j: int|
            0 <= i < j < self.types@.len() ==> (#[trigger] self.types@[i]).payload.src@
                != (#[trigger] self.types@[j]).payload.src@
    }
}

/// Generation only moves forward: every slot keeps its `src` and its
/// name, the name registry keeps its entries, and the file cache stays
/// as it was.
pub open spec fn gen_evolves(a: Generator, b: Generator) -> bool {
    &&& a.types@.len() <= b.types@.len()
    &&& forall|i: int|
        0 <= i < a.types@.len() ==> (#[trigger] b.types@[i]).payload.src@
            == a.types@[i].payload.src@ && b.types@[i].payload.name@ == a.types@[i].payload.name@
    &&& a.known_type_names@.len() <= b.known_type_names@.len()
    &&& forall|i: int|
        0 <= i < a.known_type_names@.len() ==> (#[trigger] b.known_type_names@[i]).0@
            == a.known_type_names@[i].0@ && b.known_type_names@[i].1@
            == a.known_type_names@[i].1@
    &&& cache_v(b.resolver.cache@) == cache_v(a.resolver.cache@)
}

/// `gen_evolves` chains.
pub proof fn lemma_evolves_trans(a: Generator, b: Generator, c: Generator)
    requires
        gen_evolves(a, b),
        gen_evolves(b, c),
    ensures
        gen_evolves(a, c),
{
}

/// A registered `src` stays registered as generation moves forward.
proof fn lemma_has_src_persists(a: Generator, b: Generator, s: Seq<char>)
    requires
        gen_evolves(a, b),
        known_has_src(a.known_type_names@, s),
    ensures
        known_has_src(b.known_type_names@, s),
{
    let w = choose|i: int| 0 <= i < a.known_type_names@.len() && (#[trigger] a.known_type_names@[i]).0@ == s;
    assert(b.known_type_names@[w].0@ == s);
}

/// A registered pair stays registered as generation moves forward.
proof fn lemma_pair_persists(a: Generator, b: Generator, s: Seq<char>, nm: Seq<char>)
    requires
        gen_evolves(a, b),
        known_pair(a.known_type_names@, s, nm),
    ensures
        known_pair(b.known_type_names@, s, nm),
{
    let w = choose|i: int|
        0 <= i < a.known_type_names@.len() && (#[trigger] a.known_type_names@[i]).0@ == s
            && a.known_type_names@[i].1@ == nm;
    assert(b.known_type_names@[w].0@ == s && b.known_type_names@[w].1@ == nm);
}

/// Under well-formedness the registry is a function of the `src`: two
/// names registered for one `src` are the same name.
proof fn lemma_pair_functional(g: Generator, s: Seq<char>, n1: Seq<char>, n2: Seq<char>)
    requires
        g.wf(),
        known_pair(g.known_type_names@, s, n1),
        known_pair(g.known_type_names@, s, n2),
    ensures
        n1 == n2,
{
    let m = g.known_type_names@;
    let w1 = choose|i: int| 0 <= i < m.len() && (#[trigger] m[i]).0@ == s && m[i].1@ == n1;
    let w2 = choose|i: int| 0 <= i < m.len() && (#[trigger] m[i]).0@ == s && m[i].1@ == n2;
    assert(w1 == w2);
}

/// A registered pair witnesses its `src`.
proof fn lemma_pair_gives_src(m: Seq<(String, String)>, s: Seq<char>, nm: Seq<char>)
    requires
        known_pair(m, s, nm),
    ensures
        known_has_src(m, s),
{
    let w = choose|i: int| 0 <= i < m.len() && (#[trigger] m[i]).0@ == s && m[i].1@ == nm;
    assert(m[w].0@ == s);
}

/// A materialised object reference witnesses its registered `src`.
proof fn lemma_materialised_gives_src(
    a: Generator,
    b: Generator,
    eff: Seq<char>,
    required: bool,
    n: Seq<char>,
)
    requires
        object_materialised(a, b, eff, required, n),
    ensures
        known_has_src(b.known_type_names@, eff),
{
    let nm = choose|nm: Seq<char>|
        #[trigger] known_pair(b.known_type_names@, eff, nm) && (if required {
            n == nm || n == box_wrapped(nm)
        } else {
            n == opt_wrapped(nm) || n == opt_wrapped(box_wrapped(nm))
        }) && (!known_has_src(a.known_type_names@, eff) ==> exists|i: int|
            a.types@.len() <= i < b.types@.len() && (#[trigger] b.types@[i]).payload.src@ == eff
                && b.types@[i].payload.name@ == nm);
    lemma_pair_gives_src(b.known_type_names@, eff, nm);
}

/// A node and its shape agree on being a primitive leaf or the dynamic
/// value type.
proof fn lemma_dv_variant(dt: DataType)
    ensures
        dt.dv() is Primitive <==> dt is PrimitiveType,
        dt.dv() is Any <==> dt is Any,
{
    if dt is PrimitiveType {
        assert(dt.dv() is Primitive);
    } else if dt is Array {
        assert(dt.dv() is Array);
    } else if dt is Object {
        assert(dt.dv() is Object);
    } else if dt is Mapping {
        assert(dt.dv() is Mapping);
    } else if dt is Ref {
        assert(dt.dv() is Ref);
    } else if dt is OneOf {
        assert(dt.dv() is OneOf);
    } else if dt is AnyOf {
        assert(dt.dv() is AnyOf);
    } else if dt is AllOf {
        assert(dt.dv() is AllOf);
    } else {
        assert(dt.dv() is Any);
    }
}

/// A reference description made against the state a call ended in still
/// holds read against any later state.
proof fn lemma_matches_persists(
    a: Generator,
    b: Generator,
    c: Generator,
    dt: DataTypeV,
    required: bool,
    n: Seq<char>,
)
    requires
        reference_matches(a, b, None::<Seq<char>>, dt, required, n),
        gen_evolves(b, c),
    ensures
        reference_matches(c, c, None::<Seq<char>>, dt, required, n),
{
    if dt is Object {
        let o = dt->Object_0;
        assert(object_materialised(a, b, o.src, required, n));
        let nm = choose|nm: Seq<char>|
            #[trigger] known_pair(b.known_type_names@, o.src, nm) && (if required {
                n == nm || n == box_wrapped(nm)
            } else {
                n == opt_wrapped(nm) || n == opt_wrapped(box_wrapped(nm))
            }) && (!known_has_src(a.known_type_names@, o.src) ==> exists|i: int|
                a.types@.len() <= i < b.types@.len() && (#[trigger] b.types@[i]).payload.src@
                    == o.src && b.types@[i].payload.name@ == nm);
        lemma_pair_persists(b, c, o.src, nm);
        assert(known_pair(c.known_type_names@, o.src, nm));
        assert(known_has_src(c.known_type_names@, o.src));
        assert(object_materialised(c, c, o.src, required, n));
    }
}

/// Distinct counters give distinct candidate names.
proof fn lemma_candidates_distinct(base: Seq<char>, j: nat, k: nat)
    requires
        j < k,
    ensures
        name_candidate(base, j) != name_candidate(base, k),
{
    lemma_dec_str_len(k);
    if j == 0 {
        assert(name_candidate(base, k).len() > base.len());
    } else {
        lemma_dec_str_len(j);
        if name_candidate(base, j) == name_candidate(base, k) {
            let dj = dec_str(j);
            let dk = dec_str(k);
            assert(base + dj == base + dk);
            assert((base + dj).len() == (base + dk).len());
            assert(dj.len() == dk.len());
            assert forall|x: int| 0 <= x < dj.len() implies dj[x] == dk[x] by {
                assert((base + dj)[base.len() + x] == dj[x]);
                assert((base + dk)[base.len() + x] == dk[x]);
            }
            assert(dj =~= dk);
            lemma_dec_str_injective(j, k);
        }
    }
}

/// No more distinct values can all occur in a list than the list holds:
/// if every candidate below `k` is a name in use, `k` is at most the
/// number of names.
proof fn lemma_candidate_bound(m: Seq<(String, String)>, base: Seq<char>, k: nat)
    requires
        forall|j: nat| j < k ==> known_has_name(m, #[trigger] name_candidate(base, j)),
    ensures
        k <= m.len(),
{
    let cands = Seq::new(k, |j: int| name_candidate(base, j as nat));
    let names = Seq::new(m.len(), |i: int| if 0 <= i < m.len() {
        m[i].1@
    } else {
        Seq::empty()
    });
    assert forall|x: int, y: int| 0 <= x < cands.len() && 0 <= y < cands.len() && x != y
        implies cands[x] != cands[y] by {
        if x < y {
            lemma_candidates_distinct(base, x as nat, y as nat);
        } else {
            lemma_candidates_distinct(base, y as nat, x as nat);
        }
    }
    assert(cands.no_duplicates());
    cands.unique_seq_to_set();
    names.lemma_cardinality_of_set();
    vstd::seq_lib::seq_to_set_is_finite::<Seq<char>>(names);
    vstd::seq_lib::seq_to_set_is_finite::<Seq<char>>(cands);
    assert forall|x: Seq<char>| cands.to_set().contains(x) implies names.to_set().contains(
        x,
    ) by {
        let j = choose|j: int| 0 <= j < cands.len() && cands[j] == x;
        assert(known_has_name(m, name_candidate(base, j as nat)));
        let i = choose|i: int| 0 <= i < m.len() && (#[trigger] m[i]).1@ == x;
        assert(names[i] == x);
    }
    assert(cands.to_set().subset_of(names.to_set()));
    vstd::set_lib::lemma_len_subset(cands.to_set(), names.to_set());
}

impl Generator {
    /// A generator with nothing emitted and nothing loaded.
    pub fn new() -> (r: Self)
        ensures
            r.wf(),
            r.types@.len() == 0,
            r.known_type_names@.len() == 0,
            cache_v(r.resolver.cache@) == Seq::<(Seq<char>, crate::parser::RootV)>::empty(),
    {
        Generator {
            resolver: Resolver::new(),
            types: Vec::new(),
            next_position: 0,
            known_type_names: Vec::new(),
        }
    }

    /// Hands a parsed file to the resolver's cache, keyed by the path it
    /// was reached by.
    pub fn load_root(&mut self, file: String, root: Root)
        ensures
            final(self).types@ == old(self).types@,
            final(self).known_type_names@ == old(self).known_type_names@,
            final(self).next_position == old(self).next_position,
            cache_v(final(self).resolver.cache@) == cache_v(old(self).resolver.cache@).push(
                (file@, root.dv()),
            ),
            old(self).wf() ==> final(self).wf(),
    {
        self.resolver.load(file, root);
    }

    /// The name registered for `src`, if any.
    fn lookup_known_name(&self, src: &String) -> (r: Option<String>)
        ensures
            match r {
                Some(n) => known_pair(self.known_type_names@, src@, n@),
                None => !known_has_src(self.known_type_names@, src@),
            },
    {
        let mut i: usize = 0;
        while i < self.known_type_names.len()
            invariant
                0 <= i <= self.known_type_names@.len(),
                forall|j: int|
                    0 <= j < i ==> (#[trigger] self.known_type_names@[j]).0@ != src@,
            decreases self.known_type_names@.len() - i,
        {
            if str_eq(self.known_type_names[i].0.as_str(), src.as_str()) {
                return Some(self.known_type_names[i].1.clone());
            }
            i = i + 1;
        }
        None
    }

    /// Whether some record already carries this name.
    fn name_in_use(&self, name: &String) -> (r: bool)
        ensures
            r == known_has_name(self.known_type_names@, name@),
    {
        let mut i: usize = 0;
        while i < self.known_type_names.len()
            invariant
                0 <= i <= self.known_type_names@.len(),
                forall|j: int|
                    0 <= j < i ==> (#[trigger] self.known_type_names@[j]).1@ != name@,
            decreases self.known_type_names@.len() - i,
        {
            if str_eq(self.known_type_names[i].1.as_str(), name.as_str()) {
                return true;
            }
            i = i + 1;
        }
        false
    }

    /// Picks the first of `name`, `name1`, `name2`, ... that no record
    /// uses yet.
    pub fn get_collision_free_name(&self, name: String) -> (r: String)
        ensures
            !known_has_name(self.known_type_names@, r@),
            exists|k: nat|
                r@ == #[trigger] name_candidate(name@, k) && forall|j: nat|
                    j < k ==> known_has_name(self.known_type_names@, #[trigger] name_candidate(
                        name@,
                        j,
                    )),
    {
        let ghost m = self.known_type_names@;
        let n_names = self.known_type_names.len();
        let mut counter: u128 = 1;
        let mut new_name = name.clone();
        let mut in_use = self.name_in_use(&new_name);
        while in_use
            invariant
                1 <= counter,
                counter - 1 <= m.len(),
                m.len() == n_names as int,
                m == self.known_type_names@,
                new_name@ == name_candidate(name@, (counter - 1) as nat),
                in_use == known_has_name(m, new_name@),
                forall|j: nat|
                    j < counter - 1 ==> known_has_name(m, #[trigger] name_candidate(name@, j)),
            decreases m.len() + 1 - (counter - 1),
        {
            proof {
                assert forall|j: nat| j < counter implies known_has_name(
                    m,
                    #[trigger] name_candidate(name@, j),
                ) by {
                    if j < counter - 1 {
                    } else {
                        assert(name_candidate(name@, j) == new_name@);
                    }
                }
                lemma_candidate_bound(m, name@, counter as nat);
            }
            new_name = str_concat(name.as_str(), u128_to_string(counter).as_str());
            counter = counter + 1;
            in_use = self.name_in_use(&new_name);
        }
        new_name
    }

    /// Consumes the generator and hands its records out in emission
    /// order, ascending by position.
    pub fn into_types(self) -> (r: Vec<GeneratedType>)
        ensures
            r@.len() == self.types@.len(),
            forall|i: int| 0 <= i < r@.len() ==> r@[i] == self.types@[i].payload,
    {
        let ghost t0 = self.types@;
        let mut types = self.types;
        let mut r: Vec<GeneratedType> = Vec::new();
        while types.len() > 0
            invariant
                r@.len() + types@.len() == t0.len(),
                forall|i: int| 0 <= i < r@.len() ==> (#[trigger] r@[i]) == t0[i].payload,
                forall|i: int|
                    0 <= i < types@.len() ==> (#[trigger] types@[i]) == t0[r@.len() + i],
            decreases types@.len(),
        {
            let entry = types.remove(0);
            r.push(entry.payload);
        }
        r
    }
}


/// Wraps a type reference for a field that may be absent.
fn wrap_optional(s: String, required: bool) -> (r: String)
    ensures
        r@ == if required {
            s@
        } else {
            opt_wrapped(s@)
        },
{
    if required {
        s
    } else {
        let mut r = String::from_str("Option<");
        r.append(s.as_str());
        r.append(">");
        proof {
            assert(r@ =~= opt_wrapped(s@));
        }
        r
    }
}

impl Generator {
    /// Emits the record for one object, or finds the one its `src`
    /// already has. A fresh `src` reserves the next position and a
    /// collision-free name before its children are visited; a `src`
    /// found on the traversal stack is rendered as a boxed reference.
    fn add_object_rec(
        &mut self,
        base_path: &String,
        root: &Root,
        src: String,
        object: &Object,
        visited_objects: Vec<String>,
        fuel: u64,
    ) -> (r: Result<String, GenError>)
        requires
            old(self).wf(),
        ensures
            final(self).wf(),
            gen_evolves(*old(self), *final(self)),
            fuel >= 1 && known_has_src(old(self).known_type_names@, src@) ==> r is Ok,
            fuel >= 3 && simple_object(object.dv()) ==> r is Ok,
            fuel >= 3 && simple_object(object.dv()) && !known_has_src(
                old(self).known_type_names@,
                src@,
            ) ==> final(self).types@.len() == old(self).types@.len() + 1
                && final(self).known_type_names@.len() == old(self).known_type_names@.len() + 1,
            match r {
                Ok(n) => {
                    &&& exists|nm: Seq<char>|
                        #![auto]
                        known_pair(final(self).known_type_names@, src@, nm) && n@ == (
                        if seq_contains_str(visited_objects@, src@) {
                            box_wrapped(nm)
                        } else {
                            nm
                        })
                    &&& known_has_src(old(self).known_type_names@, src@) ==> *final(self)
                        == *old(self)
                    &&& !known_has_src(old(self).known_type_names@, src@) ==> {
                        &&& final(self).types@.len() > old(self).types@.len()
                        &&& final(self).types@[old(self).types@.len() as int].payload.src@ == src@
                        &&& exists|k: nat|
                            #![auto]
                            final(self).types@[old(self).types@.len() as int].payload.name@
                                == name_candidate(struct_ident(object.name@), k)
                                && !known_has_name(
                                old(self).known_type_names@,
                                name_candidate(struct_ident(object.name@), k),
                            ) && forall|j: nat|
                                j < k ==> known_has_name(
                                    old(self).known_type_names@,
                                    #[trigger] name_candidate(struct_ident(object.name@), j),
                                )
                        &&& stored_properties(
                            *final(self),
                            old(self).types@.len() as int,
                        ).len() == object.dv().properties.len()
                        &&& forall|pi: int|
                            0 <= pi < object.dv().properties.len() ==> property_described(
                                *final(self),
                                #[trigger] stored_properties(
                                    *final(self),
                                    old(self).types@.len() as int,
                                )[pi],
                                object.dv().properties[pi],
                            )
                    }
                },
                Err(_) => true,
            },
        decreases fuel, 1int,
    {
        if fuel == 0 {
            return Err(GenError::RecursionLimit);
        }
        let ghost s0 = *self;
        let cycle_detected = vec_contains_string(&visited_objects, &src);
        let mut visited = visited_objects;
        if cycle_detected {
            visited.clear();
        }
        let name: String = match self.lookup_known_name(&src) {
            Some(n) => n,
            None => {
                let position_idx = self.types.len();
                let sanitized = sanitize_struct_name(object.name.clone());
                let name = self.get_collision_free_name(sanitized);
                self.known_type_names.push((src.clone(), name.clone()));
                self.types.push(
                    EntryWithPosition {
                        position: self.next_position,
                        payload: GeneratedType {
                            src: src.clone(),
                            name: name.clone(),
                            properties: Vec::new(),
                        },
                    },
                );
                self.next_position = self.types.len() as u64;
                proof {
                    let m0 = s0.known_type_names@;
                    let m1 = self.known_type_names@;
                    assert forall|i: int, j: int| 0 <= i < j < m1.len() implies (#[trigger] m1[i]).0@
                        != (#[trigger] m1[j]).0@ by {
                        if j == m1.len() - 1 {
                            assert(m0[i] == m1[i]);
                            assert(!known_has_src(m0, src@));
                        }
                    }
                    assert forall|i: int, j: int| 0 <= i < j < m1.len() implies (#[trigger] m1[i]).1@
                        != (#[trigger] m1[j]).1@ by {
                        if j == m1.len() - 1 {
                            assert(m0[i] == m1[i]);
                            assert(!known_has_name(m0, name@));
                        }
                    }
                    assert forall|i: int| 0 <= i < self.types@.len() implies known_pair(
                        m1,
                        (#[trigger] self.types@[i]).payload.src@,
                        self.types@[i].payload.name@,
                    ) by {
                        if i < s0.types@.len() {
                            assert(known_pair(
                                m0,
                                s0.types@[i].payload.src@,
                                s0.types@[i].payload.name@,
                            ));
                            let w = choose|w: int|
                                0 <= w < m0.len() && (#[trigger] m0[w]).0@
                                    == s0.types@[i].payload.src@ && m0[w].1@
                                    == s0.types@[i].payload.name@;
                            assert(m1[w] == m0[w]);
                        } else {
                            assert(m1[m1.len() - 1].0@ == src@);
                        }
                    }
                    assert forall|i: int, j: int| 0 <= i < j < self.types@.len() implies (
                    #[trigger] self.types@[i]).payload.src@
                        != (#[trigger] self.types@[j]).payload.src@ by {
                        if j == self.types@.len() - 1 {
                            assert(known_pair(
                                m0,
                                s0.types@[i].payload.src@,
                                s0.types@[i].payload.name@,
                            ));
                            assert(known_has_src(m0, s0.types@[i].payload.src@));
                            assert(!known_has_src(m0, src@));
                        }
                    }
                    assert(self.wf());
                    assert(gen_evolves(s0, *self));
                }
                visited.push(src.clone());
                let ghost s1 = *self;
                let mut new_properties: Vec<GeneratedProperty> = Vec::new();
                let mut i: usize = 0;
                proof {
                    assert(object.dv().properties == crate::parser::properties_v(
                        object.properties@,
                    ));
                }
                while i < object.properties.len()
                    invariant
                        0 <= i <= object.properties@.len(),
                        self.wf(),
                        s0 == *old(self),
                        !known_has_src(s0.known_type_names@, src@),
                        gen_evolves(s1, *self),
                        gen_evolves(s0, s1),
                        s1.types@.len() == position_idx + 1,
                        s1.types@[position_idx as int].payload.src@ == src@,
                        s1.types@[position_idx as int].payload.name@ == name@,
                        fuel >= 1,
                        new_properties@.len() == i,
                        object.dv().properties == crate::parser::properties_v(
                            object.properties@,
                        ),
                        forall|j: int|
                            0 <= j < i ==> property_described(
                                *self,
                                (#[trigger] new_properties@[j]).dv(),
                                object.dv().properties[j],
                            ),
                        fuel >= 3 && simple_object(object.dv()) ==> *self == s1,
                    decreases object.properties@.len() - i,
                {
                    let ghost sb = *self;
                    match self.create_property_rec(
                        base_path,
                        root,
                        &object.properties[i],
                        visited.clone(),
                        fuel - 1,
                    ) {
                        Ok(p) => {
                            proof {
                                assert(object.dv().properties[i as int]
                                    == object.properties@[i as int].dv());
                                assert(property_described(
                                    *self,
                                    p.dv(),
                                    object.properties@[i as int].dv(),
                                ));
                            }
                            new_properties.push(p);
                            proof {
                                assert forall|j: int| 0 <= j < i + 1 implies property_described(
                                    *self,
                                    (#[trigger] new_properties@[j]).dv(),
                                    object.dv().properties[j],
                                ) by {
                                    if j < i {
                                        lemma_matches_persists(
                                            sb,
                                            sb,
                                            *self,
                                            object.dv().properties[j].data_type,
                                            object.dv().properties[j].required,
                                            new_properties@[j].dv().property_type,
                                        );
                                    }
                                }
                                if fuel >= 3 && simple_object(object.dv()) {
                                    assert(object.dv().properties[i as int].data_type is Primitive
                                        || object.dv().properties[i as int].data_type is Any);
                                    lemma_dv_variant(*object.properties@[i as int].data_type);
                                    assert(*self == sb);
                                }
                            }
                        },
                        Err(e) => {
                            proof {
                                lemma_evolves_trans(s1, sb, *self);
                                lemma_evolves_trans(s0, s1, *self);
                                if fuel >= 3 && simple_object(object.dv()) {
                                    assert(object.dv().properties[i as int].data_type is Primitive
                                        || object.dv().properties[i as int].data_type is Any);
                                    assert(object.dv().properties[i as int]
                                        == object.properties@[i as int].dv());
                                    lemma_dv_variant(*object.properties@[i as int].data_type);
                                    assert(false);
                                }
                            }
                            return Err(e);
                        },
                    }
                    proof {
                        lemma_evolves_trans(s1, sb, *self);
                    }
                    i = i + 1;
                }
                let ghost s2 = *self;
                proof {
                    assert(position_idx < self.types@.len());
                    assert(self.types@[position_idx as int].payload.src@ == src@);
                    assert(self.types@[position_idx as int].payload.name@ == name@);
                }
                let ghost kept = new_properties@;
                self.types[position_idx].payload.properties = new_properties;
                proof {
                    assert(self.types@ =~= s2.types@.update(
                        position_idx as int,
                        self.types@[position_idx as int],
                    ));
                    assert(self.types@[position_idx as int].payload.src@ == src@);
                    assert(self.types@[position_idx as int].payload.name@ == name@);
                    assert(self.types@[position_idx as int].payload.properties@ == kept);
                    assert(self.types@[position_idx as int].position == s2.types@[
                        position_idx as int
                    ].position);
                    assert forall|w: int| 0 <= w < self.types@.len() implies known_pair(
                        self.known_type_names@,
                        (#[trigger] self.types@[w]).payload.src@,
                        self.types@[w].payload.name@,
                    ) by {
                        assert(self.types@[w].payload.src@ == s2.types@[w].payload.src@);
                        assert(self.types@[w].payload.name@ == s2.types@[w].payload.name@);
                    }
                    assert(self.wf());
                    assert(gen_evolves(s2, *self));
                    lemma_evolves_trans(s1, s2, *self);
                    lemma_evolves_trans(s0, s1, *self);
                    assert(known_pair(self.known_type_names@, src@, name@)) by {
                        assert(s1.known_type_names@[s1.known_type_names@.len() - 1].0@ == src@);
                    }
                    assert(stored_properties(*self, position_idx as int)
                        == crate::generated::gen_properties_v(kept));
                    assert(stored_properties(*self, position_idx as int).len()
                        == object.dv().properties.len());
                    assert forall|pi: int| 0 <= pi < object.dv().properties.len()
                        implies property_described(
                        *self,
                        #[trigger] stored_properties(*self, position_idx as int)[pi],
                        object.dv().properties[pi],
                    ) by {
                        assert(stored_properties(*self, position_idx as int)[pi]
                            == kept[pi].dv());
                        assert(property_described(s2, kept[pi].dv(), object.dv().properties[pi]));
                        lemma_matches_persists(
                            s2,
                            s2,
                            *self,
                            object.dv().properties[pi].data_type,
                            object.dv().properties[pi].required,
                            kept[pi].dv().property_type,
                        );
                    }
                    if fuel >= 3 && simple_object(object.dv()) {
                        assert(s2 == s1);
                        assert(self.types@.len() == s0.types@.len() + 1);
                        assert(self.known_type_names@.len() == s0.known_type_names@.len() + 1);
                    }
                }
                name
            },
        };
        if cycle_detected {
            let mut b = String::from_str("Box<");
            b.append(name.as_str());
            b.append(">");
            proof {
                assert(b@ =~= box_wrapped(name@));
            }
            Ok(b)
        } else {
            Ok(name)
        }
    }

    /// Builds one field descriptor: the sanitized identifier, a rename
    /// carrying the original spelling when the identifier had to change,
    /// a skip marker when the field is optional, and the field's type
    /// reference.
    fn create_property_rec(
        &mut self,
        base_path: &String,
        root: &Root,
        property: &ObjectProperty,
        visited_objects: Vec<String>,
        fuel: u64,
    ) -> (r: Result<GeneratedProperty, GenError>)
        requires
            old(self).wf(),
        ensures
            final(self).wf(),
            gen_evolves(*old(self), *final(self)),
            fuel >= 2 && ((*property.data_type) is PrimitiveType || (*property.data_type) is Any)
                ==> r is Ok && *final(self) == *old(self),
            fuel >= 2 && (*property.data_type) is Ref ==> (match crate::resolver::spec_resolve(
                cache_v(old(self).resolver.cache@),
                root.dv(),
                (*property.data_type)->Ref_0.ref_path@,
            ) {
                Err(e) => r matches Err(err) && err.dv() == e,
                Ok(res) => r matches Ok(p) ==> reference_matches(
                    *old(self),
                    *final(self),
                    Some(ref_target_src(res)),
                    res.data_type,
                    property.required,
                    p.dv().property_type,
                ),
            }),
            match r {
                Ok(p) => {
                    &&& p.dv().name == property_ident(property.name@)
                    &&& p.dv().rename == (if property_ident(property.name@) == property.name@ {
                        None::<Seq<char>>
                    } else {
                        Some(property.name@)
                    })
                    &&& p.dv().skip_serializing_if == (if property.required {
                        None::<Seq<char>>
                    } else {
                        Some("Option::is_none"@)
                    })
                    &&& reference_matches(
                        *old(self),
                        *final(self),
                        None::<Seq<char>>,
                        (*property.data_type).dv(),
                        property.required,
                        p.dv().property_type,
                    )
                    &&& property_described(*final(self), p.dv(), property.dv())
                },
                Err(_) => true,
            },
        decreases fuel, 0int,
    {
        if fuel == 0 {
            return Err(GenError::RecursionLimit);
        }
        let property_name = sanitize_property_name(property.name.clone());
        let rename = if str_eq(property.name.as_str(), property_name.as_str()) {
            None
        } else {
            Some(property.name.clone())
        };
        let skip_serializing_if = if property.required {
            None
        } else {
            Some(String::from_str("Option::is_none"))
        };
        proof {
            assert(decreases_to!(*property => property.data_type));
        }
        let property_type = match self.add_type_rec(
            base_path,
            root,
            None,
            &property.data_type,
            property.required,
            visited_objects,
            fuel - 1,
        ) {
            Ok(t) => t,
            Err(e) => {
                return Err(e);
            },
        };
        Ok(
            GeneratedProperty {
                name: property_name,
                property_type,
                serde_options: SerdeOptions { rename, skip_serializing_if },
            },
        )
    }

    /// Registers every alternative of a composition for generation; the
    /// usage site itself falls back to the dynamic value type.
    fn add_children_rec(
        &mut self,
        base_path: &String,
        root: &Root,
        types: &Vec<DataType>,
        fuel: u64,
    ) -> (r: Result<(), GenError>)
        requires
            old(self).wf(),
            fuel >= 1,
        ensures
            final(self).wf(),
            gen_evolves(*old(self), *final(self)),
            r is Ok ==> objects_registered(*final(self), types@),
        decreases fuel, 1int,
    {
        let ghost s0 = *self;
        let mut k: usize = 0;
        while k < types.len()
            invariant
                0 <= k <= types@.len(),
                self.wf(),
                s0 == *old(self),
                gen_evolves(s0, *self),
                fuel >= 1,
                forall|j: int|
                    0 <= j < k && (#[trigger] types@[j]) is Object ==> known_has_src(
                        self.known_type_names@,
                        types@[j]->Object_0.src@,
                    ),
            decreases types@.len() - k,
        {
            let ghost sk = *self;
            let child = self.add_type_rec(
                base_path,
                root,
                None,
                &types[k],
                false,
                Vec::new(),
                fuel - 1,
            );
            match child {
                Ok(child_ref) => {
                    proof {
                        lemma_evolves_trans(s0, sk, *self);
                        assert forall|j: int|
                            0 <= j < k + 1 && (#[trigger] types@[j]) is Object
                            implies known_has_src(
                            self.known_type_names@,
                            types@[j]->Object_0.src@,
                        ) by {
                            if j < k {
                                lemma_has_src_persists(sk, *self, types@[j]->Object_0.src@);
                            } else {
                                assert(types@[j].dv() == DataTypeV::Object(
                                    types@[j]->Object_0.dv(),
                                ));
                                assert(types@[j]->Object_0.dv().src == types@[j]->Object_0.src@);
                                assert(object_materialised(
                                    sk,
                                    *self,
                                    types@[j]->Object_0.src@,
                                    false,
                                    child_ref@,
                                ));
                                lemma_materialised_gives_src(
                                    sk,
                                    *self,
                                    types@[j]->Object_0.src@,
                                    false,
                                    child_ref@,
                                );
                            }
                        }
                    }
                },
                Err(e) => {
                    proof {
                        lemma_evolves_trans(s0, sk, *self);
                    }
                    return Err(e);
                },
            }
            k = k + 1;
        }
        Ok(())
    }

    /// The central recursion: materialises one schema node and returns
    /// the type-reference text to embed at the usage site. A field that
    /// may be absent wraps scalars and record references in `Option`;
    /// sequences, mappings and the dynamic value type carry their own
    /// notion of absence and stay bare.
    fn add_type_rec(
        &mut self,
        base_path: &String,
        root: &Root,
        src_override: Option<String>,
        data_type: &DataType,
        required: bool,
        visited_objects: Vec<String>,
        fuel: u64,
    ) -> (r: Result<String, GenError>)
        requires
            old(self).wf(),
        ensures
            final(self).wf(),
            gen_evolves(*old(self), *final(self)),
            fuel >= 1 && (data_type is PrimitiveType || data_type is Any) ==> r is Ok
                && *final(self) == *old(self),
            fuel >= 1 && data_type is Ref ==> (match crate::resolver::spec_resolve(
                cache_v(old(self).resolver.cache@),
                root.dv(),
                data_type->Ref_0.ref_path@,
            ) {
                Err(e) => r matches Err(err) && err.dv() == e,
                Ok(res) => r matches Ok(n) ==> reference_matches(
                    *old(self),
                    *final(self),
                    Some(ref_target_src(res)),
                    res.data_type,
                    required,
                    n@,
                ),
            }),
            match r {
                Ok(n) => reference_matches(
                    *old(self),
                    *final(self),
                    crate::parser::opt_str_v(src_override),
                    data_type.dv(),
                    required,
                    n@,
                ),
                Err(_) => true,
            },
            data_type matches DataType::OneOf(o) ==> (r is Ok ==> objects_registered(
                *final(self),
                o.types@,
            )),
            data_type matches DataType::AnyOf(o) ==> (r is Ok ==> objects_registered(
                *final(self),
                o.types@,
            )),
            data_type matches DataType::AllOf(o) ==> (r is Ok ==> objects_registered(
                *final(self),
                o.types@,
            )),
        decreases fuel, 2int,
    {
        if fuel == 0 {
            return Err(GenError::RecursionLimit);
        }
        match data_type {
            DataType::PrimitiveType(p) => {
                proof {
                    assert(data_type.dv() == DataTypeV::Primitive(*p));
                }
                match p {
                crate::parser::PrimitiveType::Null => Ok(String::from_str("Value")),
                crate::parser::PrimitiveType::Boolean => Ok(
                    wrap_optional(String::from_str("bool"), required),
                ),
                crate::parser::PrimitiveType::Integer => Ok(
                    wrap_optional(String::from_str("i64"), required),
                ),
                crate::parser::PrimitiveType::Number => Ok(
                    wrap_optional(String::from_str("f64"), required),
                ),
                crate::parser::PrimitiveType::String => Ok(
                    wrap_optional(String::from_str("String"), required),
                ),
                }
            },
            DataType::Array(items) => {
                proof {
                    assert(decreases_to!(*data_type => data_type->Array_0));
                }
                let inner = match self.add_type_rec(
                    base_path,
                    root,
                    src_override,
                    items,
                    true,
                    Vec::new(),
                    fuel - 1,
                ) {
                    Ok(t) => t,
                    Err(e) => {
                        return Err(e);
                    },
                };
                let mut out = String::from_str("Vec<");
                out.append(inner.as_str());
                out.append(">");
                proof {
                    assert(out@ =~= "Vec<"@ + inner@ + ">"@);
                    assert(data_type.dv() == DataTypeV::Array(Box::new((**items).dv())));
                    if (**items).dv() is Primitive {
                        assert(inner@ == primitive_ref((**items).dv()->Primitive_0));
                    }
                    if (**items).dv() is Any {
                        assert(inner@ == "Value"@);
                    }
                }
                Ok(out)
            },
            DataType::Object(object) => {
                let src: String = match &src_override {
                    Some(s) => s.clone(),
                    None => object.src.clone(),
                };
                let ghost eff = src@;
                proof {
                    assert(eff == (match crate::parser::opt_str_v(src_override) {
                        Some(sv) => sv,
                        None => object.src@,
                    }));
                }
                let n = match self.add_object_rec(
                    base_path,
                    root,
                    src,
                    object,
                    visited_objects,
                    fuel,
                ) {
                    Ok(n) => n,
                    Err(e) => {
                        return Err(e);
                    },
                };
                let out = wrap_optional(n, required);
                proof {
                    assert(data_type.dv() == DataTypeV::Object(object.dv()));
                    assert(object.dv().src == object.src@);
                    let nm = choose|nm: Seq<char>|
                        #![auto]
                        known_pair(self.known_type_names@, eff, nm) && n@ == (
                        if seq_contains_str(visited_objects@, eff) {
                            box_wrapped(nm)
                        } else {
                            nm
                        });
                    assert(known_pair(self.known_type_names@, eff, nm));
                    if !known_has_src(old(self).known_type_names@, eff) {
                        let slot = old(self).types@.len() as int;
                        assert(self.types@[slot].payload.src@ == eff);
                        assert(known_pair(
                            self.known_type_names@,
                            self.types@[slot].payload.src@,
                            self.types@[slot].payload.name@,
                        ));
                        lemma_pair_functional(
                            *self,
                            eff,
                            nm,
                            self.types@[slot].payload.name@,
                        );
                        assert(self.types@[slot].payload.name@ == nm);
                    }
                    assert(object_materialised(*old(self), *self, eff, required, out@));
                }
                Ok(out)
            },
            DataType::Mapping(value_type) => {
                proof {
                    assert(decreases_to!(*data_type => data_type->Mapping_0));
                }
                let inner = match self.add_type_rec(
                    base_path,
                    root,
                    None,
                    value_type,
                    true,
                    Vec::new(),
                    fuel - 1,
                ) {
                    Ok(t) => t,
                    Err(e) => {
                        return Err(e);
                    },
                };
                let mut out = String::from_str("BTreeMap<String, ");
                out.append(inner.as_str());
                out.append(">");
                proof {
                    assert(out@ =~= "BTreeMap<String, "@ + inner@ + ">"@);
                    assert(data_type.dv() == DataTypeV::Mapping(Box::new((**value_type).dv())));
                    if (**value_type).dv() is Primitive {
                        assert(inner@ == primitive_ref((**value_type).dv()->Primitive_0));
                    }
                    if (**value_type).dv() is Any {
                        assert(inner@ == "Value"@);
                    }
                }
                Ok(out)
            },
            DataType::Ref(rf) => {
                let res = match self.resolver.resolve(root, &rf.ref_path) {
                    Ok(res) => res,
                    Err(e) => {
                        return Err(e);
                    },
                };
                let mut src = res.root.file.clone();
                match &res.path {
                    Some(p) => {
                        src.append("#");
                        src.append(p.as_str());
                    },
                    None => {},
                }
                proof {
                    assert(src@ == ref_target_src(res.dv()));
                }
                let ghost eff = src@;
                let r2 = self.add_type_rec(
                    base_path,
                    &res.root,
                    Some(src),
                    &res.data_type,
                    required,
                    visited_objects,
                    fuel - 1,
                );
                proof {
                    assert(data_type.dv() == DataTypeV::Ref(rf.ref_path@));
                    if r2 is Ok {
                        assert(res.dv().data_type == res.data_type.dv());
                        assert(reference_matches(
                            *old(self),
                            *self,
                            Some(eff),
                            res.data_type.dv(),
                            required,
                            r2->Ok_0@,
                        ));
                    }
                }
                r2
            },
            DataType::OneOf(o) => {
                match self.add_children_rec(base_path, root, &o.types, fuel) {
                    Ok(_) => {
                        proof {
                            assert(data_type.dv() == DataTypeV::OneOf(
                                crate::parser::data_types_v(o.types@),
                            ));
                        }
                        Ok(String::from_str("Value"))
                    },
                    Err(e) => Err(e),
                }
            },
            DataType::AnyOf(o) => {
                match self.add_children_rec(base_path, root, &o.types, fuel) {
                    Ok(_) => {
                        proof {
                            assert(data_type.dv() == DataTypeV::AnyOf(
                                crate::parser::data_types_v(o.types@),
                            ));
                        }
                        Ok(String::from_str("Value"))
                    },
                    Err(e) => Err(e),
                }
            },
            DataType::AllOf(o) => {
                match self.add_children_rec(base_path, root, &o.types, fuel) {
                    Ok(_) => {
                        proof {
                            assert(data_type.dv() == DataTypeV::AllOf(
                                crate::parser::data_types_v(o.types@),
                            ));
                        }
                        Ok(String::from_str("Value"))
                    },
                    Err(e) => Err(e),
                }
            },
            DataType::Any => {
                proof {
                    assert(data_type.dv() == DataTypeV::Any);
                }
                Ok(String::from_str("Value"))
            },
        }
    }
}


impl Generator {
    /// Emits the record for one object, or finds the one its `src`
    /// already has; see [`Generator::add`] for the traversal entry point.
    pub fn add_object(
        &mut self,
        base_path: &String,
        root: &Root,
        src: String,
        object: &Object,
        visited_objects: Vec<String>,
    ) -> (r: Result<String, GenError>)
        requires
            old(self).wf(),
        ensures
            final(self).wf(),
            gen_evolves(*old(self), *final(self)),
            known_has_src(old(self).known_type_names@, src@) ==> r is Ok,
            simple_object(object.dv()) ==> r is Ok,
            simple_object(object.dv()) && !known_has_src(old(self).known_type_names@, src@)
                ==> final(self).types@.len() == old(self).types@.len() + 1
                && final(self).known_type_names@.len() == old(self).known_type_names@.len() + 1,
            match r {
                Ok(n) => {
                    &&& exists|nm: Seq<char>|
                        #![auto]
                        known_pair(final(self).known_type_names@, src@, nm) && n@ == (
                        if seq_contains_str(visited_objects@, src@) {
                            box_wrapped(nm)
                        } else {
                            nm
                        })
                    &&& known_has_src(old(self).known_type_names@, src@) ==> *final(self)
                        == *old(self)
                    &&& !known_has_src(old(self).known_type_names@, src@) ==> {
                        &&& final(self).types@.len() > old(self).types@.len()
                        &&& final(self).types@[old(self).types@.len() as int].payload.src@ == src@
                        &&& exists|k: nat|
                            #![auto]
                            final(self).types@[old(self).types@.len() as int].payload.name@
                                == name_candidate(struct_ident(object.name@), k)
                                && !known_has_name(
                                old(self).known_type_names@,
                                name_candidate(struct_ident(object.name@), k),
                            ) && forall|j: nat|
                                j < k ==> known_has_name(
                                    old(self).known_type_names@,
                                    #[trigger] name_candidate(struct_ident(object.name@), j),
                                )
                        &&& stored_properties(
                            *final(self),
                            old(self).types@.len() as int,
                        ).len() == object.dv().properties.len()
                        &&& forall|pi: int|
                            0 <= pi < object.dv().properties.len() ==> property_described(
                                *final(self),
                                #[trigger] stored_properties(
                                    *final(self),
                                    old(self).types@.len() as int,
                                )[pi],
                                object.dv().properties[pi],
                            )
                    }
                },
                Err(_) => true,
            },
    {
        self.add_object_rec(base_path, root, src, object, visited_objects, GENERATION_FUEL)
    }

    /// Builds one field descriptor; see [`create_property_rec`]'s clauses
    /// carried over: the identifier is the sanitized name, a rename keeps
    /// the original spelling when they differ, and an optional field
    /// carries a skip marker.
    pub fn create_property(
        &mut self,
        base_path: &String,
        root: &Root,
        property: &ObjectProperty,
        visited_objects: Vec<String>,
    ) -> (r: Result<GeneratedProperty, GenError>)
        requires
            old(self).wf(),
        ensures
            final(self).wf(),
            gen_evolves(*old(self), *final(self)),
            (*property.data_type) is PrimitiveType || (*property.data_type) is Any ==> r is Ok
                && *final(self) == *old(self),
            (*property.data_type) is Ref ==> (match crate::resolver::spec_resolve(
                cache_v(old(self).resolver.cache@),
                root.dv(),
                (*property.data_type)->Ref_0.ref_path@,
            ) {
                Err(e) => r matches Err(err) && err.dv() == e,
                Ok(res) => r matches Ok(p) ==> reference_matches(
                    *old(self),
                    *final(self),
                    Some(ref_target_src(res)),
                    res.data_type,
                    property.required,
                    p.dv().property_type,
                ),
            }),
            match r {
                Ok(p) => {
                    &&& property_described(*final(self), p.dv(), property.dv())
                    &&& reference_matches(
                        *old(self),
                        *final(self),
                        None::<Seq<char>>,
                        (*property.data_type).dv(),
                        property.required,
                        p.dv().property_type,
                    )
                },
                Err(_) => true,
            },
    {
        self.create_property_rec(base_path, root, property, visited_objects, GENERATION_FUEL)
    }

    /// Materialises one schema node and returns the type-reference text
    /// for the usage site. An optional field wraps scalars and record
    /// references in `Option`; sequences, mappings and the dynamic value
    /// type stay bare.
    pub fn add_type(
        &mut self,
        base_path: &String,
        root: &Root,
        src_override: Option<String>,
        data_type: &DataType,
        required: bool,
        visited_objects: Vec<String>,
    ) -> (r: Result<String, GenError>)
        requires
            old(self).wf(),
        ensures
            final(self).wf(),
            gen_evolves(*old(self), *final(self)),
            data_type is PrimitiveType || data_type is Any ==> r is Ok && *final(self) == *old(
                self,
            ),
            data_type is Ref ==> (match crate::resolver::spec_resolve(
                cache_v(old(self).resolver.cache@),
                root.dv(),
                data_type->Ref_0.ref_path@,
            ) {
                Err(e) => r matches Err(err) && err.dv() == e,
                Ok(res) => r matches Ok(n) ==> reference_matches(
                    *old(self),
                    *final(self),
                    Some(ref_target_src(res)),
                    res.data_type,
                    required,
                    n@,
                ),
            }),
            match r {
                Ok(n) => reference_matches(
                    *old(self),
                    *final(self),
                    crate::parser::opt_str_v(src_override),
                    data_type.dv(),
                    required,
                    n@,
                ),
                Err(_) => true,
            },
            data_type matches DataType::OneOf(o) ==> (r is Ok ==> objects_registered(
                *final(self),
                o.types@,
            )),
            data_type matches DataType::AnyOf(o) ==> (r is Ok ==> objects_registered(
                *final(self),
                o.types@,
            )),
            data_type matches DataType::AllOf(o) ==> (r is Ok ==> objects_registered(
                *final(self),
                o.types@,
            )),
    {
        self.add_type_rec(
            base_path,
            root,
            src_override,
            data_type,
            required,
            visited_objects,
            GENERATION_FUEL,
        )
    }

    /// The entry point used for whole trees and for composition
    /// alternatives: materialises `data_type` as a non-required usage.
    pub fn add(&mut self, base_path: &String, root: &Root, data_type: &DataType) -> (r: Result<
        String,
        GenError,
    >)
        requires
            old(self).wf(),
        ensures
            final(self).wf(),
            gen_evolves(*old(self), *final(self)),
            data_type is PrimitiveType || data_type is Any ==> r is Ok && *final(self) == *old(
                self,
            ),
            data_type is Ref ==> (match crate::resolver::spec_resolve(
                cache_v(old(self).resolver.cache@),
                root.dv(),
                data_type->Ref_0.ref_path@,
            ) {
                Err(e) => r matches Err(err) && err.dv() == e,
                Ok(res) => r matches Ok(n) ==> reference_matches(
                    *old(self),
                    *final(self),
                    Some(ref_target_src(res)),
                    res.data_type,
                    false,
                    n@,
                ),
            }),
            match r {
                Ok(n) => reference_matches(
                    *old(self),
                    *final(self),
                    None::<Seq<char>>,
                    data_type.dv(),
                    false,
                    n@,
                ),
                Err(_) => true,
            },
            data_type matches DataType::OneOf(o) ==> (r is Ok ==> objects_registered(
                *final(self),
                o.types@,
            )),
            data_type matches DataType::AnyOf(o) ==> (r is Ok ==> objects_registered(
                *final(self),
                o.types@,
            )),
            data_type matches DataType::AllOf(o) ==> (r is Ok ==> objects_registered(
                *final(self),
                o.types@,
            )),
    {
        self.add_type_rec(
            base_path,
            root,
            None,
            data_type,
            false,
            Vec::new(),
            GENERATION_FUEL,
        )
    }

    /// Starts generation at the root node of a loaded file. The file must
    /// already be in the cache under exactly this path, and the path must
    /// have a directory part.
    pub fn add_file(&mut self, path: &String) -> (r: Result<String, GenError>)
        requires
            old(self).wf(),
        ensures
            final(self).wf(),
            gen_evolves(*old(self), *final(self)),
            crate::text::parent_of(path@) is None ==> (r matches Err(e) && e.dv()
                == crate::error::GenErrorV::NoParent(path@)),
            (crate::text::parent_of(path@) is Some && crate::resolver::cache_lookup(
                cache_v(old(self).resolver.cache@),
                path@,
            ) is None) ==> (r matches Err(e) && e.dv() == crate::error::GenErrorV::FileNotFound(
                path@,
            )),
            r is Ok ==> crate::resolver::cache_lookup(
                cache_v(old(self).resolver.cache@),
                path@,
            ) is Some,
            crate::resolver::cache_lookup(cache_v(old(self).resolver.cache@), path@) matches Some(
                target,
            ) ==> (match r {
                Ok(n) => {
                    &&& reference_matches(
                        *old(self),
                        *final(self),
                        None::<Seq<char>>,
                        target.data_type,
                        false,
                        n@,
                    )
                    &&& (target.data_type is Primitive || target.data_type is Any)
                        ==> *final(self) == *old(self)
                },
                Err(_) => true,
            }),
    {
        match parent_dir(path.as_str()) {
            Some(base_path) => {
                let root: Root = match self.resolver.lookup(path) {
                    Some(r) => r.clone(),
                    None => {
                        return Err(GenError::FileNotFound(path.clone()));
                    },
                };
                proof {
                    assert(root.dv().data_type == (*root.data_type).dv());
                    lemma_dv_variant(*root.data_type);
                }
                self.add_type_rec(
                    &base_path,
                    &root,
                    None,
                    &root.data_type,
                    false,
                    Vec::new(),
                    GENERATION_FUEL,
                )
            },
            None => Err(GenError::NoParent(path.clone())),
        }
    }
}

/// Every emitted record's name is distinct from every other's: each
/// record's name is registered under its `src`, srcs are unique, and the
/// registry never holds one name twice.
pub proof fn lemma_record_names_unique(g: Generator)
    requires
        g.wf(),
    ensures
        forall|i: int, j: int|
            0 <= i < j < g.types@.len() ==> (#[trigger] g.types@[i]).payload.name@
                != (#[trigger] g.types@[j]).payload.name@,
{
    let m = g.known_type_names@;
    assert forall|i: int, j: int| 0 <= i < j < g.types@.len() implies (
    #[trigger] g.types@[i]).payload.name@ != (#[trigger] g.types@[j]).payload.name@ by {
        assert(known_pair(m, g.types@[i].payload.src@, g.types@[i].payload.name@));
        assert(known_pair(m, g.types@[j].payload.src@, g.types@[j].payload.name@));
        let wi = choose|w: int|
            0 <= w < m.len() && (#[trigger] m[w]).0@ == g.types@[i].payload.src@ && m[w].1@
                == g.types@[i].payload.name@;
        let wj = choose|w: int|
            0 <= w < m.len() && (#[trigger] m[w]).0@ == g.types@[j].payload.src@ && m[w].1@
                == g.types@[j].payload.name@;
        assert(g.types@[i].payload.src@ != g.types@[j].payload.src@);
        assert(wi != wj);
    }
}

/// Every distinct `src` yields at most one record: two emitted slots
/// never share a `src`.
pub proof fn lemma_record_srcs_unique(g: Generator)
    requires
        g.wf(),
    ensures
        forall|i: int, j: int|
            0 <= i < j < g.types@.len() ==> (#[trigger] g.types@[i]).payload.src@
                != (#[trigger] g.types@[j]).payload.src@,
{
}

/// Emission order is position order: the record in an earlier slot
/// carries the smaller position, so the emitted list is already sorted
/// ascending by position.
pub proof fn lemma_positions_ascending(g: Generator)
    requires
        g.wf(),
    ensures
        forall|i: int, j: int|
            0 <= i < j < g.types@.len() ==> (#[trigger] g.types@[i]).position
                < (#[trigger] g.types@[j]).position,
{
}

} // verus!
