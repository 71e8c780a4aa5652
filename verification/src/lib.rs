//! A compiler from JSON Schema documents to an ordered, collision-free,
//! cycle-safe list of abstract record descriptors.
//!
//! The pipeline: a JSON value tree is decoded into the schema vocabulary,
//! parsed into a compact sum-type representation, and walked by the
//! generator, which materialises one named record per distinct definition
//! site. Reading files from disk and rendering the descriptors as source
//! text are the surrounding program's work.

use vstd::prelude::*;

pub mod error;
pub mod generated;
pub mod generator;
pub mod json;
pub mod parser;
pub mod ref_parser;
pub mod resolver;
pub mod sanitizer;
pub mod schema;
pub mod text;


verus! {

/// What the emitted record list owes the entry file's own node: a
/// primitive or dynamic-value entry emits nothing, and an object entry
/// emits a record carrying the object's `src`.
pub open spec fn output_covers_entry(
    types: Seq<generated::GeneratedType>,
    target: parser::RootV,
) -> bool {
    match target.data_type {
        parser::DataTypeV::Primitive(_) => types.len() == 0,
        parser::DataTypeV::Any => types.len() == 0,
        parser::DataTypeV::Object(o) => exists|i: int|
            0 <= i < types.len() && (#[trigger] types[i]).src@ == o.src,
        _ => true,
    }
}

/// Runs the whole compilation over a set of already-parsed files: every
/// file is loaded into the resolver's cache under its path, and generation
/// starts at the root of the file named by `path`. On success the records
/// come back in emission order, each with a name and a `src` distinct from
/// every other's.
#[verifier::rlimit(100)]
#[verifier::spinoff_prover]
pub fn generate(files: Vec<(String, parser::Root)>, path: &String) -> (r: Result<
    Vec<generated::GeneratedType>,
    error::GenError,
>)
    ensures
        r matches Ok(types) ==> forall|i: int, j: int|
            0 <= i < j < types@.len() ==> (#[trigger] types@[i]).name@
                != (#[trigger] types@[j]).name@,
        r matches Ok(types) ==> forall|i: int, j: int|
            0 <= i < j < types@.len() ==> (#[trigger] types@[i]).src@
                != (#[trigger] types@[j]).src@,
        r is Ok ==> resolver::cache_lookup(resolver::cache_v(files@), path@) is Some,
        r matches Ok(types) ==> output_covers_entry(
            types@,
            resolver::cache_lookup(resolver::cache_v(files@), path@)->0,
        ),
{
    let ghost files0 = files@;
    let mut generator = generator::Generator::new();
    let mut remaining = files;
    proof {
        assert(files0.subrange(0, files0.len() as int) =~= files0);
        assert(resolver::cache_v(generator.resolver.cache@) =~= resolver::cache_v(
            files0,
        ).subrange(0, 0));
    }
    while remaining.len() > 0
        invariant
            generator.wf(),
            generator.types@.len() == 0,
            generator.known_type_names@.len() == 0,
            remaining@.len() <= files0.len(),
            remaining@ == files0.subrange(files0.len() - remaining@.len(), files0.len() as int),
            resolver::cache_v(generator.resolver.cache@) == resolver::cache_v(files0).subrange(
                0,
                files0.len() - remaining@.len(),
            ),
        decreases remaining@.len(),
    {
        let ghost k = files0.len() - remaining@.len();
        proof {
            assert(remaining@[0] == files0[k as int]);
        }
        let (p, root) = remaining.remove(0);
        proof {
            assert(remaining@ =~= files0.subrange(k as int + 1, files0.len() as int));
        }
        generator.load_root(p, root);
        proof {
            assert(resolver::cache_v(files0)[k as int] == (
                files0[k as int].0@,
                files0[k as int].1.dv(),
            ));
            assert(resolver::cache_v(generator.resolver.cache@) =~= resolver::cache_v(
                files0,
            ).subrange(0, k as int + 1));
        }
    }
    proof {
        assert(resolver::cache_v(generator.resolver.cache@) =~= resolver::cache_v(files0));
    }
    let ghost g_pre = generator;
    let ghost entry_ref: Seq<char> = Seq::empty();
    match generator.add_file(path) {
        Ok(n) => {
            proof {
                entry_ref = n@;
            }
        },
        Err(e) => {
            return Err(e);
        },
    }
    proof {
        generator::lemma_record_names_unique(generator);
        generator::lemma_record_srcs_unique(generator);
    }
    let ghost g = generator;
    let types = generator.into_types();
    proof {
        assert forall|i: int, j: int| 0 <= i < j < types@.len() implies (#[trigger] types@[i]).name@
            != (#[trigger] types@[j]).name@ && (#[trigger] types@[i]).src@ != (
        #[trigger] types@[j]).src@ by {
            assert(types@[i] == g.types@[i].payload);
            assert(types@[j] == g.types@[j].payload);
        }
        assert(files0 == files@);
        assert(resolver::cache_v(g_pre.resolver.cache@) == resolver::cache_v(files0));
        assert(resolver::cache_lookup(resolver::cache_v(files0), path@) is Some);
        let target = resolver::cache_lookup(resolver::cache_v(files0), path@)->0;
        if target.data_type is Primitive || target.data_type is Any {
            assert(g == g_pre);
            assert(types@.len() == 0);
        }
        if target.data_type is Object {
            let o = target.data_type->Object_0;
            assert(generator::object_materialised(g_pre, g, o.src, false, entry_ref));
            let nm = choose|nm: Seq<char>|
                #[trigger] generator::known_pair(g.known_type_names@, o.src, nm) && (
                entry_ref == generator::opt_wrapped(nm) || entry_ref == generator::opt_wrapped(
                    generator::box_wrapped(nm),
                )) && (!generator::known_has_src(g_pre.known_type_names@, o.src)
                    ==> exists|si: int|
                    g_pre.types@.len() <= si < g.types@.len() && (
                    #[trigger] g.types@[si]).payload.src@ == o.src && g.types@[si].payload.name@
                        == nm);
            assert(!generator::known_has_src(g_pre.known_type_names@, o.src));
            let slot = choose|si: int|
                g_pre.types@.len() <= si < g.types@.len() && (#[trigger] g.types@[si]).payload.src@
                    == o.src && g.types@[si].payload.name@ == nm;
            assert(types@[slot] == g.types@[slot].payload);
            assert(types@[slot].src@ == o.src);
        }
        assert(output_covers_entry(
            types@,
            resolver::cache_lookup(resolver::cache_v(files@), path@)->0,
        ));
    }
    Ok(types)
}

} // verus!
