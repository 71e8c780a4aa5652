//! Resolution of reference strings against parsed files. The resolver
//! holds a cache of parsed roots keyed by the path string under which
//! a file was reached; during one generation the cache only grows, and
//! the same textual key always yields the same root.
//!
//! A reference whose file part names a path that is not in the cache is
//! reported as [`GenError::FileNotFound`]; the caller may parse that file,
//! load it, and start over.

use vstd::prelude::*;
use crate::error::{GenError, GenErrorV};
use crate::parser::{DataType, DataTypeV, Root, RootV};
use crate::ref_parser::{RefPath, parse_ref, spec_parse_ref};
use crate::text::{joined_path, parent_of, parent_dir, join_path, split_parts};

verus! {

/// What a reference resolved to: the root of the file it lives in, the
/// local part of the reference (when there was one), and the node itself.
#[derive(Debug, PartialEq)]
pub struct ResolveResult {
    pub root: Root,
    pub path: Option<String>,
    pub data_type: DataType,
}

/// The mathematical shape of a [`ResolveResult`].
#[verifier::ext_equal]
pub struct ResolveResultV {
    pub root: RootV,
    pub path: Option<Seq<char>>,
    pub data_type: DataTypeV,
}

impl ResolveResult {
    /// The result as its mathematical shape.
    pub open spec fn dv(self) -> ResolveResultV {
        ResolveResultV {
            root: self.root.dv(),
            path: match self.path {
                Some(p) => Some(p@),
                None => None,
            },
            data_type: self.data_type.dv(),
        }
    }
}

/// A cache of parsed files.
pub struct Resolver {
    pub cache: Vec<(String, Root)>,
}

/// View of the cache contents.
pub open spec fn cache_v(c: Seq<(String, Root)>) -> Seq<(Seq<char>, RootV)> {
    Seq::new(
        c.len(),
        |i: int| if 0 <= i < c.len() {
            (c[i].0@, c[i].1.dv())
        } else {
            (
                Seq::empty(),
                RootV { file: Seq::empty(), data_type: DataTypeV::Any, definitions: Seq::empty() },
            )
        },
    )
}

/// The root cached under `key`, scanning entries in load order.
pub open spec fn cache_lookup(c: Seq<(Seq<char>, RootV)>, key: Seq<char>) -> Option<RootV>
    decreases c.len(),
{
    if c.len() == 0 {
        None
    } else if c[0].0 == key {
        Some(c[0].1)
    } else {
        cache_lookup(c.drop_first(), key)
    }
}

/// The definition under `name`, where a later entry shadows an earlier
/// one of the same name.
pub open spec fn defs_lookup(defs: Seq<(Seq<char>, DataTypeV)>, name: Seq<char>) -> Option<
    DataTypeV,
>
    decreases defs.len(),
{
    if defs.len() == 0 {
        None
    } else if defs.last().0 == name {
        Some(defs.last().1)
    } else {
        defs_lookup(defs.drop_last(), name)
    }
}

/// Looking a local fragment up among a file's definitions: the fragment
/// must read `/definitions/NAME` or `/$defs/NAME`, and the definition
/// must exist.
pub open spec fn spec_deref(path: Seq<char>, defs: Seq<(Seq<char>, DataTypeV)>) -> Result<
    DataTypeV,
    GenErrorV,
> {
    let parts = split_parts(path, '/');
    if parts.len() == 2 {
        if parts[0] == "definitions"@ || parts[0] == "$defs"@ {
            match defs_lookup(defs, parts[1]) {
                Some(dt) => Ok(dt),
                None => Err(GenErrorV::MissingDefinition(path)),
            }
        } else {
            Err(GenErrorV::BadRef(path))
        }
    } else {
        Err(GenErrorV::BadRef(path))
    }
}

/// Resolution inside a chosen file: a local fragment is looked up among
/// its definitions, and an absent fragment yields the file's own node.
pub open spec fn spec_resolve_in(root: RootV, path: Option<Seq<char>>) -> Result<
    ResolveResultV,
    GenErrorV,
> {
    match path {
        Some(p) => match spec_deref(p, root.definitions) {
            Ok(dt) => Ok(ResolveResultV { root: root, path: Some(p), data_type: dt }),
            Err(e) => Err(e),
        },
        None => Ok(
            ResolveResultV { root: root, path: None, data_type: root.data_type },
        ),
    }
}

/// Resolution of a reference string against a current root and a cache:
/// the file part, joined against the current file's directory, picks the
/// target root out of the cache; the local part picks the node.
pub open spec fn spec_resolve(
    cache: Seq<(Seq<char>, RootV)>,
    root: RootV,
    ref_path: Seq<char>,
) -> Result<ResolveResultV, GenErrorV> {
    match spec_parse_ref(ref_path) {
        None => Err(GenErrorV::BadRef(ref_path)),
        Some(rp) => match rp.file {
            Some(f) => match parent_of(root.file) {
                None => Err(GenErrorV::NoParent(root.file)),
                Some(base) => {
                    let key = joined_path(base, f);
                    match cache_lookup(cache, key) {
                        None => Err(GenErrorV::FileNotFound(key)),
                        Some(target) => spec_resolve_in(target, rp.path),
                    }
                },
            },
            None => spec_resolve_in(root, rp.path),
        },
    }
}

impl Resolver {
    /// A resolver with an empty cache.
    pub fn new() -> (r: Self)
        ensures
            cache_v(r.cache@) == Seq::<(Seq<char>, RootV)>::empty(),
    {
        let r = Resolver { cache: Vec::new() };
        proof {
            assert(cache_v(r.cache@) =~= Seq::<(Seq<char>, RootV)>::empty());
        }
        r
    }

    /// Caches a parsed root under the path it was reached by.
    pub fn load(&mut self, file: String, root: Root)
        ensures
            cache_v(final(self).cache@) == cache_v(old(self).cache@).push((file@, root.dv())),
    {
        let ghost c0 = cache_v(self.cache@);
        self.cache.push((file, root));
        proof {
            assert(cache_v(self.cache@) =~= c0.push(
                (self.cache@.last().0@, self.cache@.last().1.dv()),
            ));
        }
    }

    /// Finds the root cached under `key`.
    pub(crate) fn lookup(&self, key: &String) -> (r: Option<&Root>)
        ensures
            match r {
                Some(root) => cache_lookup(cache_v(self.cache@), key@) == Some(root.dv()),
                None => cache_lookup(cache_v(self.cache@), key@) is None,
            },
    {
        let ghost cv = cache_v(self.cache@);
        proof {
            assert(cv.subrange(0, cv.len() as int) =~= cv);
        }
        let mut i: usize = 0;
        while i < self.cache.len()
            invariant
                0 <= i <= self.cache@.len(),
                cv == cache_v(self.cache@),
                cache_lookup(cv, key@) == cache_lookup(
                    cv.subrange(i as int, cv.len() as int),
                    key@,
                ),
            decreases self.cache@.len() - i,
        {
            let ghost tail = cv.subrange(i as int, cv.len() as int);
            proof {
                assert(tail.len() > 0);
                assert(tail[0] == (self.cache@[i as int].0@, self.cache@[i as int].1.dv()));
                assert(tail.drop_first() =~= cv.subrange(i as int + 1, cv.len() as int));
            }
            if crate::text::str_eq(self.cache[i].0.as_str(), key.as_str()) {
                return Some(&self.cache[i].1);
            }
            i = i + 1;
        }
        proof {
            assert(cv.subrange(i as int, cv.len() as int).len() == 0);
        }
        None
    }

    /// Finds a definition by name, where a later entry shadows an
    /// earlier one.
    fn find_definition<'a>(defs: &'a Vec<(String, DataType)>, name: &String) -> (r: Option<
        &'a DataType,
    >)
        ensures
            match r {
                Some(dt) => defs_lookup(crate::parser::definitions_v(defs@), name@) == Some(
                    dt.dv(),
                ),
                None => defs_lookup(crate::parser::definitions_v(defs@), name@) is None,
            },
    {
        let ghost dv = crate::parser::definitions_v(defs@);
        proof {
            assert(dv.subrange(0, dv.len() as int) =~= dv);
        }
        let mut i: usize = defs.len();
        while i > 0
            invariant
                0 <= i <= defs@.len(),
                dv == crate::parser::definitions_v(defs@),
                defs_lookup(dv, name@) == defs_lookup(dv.subrange(0, i as int), name@),
            decreases i,
        {
            let prev: usize = i - 1;
            let ghost head = dv.subrange(0, i as int);
            proof {
                assert(head.len() > 0);
                assert(head.last() == (defs@[prev as int].0@, defs@[prev as int].1.dv()));
                assert(head.drop_last() =~= dv.subrange(0, prev as int));
            }
            if crate::text::str_eq(defs[prev].0.as_str(), name.as_str()) {
                return Some(&defs[prev].1);
            }
            i = prev;
        }
        proof {
            assert(dv.subrange(0, 0).len() == 0);
        }
        None
    }

    /// Looks a local fragment up among a file's definitions.
    fn deref(path: &String, root_definitions: &Vec<(String, DataType)>) -> (r: Result<
        DataType,
        GenError,
    >)
        ensures
            match r {
                Ok(dt) => spec_deref(path@, crate::parser::definitions_v(root_definitions@))
                    == Ok::<DataTypeV, GenErrorV>(dt.dv()),
                Err(e) => spec_deref(path@, crate::parser::definitions_v(root_definitions@))
                    == Err::<DataTypeV, GenErrorV>(e.dv()),
            },
    {
        let parts = crate::text::split_string(path.as_str(), '/');
        let ghost pv = split_parts(path@, '/');
        proof {
            assert(crate::schema::strings_v(parts@) == pv);
            assert(parts@.len() == pv.len());
        }
        if parts.len() == 2 {
            proof {
                assert(parts@[0]@ == pv[0]);
                assert(parts@[1]@ == pv[1]);
            }
            let head_ok = crate::text::str_eq(parts[0].as_str(), "definitions")
                || crate::text::str_eq(parts[0].as_str(), "$defs");
            if head_ok {
                match Self::find_definition(root_definitions, &parts[1]) {
                    Some(dt) => Ok(dt.clone()),
                    None => Err(GenError::MissingDefinition(path.clone())),
                }
            } else {
                Err(GenError::BadRef(path.clone()))
            }
        } else {
            Err(GenError::BadRef(path.clone()))
        }
    }

    /// Resolves a reference string against a current root, using the
    /// cache for references that cross files.
    pub fn resolve(&self, root: &Root, ref_path: &String) -> (r: Result<ResolveResult, GenError>)
        ensures
            match r {
                Ok(res) => spec_resolve(cache_v(self.cache@), root.dv(), ref_path@)
                    == Ok::<ResolveResultV, GenErrorV>(res.dv()),
                Err(e) => spec_resolve(cache_v(self.cache@), root.dv(), ref_path@)
                    == Err::<ResolveResultV, GenErrorV>(e.dv()),
            },
    {
        let rp = match parse_ref(ref_path.clone()) {
            Ok(rp) => rp,
            Err(e) => {
                return Err(e);
            },
        };
        let file: Option<String> = match &rp.file {
            Some(f) => match parent_dir(root.file.as_str()) {
                Some(base) => Some(join_path(base.as_str(), f.as_str())),
                None => {
                    return Err(GenError::NoParent(root.file.clone()));
                },
            },
            None => None,
        };
        let target: &Root = match &file {
            Some(key) => match self.lookup(key) {
                Some(troot) => troot,
                None => {
                    return Err(GenError::FileNotFound(key.clone()));
                },
            },
            None => root,
        };
        let data_type: DataType = match &rp.path {
            Some(p) => match Self::deref(p, &target.definitions) {
                Ok(dt) => dt,
                Err(e) => {
                    return Err(e);
                },
            },
            None => (*target.data_type).clone(),
        };
        Ok(ResolveResult { root: target.clone(), path: rp.path, data_type })
    }
}

} // verus!
