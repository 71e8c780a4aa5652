//! Splitting a reference string into its file part and its local part.
//! The grammar is `[file]?('#' [local])?`; a second `#` is malformed.

use vstd::prelude::*;
use crate::error::GenError;
use crate::text::{first_index_of, find_first_char, lemma_first_index_of, lemma_first_index_char};
use vstd::string::StrSliceExecFns;

verus! {

/// A reference, split at its `#`.
#[derive(Debug, PartialEq)]
pub struct RefPath {
    pub file: Option<String>,
    pub path: Option<String>,
}

/// The mathematical shape of a [`RefPath`].
#[verifier::ext_equal]
pub struct RefPathV {
    pub file: Option<Seq<char>>,
    pub path: Option<Seq<char>>,
}

impl RefPath {
    /// The split reference as its mathematical shape.
    pub open spec fn dv(self) -> RefPathV {
        RefPathV {
            file: match self.file {
                Some(f) => Some(f@),
                None => None,
            },
            path: match self.path {
                Some(p) => Some(p@),
                None => None,
            },
        }
    }
}

/// Splitting a reference at its `#`: an empty side is an absent side,
/// and more than one `#` is malformed.
pub open spec fn spec_parse_ref(s: Seq<char>) -> Option<RefPathV> {
    let i = first_index_of(s, '#');
    if i == -1 {
        Some(
            RefPathV {
                file: if s.len() == 0 {
                    None
                } else {
                    Some(s)
                },
                path: None,
            },
        )
    } else if exists|j: int| i < j < s.len() && s[j] == '#' {
        None
    } else {
        Some(
            RefPathV {
                file: if i == 0 {
                    None
                } else {
                    Some(s.subrange(0, i))
                },
                path: if i == s.len() - 1 {
                    None
                } else {
                    Some(s.subrange(i + 1, s.len() as int))
                },
            },
        )
    }
}

/// Splits a reference string; a reference holding more than one `#`
/// is rejected as malformed.
pub fn parse_ref(full_path: String) -> (r: Result<RefPath, GenError>)
    ensures
        match r {
            Ok(rp) => spec_parse_ref(full_path@) == Some(rp.dv()),
            Err(e) => spec_parse_ref(full_path@) is None && (e matches GenError::BadRef(p)
                && p@ == full_path@),
        },
{
    let s = full_path.as_str();
    let n = s.unicode_len();
    proof {
        lemma_first_index_of(s@, '#');
    }
    match find_first_char(s, '#') {
        None => Ok(RefPath { file: if n == 0 { None } else { Some(full_path.clone()) }, path: None }),
        Some(i) => {
            let after = s.substring_char(i + 1, n);
            proof {
                assert(after@ =~= s@.subrange(i as int + 1, s@.len() as int));
            }
            match find_first_char(after, '#') {
                Some(k) => {
                    proof {
                        lemma_first_index_of(after@, '#');
                        assert(s@[i as int + 1 + k as int] == '#');
                    }
                    Err(GenError::BadRef(full_path))
                },
                None => {
                    proof {
                        lemma_first_index_of(after@, '#');
                        assert forall|j: int| i < j < s@.len() implies s@[j] != '#' by {
                            if j > i {
                                assert(after@[j - i - 1] == s@[j]);
                            }
                        }
                    }
                    let file = if i == 0 {
                        None
                    } else {
                        Some(s.substring_char(0, i).to_owned())
                    };
                    let path = if i + 1 == n {
                        None
                    } else {
                        Some(s.substring_char(i + 1, n).to_owned())
                    };
                    proof {
                        if i as int != s@.len() - 1 {
                            assert(s@.subrange(i as int + 1, s@.len() as int).len() > 0);
                        }
                    }
                    Ok(RefPath { file, path })
                },
            }
        },
    }
}

} // verus!
