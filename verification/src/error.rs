//! Error taxonomy of the schema compiler. Every error aborts the whole
//! generation; there is no partial emission.

use vstd::prelude::*;

verus! {

/// Why a generation run was abandoned.
///
/// `FileNotFound` names a file that the resolver needed but that was not
/// loaded into its cache; the caller may load it and start over.
#[derive(Debug, PartialEq, Eq)]
pub enum GenError {
    /// A referenced schema file is not in the resolver's cache.
    FileNotFound(String),
    /// A schema document does not have the structure the vocabulary asks for.
    ParseError(String),
    /// A reference string is malformed or its fragment is not a definition.
    BadRef(String),
    /// A fragment names a definition the target file does not hold.
    MissingDefinition(String),
    /// A path without a directory part was handed to the generator.
    NoParent(String),
    /// The traversal exceeded its recursion allowance.
    RecursionLimit,
}

/// The mathematical shape of a [`GenError`].
pub enum GenErrorV {
    FileNotFound(Seq<char>),
    ParseError(Seq<char>),
    BadRef(Seq<char>),
    MissingDefinition(Seq<char>),
    NoParent(Seq<char>),
    RecursionLimit,
}

impl GenError {
    /// The error as its mathematical shape.
    pub open spec fn dv(self) -> GenErrorV {
        match self {
            GenError::FileNotFound(s) => GenErrorV::FileNotFound(s@),
            GenError::ParseError(s) => GenErrorV::ParseError(s@),
            GenError::BadRef(s) => GenErrorV::BadRef(s@),
            GenError::MissingDefinition(s) => GenErrorV::MissingDefinition(s@),
            GenError::NoParent(s) => GenErrorV::NoParent(s@),
            GenError::RecursionLimit => GenErrorV::RecursionLimit,
        }
    }
}

} // verus!
