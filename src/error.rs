//! The ways a derivation can fail. Every failure is fatal for the type.
use vstd::prelude::*;

verus! {

/// Why a declaration yields no descriptor.
#[derive(Debug, PartialEq, Eq)]
pub enum DeriveError {
    /// The namespace annotation is not a parenthesized list.
    MalformedAnnotationShape,
    /// An entry of the namespace annotation is not a plain `name = literal` pair.
    UnsupportedAnnotationEntry,
    /// More entries than recognized argument names.
    TooManyArguments { supplied: usize, recognized: usize },
    /// An entry whose name is not recognized; the name is carried.
    UnrecognizedArgumentName(String),
    /// A recognized name given a second time; the name is carried.
    DuplicateArgument(String),
    /// Neither `path` nor `serialized` was given.
    MissingInputSource,
    /// Both `path` and `serialized` were given.
    ConflictingInputSource,
    /// The field at this position has no name.
    UnnamedFieldUnsupported { index: usize },
    /// The type is not a structure with a field list.
    UnsupportedDataShape,
}

} // verus!
