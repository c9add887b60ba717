//! The typed error surfaced by representation extraction: a missing or
//! type-mismatched log attribute, carrying the level it was looked up at, the
//! attribute key, and what went wrong. Extraction propagates it to the
//! comparator's caller; it is never recovered locally.

use vstd::prelude::*;

verus! {

/// Where in the log structure an attribute was looked up.
#[derive(Clone, Copy, Debug, PartialEq, Eq, Structural)]
pub enum AttributeLevel {
    Event,
    Trace,
    Log,
}

/// What went wrong with the attribute: it was absent, or it carried a value
/// of an unexpected type (expected type name, description of the found
/// value).
#[derive(Clone, Debug, PartialEq, Eq)]
pub enum AttributeErrorKind {
    MissingAttribute,
    TypeMismatch(String, String),
}

/// A missing or type-mismatched attribute, with the level and key it was
/// looked up under.
#[derive(Clone, Debug, PartialEq, Eq)]
pub struct AttributeError {
    pub level: AttributeLevel,
    pub key: String,
    pub kind: AttributeErrorKind,
}

impl AttributeError {
    pub fn new(level: AttributeLevel, key: String, kind: AttributeErrorKind) -> (r: AttributeError)
        ensures
            r.level == level,
            r.key == key,
            r.kind == kind,
    {
        AttributeError { level, kind, key }
    }
}

pub type AttributeResult<T> = Result<T, AttributeError>;

} // verus!
