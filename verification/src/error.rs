//! Error taxonomy of the content store.
//!
//! Decoding a single document can fail with [`DecodeError`]; validating a
//! whole cache can fail with [`ValidationError`]; point lookups can fail
//! with [`NotFoundError`]. A poisoned shared-state handle is reported with
//! a [`StringError`] by the adapter that owns the lock.

use vstd::prelude::*;

verus! {

/// A plain error message carrier.
pub struct StringError {
    pub data: String,
}

impl StringError {
    /// Wraps the given message.
    pub fn new(s: &str) -> (r: StringError)
        ensures
            r.data@ == s@,
    {
        StringError { data: s.to_owned() }
    }

    /// The wrapped message.
    pub fn message(&self) -> (r: &str)
        ensures
            r@ == self.data@,
    {
        self.data.as_str()
    }
}

/// Failure to decode one structured-text document.
#[derive(Clone, Copy, Debug, PartialEq, Eq, Structural)]
pub enum DecodeError {
    /// The document text is not well formed.
    Syntax,
    /// The document is well formed but does not have the expected shape.
    Malformed,
}

/// Failure of the whole-cache validation pass.
#[derive(Clone, Copy, Debug, PartialEq, Eq, Structural)]
pub enum ValidationError {
    /// A declared field holds a value whose tag differs from the declared type.
    TypeMismatch,
    /// A reference field is declared against an entity type the cache does not know.
    UnknownReferenceType,
    /// A reference field names an entity id absent from the target type's group.
    UnknownReferenceEntity,
}

/// Failure of a query evaluation.
#[derive(Clone, Copy, Debug, PartialEq, Eq, Structural)]
pub enum QueryError {
    /// The query asks for an entity type the cache does not hold.
    UnknownType,
    /// The query asks to sort by a field that some selected record lacks
    /// or does not hold as a string.
    UnsortableField,
}

/// A point lookup missed.
#[derive(Clone, Copy, Debug, PartialEq, Eq, Structural)]
pub enum NotFoundError {
    /// No group is registered under the requested entity-type name.
    UnknownType,
    /// The group holds no entity under the requested id.
    UnknownEntity,
    /// The entity holds no field under the requested name.
    UnknownField,
}

} // verus!
