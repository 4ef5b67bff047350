//! Domain-level error kinds shared by the whole engine.
//!
//! Invariant violations surface as recoverable values of this enum, never as
//! panics; per-batch failures travel downstream as failed stream items.

use vstd::prelude::*;

verus! {

/// The closed set of domain errors of the execution core.
#[derive(Clone, Copy, Debug, PartialEq, Eq, Structural)]
pub enum Error {
    /// A mask, column or expression length disagreement.
    LengthMismatch,
    /// A column vector of the wrong variant where another was required.
    TypeMismatch,
    /// A name not found in a schema or data source.
    UnknownColumn,
    /// A name collision while building a join output schema.
    DuplicateColumnName,
    /// An aggregate expression evaluated outside an aggregation context.
    UnsupportedContext,
    /// An opaque failure bubbled up from a data source.
    SourceError,
}

impl Error {
    /// A short human-readable name for the error kind.
    pub fn describe(&self) -> &'static str {
        match self {
            Error::LengthMismatch => "length mismatch",
            Error::TypeMismatch => "type mismatch",
            Error::UnknownColumn => "unknown column",
            Error::DuplicateColumnName => "duplicate column name",
            Error::UnsupportedContext => "unsupported context",
            Error::SourceError => "source error",
        }
    }
}

} // verus!
