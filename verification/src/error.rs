//! Failures of a whole computation. Every fatal condition short-circuits the
//! computation that met it; no partial result is ever returned.

use vstd::prelude::*;
use crate::text::Text;

verus! {

/// Why a computation, or a reference-dataset load, was refused.
#[derive(Clone, Copy, Debug, PartialEq, Eq, Structural)]
pub enum Error {
    /// Two reference records share one fatty-acid identity, so a join would
    /// be ambiguous. Raised when the reference dataset is built, never during
    /// a per-call join.
    DuplicateReference,
    /// A value left the representable fixed-point band, so the result could
    /// not be stored exactly.
    ValueOutOfRange,
}

impl Text for Error {
    fn text(&self) -> &'static str {
        match self {
            Error::DuplicateReference => "duplicate reference identity",
            Error::ValueOutOfRange => "value out of range",
        }
    }

    fn hover_text(&self) -> &'static str {
        match self {
            Error::DuplicateReference => "two reference records carry the same fatty acid",
            Error::ValueOutOfRange => "a computed metric exceeds the representable magnitude",
        }
    }
}

} // verus!
