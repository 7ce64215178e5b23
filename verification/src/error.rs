//! The ways in which a call can fail.

use vstd::prelude::*;

verus! {

/// Why a call gave no result.
#[derive(Clone, Copy, Debug, PartialEq, Eq, Structural)]
pub enum RomanizeError {
    /// The caller asked for an output shape that does not exist.
    InvalidFormat,
    /// The lattice holds no path from its first to its last position.
    InternalInconsistency,
}

/// The text that describes an error to a caller.
pub open spec fn error_message(e: RomanizeError) -> Seq<char> {
    match e {
        RomanizeError::InvalidFormat => "Invalid format. Must be 'str', 'edges', 'alts', or 'lattice'."@,
        RomanizeError::InternalInconsistency => "Internal inconsistency: no path covers the whole input."@,
    }
}

impl RomanizeError {
    /// The text that describes the error to a caller.
    pub fn message(&self) -> (text: &'static str)
        ensures
            text@ == error_message(*self),
    {
        match self {
            RomanizeError::InvalidFormat => "Invalid format. Must be 'str', 'edges', 'alts', or 'lattice'.",
            RomanizeError::InternalInconsistency => "Internal inconsistency: no path covers the whole input.",
        }
    }
}

} // verus!
