//! The decoder's single error kind.

use vstd::prelude::*;

verus! {

/// Error raised when a byte sequence cannot be parsed as a valid node under
/// the active layout's grammar: truncated input, reserved bitmap bits set,
/// an undecodable header tag, nonzero padding bits, or a size-codec
/// continuation run that exceeds the maximum count without terminating.
#[derive(Debug, PartialEq, Eq, Clone, Structural)]
pub enum ReferenceError {
    /// Bad format.
    BadFormat,
}

impl ReferenceError {
    /// A short human-readable rendering of the error.
    pub fn message(&self) -> (r: &'static str)
        ensures
            r@ == "codec error"@,
    {
        "codec error"
    }
}

} // verus!
