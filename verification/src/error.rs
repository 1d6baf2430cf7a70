//! The ways in which a stream or a value can be refused.

use vstd::prelude::*;

verus! {

/// Why a value or a stream was refused.
#[derive(Clone, Copy, Debug, PartialEq, Eq, Structural)]
pub enum ZwlError {
    /// The header of a stream names no supported code width or no overflow
    /// policy, or more bits were given than a code of the type can hold.
    Format,
    /// A code of the stream cannot be resolved against the dictionary that
    /// the codes before it built.
    DictionaryInvariantViolation,
    /// A number needs more bits than a code of the type has.
    BitWidthOverflow,
}

} // verus!
