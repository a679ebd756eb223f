//! The ways a single encode call can fail.
//!
//! An error aborts the whole traversal: the caller gets no partial output.

use vstd::prelude::*;

verus! {

/// Why an encode call failed.
#[derive(Clone, Copy, Debug, PartialEq, Eq, Structural)]
pub enum EncodeError {
    /// A mapping key does not split into exactly `kind/field_number`, or its
    /// numeric part is not a decimal field number that fits in 32 bits.
    MalformedKey,
    /// The kind part of a key names none of the six supported kinds.
    UnknownKind,
    /// A value outside an encoder's domain: a non-object root, or a
    /// wire-type code that is not one of the four legal protocol codes.
    InvalidInput,
}

} // verus!
