use vstd::prelude::*;

verus! {

/// The failure conditions surfaced by the buffer and the codecs.
///
/// Every fallible operation of this crate reports one of these
/// conditions instead of aborting.
#[derive(Clone, Copy, Debug, PartialEq, Eq, Structural)]
pub enum Error {
    /// Growth would exceed the configured maximum capacity, or a single
    /// request exceeds the maximum representable magnitude.
    CapacityExceeded,
    /// The underlying memory request was denied.
    AllocationFailed,
    /// An anchor offset is inconsistent with the current buffer state.
    InvalidAnchor,
    /// A decode needs more bytes than the span provides.
    InsufficientData,
    /// A caller-provided fixed buffer is too small for a direct-write encode.
    InsufficientSpace,
    /// The payload bytes do not form a valid value.
    InvalidEncoding,
}

impl Error {
    /// A human-readable description of the condition.
    pub fn message(&self) -> (r: String)
        ensures
            *self is CapacityExceeded ==> r@ == "maximum capacity has been reached."@,
            *self is AllocationFailed ==> r@ == "out of memory."@,
            *self is InvalidAnchor ==> r@ == "allocator has been modified unexpectedly!"@,
            *self is InsufficientData ==> r@ == "not enough bytes."@,
            *self is InsufficientSpace ==> r@ == "not enough bytes to write."@,
            *self is InvalidEncoding ==> r@ == "invalid bytes."@,
    {
        match self {
            Error::CapacityExceeded => "maximum capacity has been reached.".to_owned(),
            Error::AllocationFailed => "out of memory.".to_owned(),
            Error::InvalidAnchor => "allocator has been modified unexpectedly!".to_owned(),
            Error::InsufficientData => "not enough bytes.".to_owned(),
            Error::InsufficientSpace => "not enough bytes to write.".to_owned(),
            Error::InvalidEncoding => "invalid bytes.".to_owned(),
        }
    }
}

} // verus!
