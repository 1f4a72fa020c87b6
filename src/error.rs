use vstd::prelude::*;

verus! {

/// Describes an attempt to allocate more bytes than the configured ceiling.
#[derive(Debug, Clone)]
pub struct AllocationError(pub String);

impl AllocationError {
    pub fn new(msg: &str) -> (r: AllocationError)
        ensures
            r.0@ == msg@,
    {
        AllocationError(msg.to_owned())
    }
}

/// Describes a failure while decoding binary data.
#[derive(Debug, Clone)]
pub struct DecodeError(pub String);

impl DecodeError {
    pub fn new(msg: &str) -> (r: DecodeError)
        ensures
            r.0@ == msg@,
    {
        DecodeError(msg.to_owned())
    }
}

/// Every failure that the library reports.
#[derive(Debug, Clone)]
pub enum Error {
    /// More variable-length groups were read than a 64-bit integer can hold.
    DecodeOverflow(DecodeError),
    /// A decoded 64-bit value does not fit the requested 32-bit width.
    DecodeRange(DecodeError),
    /// The input ended inside a variable-length integer.
    UnexpectedEnd,
    /// A length read from untrusted input exceeds the allocation ceiling.
    AllocationExceeded { requested: usize, ceiling: usize, error: AllocationError },
    /// A value does not conform to the writer's schema.
    EncodingMismatch,
    /// The serializer rejected a value before it reached the encoder.
    SerializationFailure(String),
}

} // verus!
