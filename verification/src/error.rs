//! Protobuf encoding and decoding errors.

use vstd::prelude::*;

use crate::wire_type::WireType;

verus! {

/// A Protobuf message decoding error.
///
/// `DecodeError` indicates that the input buffer does not contain a valid
/// Protobuf message. The set of failure kinds is closed so that callers can
/// handle every kind exhaustively; none of them is recoverable by retrying
/// the same bytes.
#[derive(Clone, Debug, PartialEq, Eq)]
pub enum DecodeError {
    /// The length delimiter exceeds the maximum representable length.
    LengthDelimiterTooLarge,
    /// A malformed or overflowing varint byte run.
    InvalidVarint,
    /// A 3-bit wire type code above 5.
    InvalidWireType { value: u64 },
    /// A packed tag key that exceeds 32 bits.
    InvalidKey { value: u64 },
    /// A field number outside `[1, 2^29 - 1]`, notably the reserved value 0.
    InvalidFieldNumber { value: u32 },
    /// A tag whose field number is the reserved value 0.
    InvalidTag,
    /// A structural mismatch between the expected and the actual wire type.
    UnexpectedWireType { actual: WireType, expected: WireType },
    /// Fewer bytes available than a fixed-width value needs.
    BufferUnderflow,
    /// A declared length that runs past the available input.
    DelimitedLengthExceeded,
    /// A group closing marker with no matching opening marker.
    UnexpectedEndGroupTag,
    /// A string field whose bytes are not UTF-8 encoded.
    InvalidString,
}

/// A Protobuf message encoding error.
///
/// `EncodeError` always indicates that a message failed to encode because the
/// provided buffer had insufficient capacity. Message encoding is otherwise
/// infallible. It carries both the required and the remaining capacity, so a
/// caller can grow its buffer and retry the identical operation.
#[derive(Copy, Clone, Debug, PartialEq, Eq)]
pub struct EncodeError {
    required: usize,
    remaining: usize,
}

impl EncodeError {
    /// The buffer capacity the failed encode would have needed.
    pub closed spec fn spec_required(&self) -> usize {
        self.required
    }

    /// The capacity the buffer still had when the encode was attempted.
    pub closed spec fn spec_remaining(&self) -> usize {
        self.remaining
    }

    /// Creates a new `EncodeError`.
    pub fn new(required: usize, remaining: usize) -> (r: EncodeError)
        ensures
            r.spec_required() == required,
            r.spec_remaining() == remaining,
    {
        EncodeError { required, remaining }
    }

    /// Returns the required buffer capacity to encode the message.
    pub fn required_capacity(&self) -> (r: usize)
        ensures
            r == self.spec_required(),
    {
        self.required
    }

    /// Returns the remaining length in the provided buffer at the time of
    /// encoding.
    pub fn remaining(&self) -> (r: usize)
        ensures
            r == self.spec_remaining(),
    {
        self.remaining
    }
}

/// An error indicating that an unknown enumeration value was encountered.
///
/// The Protobuf spec mandates that enumeration value sets are 'open', so this
/// error's value represents an integer value unrecognized by the presently
/// used enum definition.
#[derive(Copy, Clone, Debug, PartialEq, Eq)]
pub struct UnknownEnumValue(pub i32);

} // verus!
