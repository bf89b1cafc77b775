//! Bounds-checked field numbers.

use vstd::prelude::*;

use crate::error::DecodeError;

verus! {

/// The smallest legal field number.
pub const MIN_VALUE: u32 = 1;

/// The largest legal field number: `2^29 - 1`.
pub const MAX_VALUE: u32 = 0x1FFF_FFFF;

/// Represents a field number within a protobuf message.
///
/// It can only be constructed within the valid range of field numbers and
/// therefore it can always be encoded.
#[derive(Copy, Clone, Eq, PartialEq, Ord, PartialOrd, Hash, Debug, Structural)]
pub struct FieldNumber {
    value: u32,
}

impl FieldNumber {
    /// The field number as an integer.
    pub closed spec fn spec_value(&self) -> u32 {
        self.value
    }

    /// A field number lies in `[1, 2^29 - 1]`. Every constructor
    /// establishes this.
    pub open spec fn wf(&self) -> bool {
        MIN_VALUE <= self.spec_value() <= MAX_VALUE
    }

    /// Creates a `FieldNumber`, requiring the caller to have proved the
    /// value in range. See [`Self::try_new`] for a fallible construction.
    pub fn new(field_number: u32) -> (r: FieldNumber)
        requires
            MIN_VALUE <= field_number <= MAX_VALUE,
        ensures
            r.spec_value() == field_number,
            r.wf(),
    {
        FieldNumber { value: field_number }
    }

    /// Creates a `FieldNumber`, rejecting a value outside `[1, 2^29 - 1]`
    /// with an "invalid field number" error.
    pub fn try_new(field_number: u32) -> (r: Result<FieldNumber, DecodeError>)
        ensures
            match r {
                Ok(f) => MIN_VALUE <= field_number <= MAX_VALUE && f.spec_value() == field_number
                    && f.wf(),
                Err(e) => !(MIN_VALUE <= field_number <= MAX_VALUE) && e
                    == (DecodeError::InvalidFieldNumber { value: field_number }),
            },
    {
        if MIN_VALUE <= field_number && field_number <= MAX_VALUE {
            Ok(FieldNumber { value: field_number })
        } else {
            Err(DecodeError::InvalidFieldNumber { value: field_number })
        }
    }

    /// The field number as an integer.
    pub fn into_inner(self) -> (r: u32)
        ensures
            r == self.spec_value(),
    {
        self.value
    }
}

} // verus!
