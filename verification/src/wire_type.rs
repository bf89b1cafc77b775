use vstd::prelude::*;

use crate::error::DecodeError;

verus! {

/// The 3-bit code in a tag that says how a field's value is physically
/// encoded. Exactly six codes are legal; any other 3-bit value is a decode
/// error.
#[derive(Copy, Clone, PartialEq, Eq, Hash, Debug, Structural)]
pub enum WireType {
    /// A LEB128 variable-length integer (wire value 0).
    Varint,
    /// A fixed 8-byte value (wire value 1).
    Fixed64,
    /// A length-prefixed byte sequence (wire value 2).
    LengthDelimited,
    /// The opening marker of a group (wire value 3).
    StartGroup,
    /// The closing marker of a group (wire value 4).
    EndGroup,
    /// A fixed 4-byte value (wire value 5).
    Fixed32,
}

/// The 3-bit wire value of a wire type.
pub open spec fn wire_type_value(wt: WireType) -> nat {
    match wt {
        WireType::Varint => 0,
        WireType::Fixed64 => 1,
        WireType::LengthDelimited => 2,
        WireType::StartGroup => 3,
        WireType::EndGroup => 4,
        WireType::Fixed32 => 5,
    }
}

impl WireType {
    /// The 3-bit wire value of this wire type.
    pub fn value(&self) -> (r: u8)
        ensures
            r as nat == wire_type_value(*self),
    {
        match self {
            WireType::Varint => 0,
            WireType::Fixed64 => 1,
            WireType::LengthDelimited => 2,
            WireType::StartGroup => 3,
            WireType::EndGroup => 4,
            WireType::Fixed32 => 5,
        }
    }

    /// The wire type with the given wire value, or an "invalid wire type
    /// value" error exactly when the value is above 5.
    pub fn from_value(value: u64) -> (r: Result<WireType, DecodeError>)
        ensures
            match r {
                Ok(wt) => value <= 5 && wire_type_value(wt) == value,
                Err(e) => value > 5 && e == (DecodeError::InvalidWireType { value }),
            },
    {
        match value {
            0 => Ok(WireType::Varint),
            1 => Ok(WireType::Fixed64),
            2 => Ok(WireType::LengthDelimited),
            3 => Ok(WireType::StartGroup),
            4 => Ok(WireType::EndGroup),
            5 => Ok(WireType::Fixed32),
            _ => Err(DecodeError::InvalidWireType { value }),
        }
    }
}

} // verus!
