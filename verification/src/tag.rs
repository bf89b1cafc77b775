//! Tags: the packed (field number, wire type) pair prefixing every encoded
//! field.

use vstd::arithmetic::div_mod::lemma_fundamental_div_mod_converse;
use vstd::arithmetic::power2::lemma2_to64;
use vstd::arithmetic::power2::lemma2_to64_rest;
use vstd::prelude::*;

use crate::buffer::DecodeBuf;
use crate::buffer::EncodeBuf;
use crate::error::DecodeError;
use crate::field_number::FieldNumber;
use crate::varint::Varint;
use crate::varint::varint_bytes;
use crate::varint::varint_decoded;
use crate::varint::varint_len;
use crate::varint::varint_run_len;
use crate::varint::varint_valid;
use crate::varint::lemma_varint_round_trip;
use crate::wire_type::WireType;
use crate::wire_type::wire_type_value;

verus! {

/// A tag is the combination of field number and wire type in protobuf
/// encoding. Packing the wire type into the low 3 bits keeps the common
/// small-field-number case at a 1-byte tag, matching the wire format that
/// independent decoders must agree on byte for byte.
#[derive(Copy, Clone, Eq, PartialEq, Hash, Debug, Structural)]
pub struct Tag {
    pub field_number: FieldNumber,
    pub wire_type: WireType,
}

/// The packed key of a tag: the field number shifted above the 3-bit wire
/// type value. It fits in 32 bits because the field number is below `2^29`.
pub open spec fn tag_key(t: Tag) -> nat {
    t.field_number.spec_value() as nat * 8 + wire_type_value(t.wire_type)
}

impl Tag {
    /// A tag is well formed when its field number is.
    pub open spec fn wf(&self) -> bool {
        self.field_number.wf()
    }

    /// Pairs a field number with a wire type.
    pub fn new(field_number: FieldNumber, wire_type: WireType) -> (r: Tag)
        ensures
            r.field_number == field_number,
            r.wire_type == wire_type,
    {
        Tag { field_number, wire_type }
    }

    /// Encodes the packed key as a varint, appending exactly
    /// [`Self::encoded_len`] bytes to the buffer. The caller must have
    /// checked capacity.
    pub fn encode(&self, buf: &mut EncodeBuf)
        requires
            self.wf(),
            old(buf)@.len() + varint_len(tag_key(*self)) <= old(buf).spec_capacity(),
        ensures
            final(buf)@ == old(buf)@ + varint_bytes(tag_key(*self)),
            final(buf).spec_capacity() == old(buf).spec_capacity(),
    {
        let field: u32 = self.field_number.into_inner();
        let key: u32 = field * 8 + self.wire_type.value() as u32;
        Varint::from(key as u64).encode(buf)
    }

    /// Returns the number of bytes required to encode this tag in LEB128
    /// variable length format. The returned width is between 1 and 5 bytes
    /// inclusive.
    pub fn encoded_len(&self) -> (r: usize)
        requires
            self.wf(),
        ensures
            r == varint_len(tag_key(*self)),
            1 <= r <= 5,
    {
        let field: u32 = self.field_number.into_inner();
        let key: u32 = field * 8 + self.wire_type.value() as u32;
        let r = Varint::from(key as u64).encoded_len();
        proof {
            lemma2_to64();
            lemma2_to64_rest();
            crate::varint::lemma_varint_len_le(key as nat, 5);
        }
        r
    }

    /// Decodes a tag from the front of the buffer, advancing it past the
    /// varint key read. Succeeds exactly when the unconsumed bytes begin
    /// with a well-formed varint whose value fits in 32 bits, holds a legal
    /// wire type in its low 3 bits and a non-zero field number above them;
    /// each departure from that is rejected with its own error.
    pub fn decode(buf: &mut DecodeBuf) -> (r: Result<Tag, DecodeError>)
        ensures
            final(buf).spec_data() == old(buf).spec_data(),
            old(buf).spec_pos() <= final(buf).spec_pos() <= final(buf).spec_data().len(),
            match r {
                Ok(t) => {
                    let key = varint_decoded(old(buf).spec_rem());
                    &&& varint_valid(old(buf).spec_rem())
                    &&& key <= u32::MAX
                    &&& wire_type_value(t.wire_type) == key % 8
                    &&& t.field_number.spec_value() == key / 8
                    &&& t.wf()
                    &&& final(buf).spec_pos() == old(buf).spec_pos() + varint_run_len(
                        old(buf).spec_rem(),
                    )
                },
                Err(e) => {
                    let key = varint_decoded(old(buf).spec_rem());
                    match e {
                        DecodeError::InvalidVarint => !varint_valid(old(buf).spec_rem()),
                        DecodeError::InvalidKey { value } => varint_valid(old(buf).spec_rem())
                            && value == key && key > u32::MAX,
                        DecodeError::InvalidWireType { value } => varint_valid(
                            old(buf).spec_rem(),
                        ) && key <= u32::MAX && value == key % 8 && key % 8 > 5,
                        DecodeError::InvalidFieldNumber { value } => varint_valid(
                            old(buf).spec_rem(),
                        ) && key <= u32::MAX && key % 8 <= 5 && value == key / 8 && key / 8 == 0,
                        _ => false,
                    }
                },
            },
    {
        let key64: u64 = match Varint::decode(buf) {
            Ok(v) => v.value,
            Err(e) => {
                return Err(e);
            },
        };
        if key64 > u32::MAX as u64 {
            return Err(DecodeError::InvalidKey { value: key64 });
        }
        let wire_type = match WireType::from_value(key64 % 8) {
            Ok(wt) => wt,
            Err(e) => {
                return Err(e);
            },
        };
        let key: u32 = key64 as u32;
        let field_number = match FieldNumber::try_new(key / 8) {
            Ok(f) => f,
            Err(e) => {
                proof {
                    assert(key / 8 < 0x2000_0000) by {
                        assert(key64 <= 0xFFFF_FFFF);
                    }
                }
                return Err(e);
            },
        };
        Ok(Tag { field_number, wire_type })
    }
}

/// Tag round trip: the encoding of a well-formed tag's packed key is a valid
/// varint holding a 32-bit key whose low 3 bits are the wire type value and
/// whose remaining bits are the field number, whatever bytes follow it; so
/// decoding it yields the field number and wire type back.
pub proof fn lemma_tag_round_trip(t: Tag, rest: Seq<u8>)
    requires
        t.wf(),
    ensures
        ({
            let enc = varint_bytes(tag_key(t));
            &&& enc.len() == varint_len(tag_key(t))
            &&& varint_valid(enc + rest)
            &&& varint_run_len(enc + rest) == varint_len(tag_key(t))
            &&& varint_decoded(enc + rest) == tag_key(t)
            &&& tag_key(t) <= u32::MAX
            &&& tag_key(t) % 8 == wire_type_value(t.wire_type)
            &&& tag_key(t) / 8 == t.field_number.spec_value()
        }),
{
    let key = tag_key(t);
    assert(key <= u32::MAX);
    lemma_varint_round_trip(key as u64, rest);
    lemma_fundamental_div_mod_converse(
        key as int,
        8,
        t.field_number.spec_value() as int,
        wire_type_value(t.wire_type) as int,
    );
}

} // verus!
