//! Length delimiters: the varint-encoded byte count that frames
//! length-delimited values.

use vstd::arithmetic::power2::lemma2_to64;
use vstd::arithmetic::power2::lemma2_to64_rest;
use vstd::arithmetic::power2::lemma_pow2_strictly_increases;
use vstd::prelude::*;

use crate::buffer::DecodeBuf;
use crate::buffer::EncodeBuf;
use crate::error::DecodeError;
use crate::error::EncodeError;
use crate::varint::Varint;
use crate::varint::lemma_varint_len_le;
use crate::varint::varint_bytes;
use crate::varint::varint_decoded;
use crate::varint::varint_len;
use crate::varint::varint_run_len;
use crate::varint::varint_valid;

verus! {

/// A length value encoded in LEB128 variable length format.
///
/// The wire carries lengths up to 64 bits; a decoded length must also fit in
/// the host's `usize`, and one that does not is rejected with a dedicated
/// error that signals a host limitation rather than malformed input.
#[derive(Copy, Clone, Eq, PartialEq, Ord, PartialOrd, Hash, Debug, Default, Structural)]
pub struct LengthDelimiter {
    pub value: usize,
}

impl From<usize> for LengthDelimiter {
    fn from(value: usize) -> Self {
        LengthDelimiter { value }
    }
}

impl vstd::std_specs::convert::FromSpecImpl<usize> for LengthDelimiter {
    open spec fn obeys_from_spec() -> bool {
        true
    }

    open spec fn from_spec(value: usize) -> LengthDelimiter {
        LengthDelimiter { value }
    }
}

impl From<LengthDelimiter> for usize {
    fn from(d: LengthDelimiter) -> Self {
        d.value
    }
}

impl vstd::std_specs::convert::FromSpecImpl<LengthDelimiter> for usize {
    open spec fn obeys_from_spec() -> bool {
        true
    }

    open spec fn from_spec(d: LengthDelimiter) -> usize {
        d.value
    }
}

impl LengthDelimiter {
    /// Encodes the length in LEB128 format, appending exactly
    /// [`Self::encoded_len`] bytes to the buffer. The caller must have
    /// checked capacity; [`encode_length_delimiter`] does the check itself.
    pub fn encode(&self, buf: &mut EncodeBuf)
        requires
            old(buf)@.len() + varint_len(self.value as nat) <= old(buf).spec_capacity(),
        ensures
            final(buf)@ == old(buf)@ + varint_bytes(self.value as nat),
            final(buf).spec_capacity() == old(buf).spec_capacity(),
    {
        Varint::from(self.value as u64).encode(buf)
    }

    /// Returns the number of bytes of the length in LEB128 variable length
    /// format, between 1 and 10 inclusive.
    pub fn encoded_len(&self) -> (r: usize)
        ensures
            r == varint_len(self.value as nat),
            1 <= r <= 10,
    {
        Varint::from(self.value as u64).encoded_len()
    }

    /// Decodes a length delimiter from the front of the buffer, advancing it
    /// past the bytes read. Succeeds exactly when the unconsumed bytes begin
    /// with a well-formed varint whose value fits in a `usize`; a value that
    /// does not fit is rejected as too large rather than as corrupt.
    pub fn decode(buf: &mut DecodeBuf) -> (r: Result<LengthDelimiter, DecodeError>)
        ensures
            final(buf).spec_data() == old(buf).spec_data(),
            old(buf).spec_pos() <= final(buf).spec_pos() <= final(buf).spec_data().len(),
            match r {
                Ok(d) => {
                    &&& varint_valid(old(buf).spec_rem())
                    &&& varint_decoded(old(buf).spec_rem()) <= usize::MAX
                    &&& d.value == varint_decoded(old(buf).spec_rem())
                    &&& final(buf).spec_pos() == old(buf).spec_pos() + varint_run_len(
                        old(buf).spec_rem(),
                    )
                },
                Err(e) => match e {
                    DecodeError::InvalidVarint => !varint_valid(old(buf).spec_rem()),
                    DecodeError::LengthDelimiterTooLarge => varint_valid(old(buf).spec_rem())
                        && varint_decoded(old(buf).spec_rem()) > usize::MAX,
                    _ => false,
                },
            },
    {
        let length: u64 = match Varint::decode(buf) {
            Ok(v) => v.value,
            Err(e) => {
                return Err(e);
            },
        };
        if length > usize::MAX as u64 {
            return Err(DecodeError::LengthDelimiterTooLarge);
        }
        Ok(LengthDelimiter { value: length as usize })
    }
}

/// Encodes a length delimiter to the buffer, checking capacity first.
///
/// An error is returned exactly when the buffer lacks the capacity to hold
/// the delimiter; it carries the required and the remaining capacity, and
/// the buffer is left untouched so the caller can grow it and retry.
pub fn encode_length_delimiter(length: usize, buf: &mut EncodeBuf) -> (r: Result<
    (),
    EncodeError,
>)
    ensures
        final(buf).spec_capacity() == old(buf).spec_capacity(),
        match r {
            Ok(()) => {
                &&& old(buf)@.len() + varint_len(length as nat) <= old(buf).spec_capacity()
                &&& final(buf)@ == old(buf)@ + varint_bytes(length as nat)
            },
            Err(e) => {
                &&& old(buf)@.len() + varint_len(length as nat) > old(buf).spec_capacity()
                &&& final(buf)@ == old(buf)@
                &&& e.spec_required() == varint_len(length as nat)
                &&& e.spec_remaining() == old(buf).spec_capacity() - old(buf)@.len()
            },
        },
{
    let delimiter = LengthDelimiter::from(length);
    let required = delimiter.encoded_len();
    let remaining = buf.remaining_mut();
    if required > remaining {
        return Err(EncodeError::new(required, remaining));
    }
    delimiter.encode(buf);
    Ok(())
}

/// Returns the encoded length of a length delimiter.
///
/// Applications may use this method to ensure sufficient buffer capacity
/// before calling [`encode_length_delimiter`]. The returned size is between
/// 1 and 10, inclusive, and always equals the encoded length of the varint
/// holding the same value.
pub fn length_delimiter_len(length: usize) -> (r: usize)
    ensures
        r == varint_len(length as nat),
        1 <= r <= 10,
{
    LengthDelimiter::from(length).encoded_len()
}

/// Decodes a length delimiter from the buffer, advancing it past the bytes
/// read.
///
/// This allows the length delimiter to be decoded independently of the
/// framed value that follows it. It succeeds exactly when the unconsumed
/// bytes begin with a well-formed varint whose value fits in a `usize`.
pub fn decode_length_delimiter(buf: &mut DecodeBuf) -> (r: Result<usize, DecodeError>)
    ensures
        final(buf).spec_data() == old(buf).spec_data(),
        old(buf).spec_pos() <= final(buf).spec_pos() <= final(buf).spec_data().len(),
        match r {
            Ok(length) => {
                &&& varint_valid(old(buf).spec_rem())
                &&& length == varint_decoded(old(buf).spec_rem())
                &&& final(buf).spec_pos() == old(buf).spec_pos() + varint_run_len(
                    old(buf).spec_rem(),
                )
            },
            Err(e) => match e {
                DecodeError::InvalidVarint => !varint_valid(old(buf).spec_rem()),
                DecodeError::LengthDelimiterTooLarge => varint_valid(old(buf).spec_rem())
                    && varint_decoded(old(buf).spec_rem()) > usize::MAX,
                _ => false,
            },
        },
{
    match LengthDelimiter::decode(buf) {
        Ok(d) => Ok(d.value),
        Err(e) => Err(e),
    }
}

/// Length delimiter agreement: for every length, the byte count returned by
/// [`length_delimiter_len`] is exactly the encoded length of the varint
/// holding that value — both are `varint_len` of it — and lies in `[1, 10]`.
pub proof fn lemma_length_delimiter_agreement(length: usize)
    ensures
        1 <= varint_len(length as nat) <= 10,
        varint_len(length as nat) == varint_len((length as u64) as nat),
{
    lemma2_to64();
    lemma2_to64_rest();
    lemma_pow2_strictly_increases(64, 70);
    lemma_varint_len_le(length as nat, 10);
}

} // verus!
