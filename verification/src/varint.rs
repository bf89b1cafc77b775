//! The LEB128 variable-length integer codec that everything else sits on.
//!
//! A value is written in little-endian base-128 groups, 7 payload bits per
//! byte, the high bit of each byte marking continuation. An encoding is 1 to
//! 10 bytes long; on the tenth byte only the low 2 payload bits may be set,
//! since anything more would overflow 64 bits.

use vstd::arithmetic::div_mod::lemma_div_denominator;
use vstd::arithmetic::div_mod::lemma_div_is_strictly_smaller;
use vstd::arithmetic::div_mod::lemma_fundamental_div_mod;
use vstd::arithmetic::div_mod::lemma_multiply_divide_lt;
use vstd::arithmetic::mul::lemma_mul_inequality;
use vstd::arithmetic::mul::lemma_mul_is_associative;
use vstd::arithmetic::mul::lemma_mul_is_commutative;
use vstd::arithmetic::power2::lemma2_to64;
use vstd::arithmetic::power2::lemma2_to64_rest;
use vstd::arithmetic::power2::lemma_pow2_adds;
use vstd::arithmetic::power2::lemma_pow2_pos;
use vstd::arithmetic::power2::lemma_pow2_strictly_increases;
use vstd::arithmetic::power2::pow2;
use vstd::prelude::*;

use crate::buffer::DecodeBuf;
use crate::buffer::EncodeBuf;
use crate::error::DecodeError;

verus! {

/// An integer value encoded in LEB128 variable length format. Any `u64`
/// value is a valid varint.
#[derive(Copy, Clone, Eq, PartialEq, Ord, PartialOrd, Hash, Debug, Default, Structural)]
pub struct Varint {
    pub value: u64,
}

impl From<u64> for Varint {
    fn from(value: u64) -> Self {
        Varint { value }
    }
}

impl vstd::std_specs::convert::FromSpecImpl<u64> for Varint {
    open spec fn obeys_from_spec() -> bool {
        true
    }

    open spec fn from_spec(value: u64) -> Varint {
        Varint { value }
    }
}

impl From<Varint> for u64 {
    fn from(v: Varint) -> Self {
        v.value
    }
}

impl vstd::std_specs::convert::FromSpecImpl<Varint> for u64 {
    open spec fn obeys_from_spec() -> bool {
        true
    }

    open spec fn from_spec(v: Varint) -> u64 {
        v.value
    }
}

/// The LEB128 encoding of `value`: its base-128 digits, low order first,
/// every byte but the last carrying the continuation bit.
pub open spec fn varint_bytes(value: nat) -> Seq<u8>
    decreases value,
{
    if value < 128 {
        seq![value as u8]
    } else {
        proof {
            lemma_div_is_strictly_smaller(value as int, 128);
        }
        seq![(128 + value % 128) as u8] + varint_bytes(value / 128)
    }
}

/// The number of bytes in the LEB128 encoding of `value`.
pub open spec fn varint_len(value: nat) -> nat
    decreases value,
{
    if value < 128 {
        1
    } else {
        proof {
            lemma_div_is_strictly_smaller(value as int, 128);
        }
        1 + varint_len(value / 128)
    }
}

/// The length of the varint byte run at the head of `bytes`, looking at most
/// `budget` bytes ahead: the number of bytes up to and including the first
/// byte whose high bit is clear, or 0 if every visible byte has it set.
pub open spec fn varint_run_budget(bytes: Seq<u8>, budget: nat) -> nat
    decreases budget,
{
    if budget == 0 || bytes.len() == 0 {
        0
    } else if bytes[0] < 128 {
        1
    } else {
        let tail = varint_run_budget(bytes.skip(1), (budget - 1) as nat);
        if tail == 0 {
            0
        } else {
            tail + 1
        }
    }
}

/// The length of the varint byte run at the head of `bytes`: the number of
/// bytes up to and including the first byte whose high bit is clear, if that
/// byte lies within the first 10 bytes; 0 otherwise.
pub open spec fn varint_run_len(bytes: Seq<u8>) -> nat {
    varint_run_budget(bytes, 10)
}

/// The integer held in the first `n` bytes of `bytes`, read as base-128
/// groups of 7 payload bits each, low order first.
pub open spec fn varint_value(bytes: Seq<u8>, n: nat) -> nat
    decreases n,
{
    if n == 0 || bytes.len() == 0 {
        0
    } else {
        (bytes[0] % 128) as nat + 128 * varint_value(bytes.skip(1), (n - 1) as nat)
    }
}

/// `bytes` begins with a well-formed varint: a run terminated within 10
/// bytes whose value fits in 64 bits.
pub open spec fn varint_valid(bytes: Seq<u8>) -> bool {
    &&& varint_run_len(bytes) >= 1
    &&& varint_run_len(bytes) == 10 ==> bytes[9] <= 1
}

/// The value of the varint at the head of `bytes`.
pub open spec fn varint_decoded(bytes: Seq<u8>) -> nat {
    varint_value(bytes, varint_run_len(bytes))
}

proof fn lemma_run_budget_bounds(bytes: Seq<u8>, budget: nat)
    ensures
        varint_run_budget(bytes, budget) <= budget,
        varint_run_budget(bytes, budget) <= bytes.len(),
        varint_run_budget(bytes, budget) >= 1 ==> {
            let n = varint_run_budget(bytes, budget);
            bytes[n - 1] < 128 && (forall|j: int| 0 <= j < n - 1 ==> bytes[j] >= 128)
        },
    decreases budget,
{
    if budget == 0 || bytes.len() == 0 {
    } else if bytes[0] < 128 {
    } else {
        lemma_run_budget_bounds(bytes.skip(1), (budget - 1) as nat);
        let tail = varint_run_budget(bytes.skip(1), (budget - 1) as nat);
        if tail >= 1 {
            let n = tail + 1;
            assert(bytes[n - 1] == bytes.skip(1)[tail - 1]);
            assert forall|j: int| 0 <= j < n - 1 implies bytes[j] >= 128 by {
                if j > 0 {
                    assert(bytes[j] == bytes.skip(1)[j - 1]);
                }
            }
        }
    }
}

proof fn lemma_run_budget_is(bytes: Seq<u8>, budget: nat, n: nat)
    requires
        1 <= n <= budget,
        n <= bytes.len(),
        bytes[n - 1] < 128,
        forall|j: int| 0 <= j < n - 1 ==> bytes[j] >= 128,
    ensures
        varint_run_budget(bytes, budget) == n,
    decreases n,
{
    if n == 1 {
    } else {
        assert(bytes[0] >= 128);
        assert(bytes.skip(1)[n - 2] == bytes[n - 1]);
        assert forall|j: int| 0 <= j < n - 2 implies bytes.skip(1)[j] >= 128 by {
            assert(bytes.skip(1)[j] == bytes[j + 1]);
        }
        lemma_run_budget_is(bytes.skip(1), (budget - 1) as nat, (n - 1) as nat);
    }
}

proof fn lemma_run_budget_none(bytes: Seq<u8>, budget: nat)
    requires
        forall|j: int| 0 <= j < budget && j < bytes.len() ==> bytes[j] >= 128,
    ensures
        varint_run_budget(bytes, budget) == 0,
    decreases budget,
{
    if budget == 0 || bytes.len() == 0 {
    } else {
        assert(bytes[0] >= 128);
        assert forall|j: int| 0 <= j < budget - 1 && j < bytes.skip(1).len() implies bytes.skip(
            1,
        )[j] >= 128 by {
            assert(bytes.skip(1)[j] == bytes[j + 1]);
        }
        lemma_run_budget_none(bytes.skip(1), (budget - 1) as nat);
    }
}

proof fn lemma_varint_value_step(bytes: Seq<u8>, i: nat)
    requires
        i < bytes.len(),
    ensures
        varint_value(bytes, i + 1) == varint_value(bytes, i) + (bytes[i as int] % 128) * pow2(
            7 * i,
        ),
    decreases i,
{
    if i == 0 {
        lemma2_to64();
        assert(varint_value(bytes.skip(1), 0) == 0);
        assert(varint_value(bytes, 0) == 0);
        assert(pow2(7 * 0) == 1);
        assert(varint_value(bytes, 1) == (bytes[0] % 128) as nat + 128 * varint_value(
            bytes.skip(1),
            0,
        ));
        assert(varint_value(bytes, i + 1) == varint_value(bytes, i) + (bytes[i as int] % 128)
            * pow2(7 * i));
    } else {
        let tail = bytes.skip(1);
        lemma_varint_value_step(tail, (i - 1) as nat);
        assert(tail[i - 1] == bytes[i as int]);
        let p = (bytes[i as int] % 128) as int;
        let e = pow2(7 * (i - 1) as nat) as int;
        assert(varint_value(tail, i) == varint_value(tail, (i - 1) as nat) + p * e);
        assert(varint_value(bytes, i + 1) == (bytes[0] % 128) as nat + 128 * varint_value(
            tail,
            i,
        ));
        assert(varint_value(bytes, i) == (bytes[0] % 128) as nat + 128 * varint_value(
            tail,
            (i - 1) as nat,
        ));
        lemma_pow2_adds(7, 7 * (i - 1) as nat);
        lemma2_to64();
        assert(pow2(7 * i) == 128 * e) by {
            assert(7 * i == 7 + 7 * (i - 1) as nat);
        }
        assert(128 * (varint_value(tail, (i - 1) as nat) + p * e) == 128 * varint_value(
            tail,
            (i - 1) as nat,
        ) + 128 * (p * e)) by {
            vstd::arithmetic::mul::lemma_mul_is_distributive_add(
                128,
                varint_value(tail, (i - 1) as nat) as int,
                p * e,
            );
        }
        assert(128 * (p * e) == p * (128 * e)) by {
            lemma_mul_is_associative(128, p, e);
            lemma_mul_is_commutative(128, p);
            lemma_mul_is_associative(p, 128, e);
        }
        assert(varint_value(bytes, i + 1) == varint_value(bytes, i) + p * (128 * e));
        assert(varint_value(bytes, i + 1) == varint_value(bytes, i) + (bytes[i as int] % 128)
            * pow2(7 * i));
    }
}

/// The length of any varint encoding of a value below `pow2(7 * k)` is at
/// most `k` bytes.
pub proof fn lemma_varint_len_le(value: nat, k: nat)
    requires
        1 <= k,
        value < pow2(7 * k),
    ensures
        varint_len(value) <= k,
    decreases k,
{
    if value < 128 {
    } else {
        lemma2_to64();
        if k == 1 {
            assert(false);
        } else {
            lemma_pow2_adds(7, 7 * (k - 1) as nat);
            assert(pow2(7 * k) == 128 * pow2(7 * (k - 1) as nat)) by {
                assert(7 * k == 7 + 7 * (k - 1) as nat);
            }
            lemma_multiply_divide_lt(value as int, 128, pow2(7 * (k - 1) as nat) as int);
            lemma_varint_len_le(value / 128, (k - 1) as nat);
        }
    }
}

proof fn lemma_varint_bytes_structure(value: nat, rest: Seq<u8>)
    ensures
        ({
            let s = varint_bytes(value) + rest;
            let n = varint_len(value);
            &&& varint_bytes(value).len() == n
            &&& 1 <= n
            &&& forall|j: int| 0 <= j < n - 1 ==> s[j] >= 128
            &&& s[n - 1] < 128
            &&& s[n - 1] as nat == value / pow2(7 * (n - 1) as nat)
            &&& varint_value(s, n) == value
        }),
    decreases value,
{
    let s = varint_bytes(value) + rest;
    let n = varint_len(value);
    if value < 128 {
        lemma2_to64();
        assert(s[0] == value as u8);
        assert(value / pow2(0) == value) by {
            assert(pow2(0) == 1);
        }
        assert(varint_value(s, 1) == (s[0] % 128) as nat + 128 * varint_value(s.skip(1), 0));
    } else {
        lemma_div_is_strictly_smaller(value as int, 128);
        lemma_varint_bytes_structure(value / 128, rest);
        let s1 = varint_bytes(value / 128) + rest;
        let n1 = varint_len(value / 128);
        let b0 = (128 + value % 128) as u8;
        assert(s =~= seq![b0] + s1);
        assert(n == 1 + n1);
        assert(b0 >= 128);
        assert forall|j: int| 0 <= j < n - 1 implies s[j] >= 128 by {
            if j > 0 {
                assert(s[j] == s1[j - 1]);
            }
        }
        assert(s[n - 1] == s1[n1 - 1]);
        // last byte: (value / 128) / pow2(7 * (n1 - 1)) == value / pow2(7 * (n - 1))
        lemma_pow2_pos(7 * (n1 - 1) as nat);
        lemma_div_denominator(value as int, 128, pow2(7 * (n1 - 1) as nat) as int);
        lemma_pow2_adds(7, 7 * (n1 - 1) as nat);
        lemma2_to64();
        assert(pow2(7 * (n - 1) as nat) == 128 * pow2(7 * (n1 - 1) as nat)) by {
            assert(7 * (n - 1) as nat == 7 + 7 * (n1 - 1) as nat);
        }
        // value of the whole run
        assert(s.skip(1) =~= s1);
        assert(b0 % 128 == value % 128);
        assert(varint_value(s, n) == (value % 128) as nat + 128 * (value / 128));
        lemma_fundamental_div_mod(value as int, 128);
    }
}

/// Round trip: the LEB128 encoding of any 64-bit value is between 1 and 10
/// bytes long, and decoding it yields the value back and consumes exactly
/// its encoded length, whatever bytes follow it.
pub proof fn lemma_varint_round_trip(value: u64, rest: Seq<u8>)
    ensures
        ({
            let enc = varint_bytes(value as nat);
            let n = varint_len(value as nat);
            &&& enc.len() == n
            &&& 1 <= n <= 10
            &&& varint_valid(enc + rest)
            &&& varint_run_len(enc + rest) == n
            &&& varint_decoded(enc + rest) == value
        }),
{
    let enc = varint_bytes(value as nat);
    let n = varint_len(value as nat);
    let s = enc + rest;
    lemma_varint_bytes_structure(value as nat, rest);
    lemma2_to64();
    lemma2_to64_rest();
    assert(value < pow2(64));
    lemma_pow2_strictly_increases(64, 70);
    lemma_varint_len_le(value as nat, 10);
    lemma_run_budget_is(s, 10, n);
    if n == 10 {
        // the tenth byte holds value / 2^63, which is 0 or 1
        assert(s[9] as nat == value as nat / pow2(63)) by {
            assert(7 * (10 - 1) as nat == 63);
        }
        lemma_multiply_divide_lt(value as int, pow2(63) as int, 2);
    }
}

impl Varint {
    /// Encodes the value in LEB128 format, appending exactly
    /// [`Self::encoded_len`] bytes to the buffer.
    ///
    /// The caller must have checked that the buffer has that much capacity
    /// left; the capacity-checked length-delimiter entry point does the
    /// check itself.
    #[verifier::loop_isolation(false)]
    pub fn encode(&self, buf: &mut EncodeBuf)
        requires
            old(buf)@.len() + varint_len(self.value as nat) <= old(buf).spec_capacity(),
        ensures
            final(buf)@ == old(buf)@ + varint_bytes(self.value as nat),
            final(buf).spec_capacity() == old(buf).spec_capacity(),
    {
        let mut value: u64 = self.value;
        while value >= 128
            invariant
                old(buf)@ + varint_bytes(self.value as nat) =~= buf@ + varint_bytes(value as nat),
                varint_len(self.value as nat) + old(buf)@.len() == varint_len(value as nat)
                    + buf@.len(),
                buf@.len() + varint_len(value as nat) <= buf.spec_capacity(),
                buf.spec_capacity() == old(buf).spec_capacity(),
            decreases value,
        {
            proof {
                lemma_div_is_strictly_smaller(value as int, 128);
            }
            let ghost prev = value;
            buf.put_u8((value % 128 + 128) as u8);
            value = value / 128;
            proof {
                assert(varint_bytes(prev as nat) == seq![(128 + prev as nat % 128) as u8]
                    + varint_bytes(value as nat));
                assert(old(buf)@ + varint_bytes(self.value as nat) =~= buf@ + varint_bytes(
                    value as nat,
                ));
            }
        }
        buf.put_u8(value as u8);
        proof {
            assert(varint_bytes(value as nat) == seq![value as u8]);
            assert(final(buf)@ =~= old(buf)@ + varint_bytes(self.value as nat));
        }
    }

    /// Returns the number of bytes of the value in LEB128 variable length
    /// format. The returned value is between 1 and 10, inclusive.
    #[verifier::loop_isolation(false)]
    pub fn encoded_len(&self) -> (r: usize)
        ensures
            r == varint_len(self.value as nat),
            1 <= r <= 10,
    {
        proof {
            lemma2_to64();
            lemma2_to64_rest();
            lemma_pow2_strictly_increases(64, 70);
            lemma_varint_len_le(self.value as nat, 10);
        }
        let mut value: u64 = self.value;
        let mut n: usize = 1;
        while value >= 128
            invariant
                varint_len(self.value as nat) == (n - 1) + varint_len(value as nat),
                1 <= n,
                varint_len(self.value as nat) <= 10,
            decreases value,
        {
            proof {
                lemma_div_is_strictly_smaller(value as int, 128);
            }
            value = value / 128;
            n = n + 1;
        }
        n
    }

    /// Decodes a varint from the front of the buffer, advancing it past the
    /// bytes read. Succeeds exactly when the unconsumed bytes begin with a
    /// well-formed varint; on failure the buffer is in an unspecified
    /// position and the whole decode must be abandoned.
    pub fn decode(buf: &mut DecodeBuf) -> (r: Result<Varint, DecodeError>)
        ensures
            final(buf).spec_data() == old(buf).spec_data(),
            old(buf).spec_pos() <= final(buf).spec_pos() <= final(buf).spec_data().len(),
            match r {
                Ok(v) => {
                    &&& varint_valid(old(buf).spec_rem())
                    &&& v.value as nat == varint_decoded(old(buf).spec_rem())
                    &&& final(buf).spec_pos() == old(buf).spec_pos() + varint_run_len(
                        old(buf).spec_rem(),
                    )
                },
                Err(e) => {
                    &&& e == DecodeError::InvalidVarint
                    &&& !varint_valid(old(buf).spec_rem())
                },
            },
    {
        let len = buf.remaining();
        if len == 0 {
            return Err(DecodeError::InvalidVarint);
        }
        let byte = buf.peek(0);
        if byte < 128 {
            proof {
                lemma_run_budget_is(buf.spec_rem(), 10, 1);
                assert(varint_value(buf.spec_rem(), 1) == (buf.spec_rem()[0] % 128) as nat + 128
                    * varint_value(buf.spec_rem().skip(1), 0));
            }
            buf.advance(1);
            Ok(Varint { value: byte as u64 })
        } else if len > 10 || buf.peek(len - 1) < 128 {
            match decode_varint_slice(buf.remaining_slice()) {
                Ok((value, advance)) => {
                    proof {
                        lemma_run_budget_bounds(buf.spec_rem(), 10);
                    }
                    buf.advance(advance);
                    Ok(Varint { value })
                },
                Err(e) => Err(e),
            }
        } else {
            match decode_varint_slow(buf) {
                Ok(value) => Ok(Varint { value }),
                Err(e) => Err(e),
            }
        }
    }
}

/// Decodes a LEB128 varint from the front of the slice, returning the value
/// and the number of bytes read.
///
/// The caller must ensure that the slice is non-empty and either longer than
/// 10 bytes or terminated (its last byte's high bit clear); under that
/// guarantee the run, if there is one, lies fully inside the slice.
#[verifier::loop_isolation(false)]
pub fn decode_varint_slice(bytes: &[u8]) -> (r: Result<(u64, usize), DecodeError>)
    requires
        bytes@.len() >= 1,
        bytes@.len() > 10 || bytes@[bytes@.len() - 1] < 128,
    ensures
        match r {
            Ok((value, advance)) => {
                &&& varint_valid(bytes@)
                &&& value as nat == varint_decoded(bytes@)
                &&& advance == varint_run_len(bytes@)
            },
            Err(e) => {
                &&& e == DecodeError::InvalidVarint
                &&& !varint_valid(bytes@)
            },
        },
{
    let len = bytes.len();
    proof {
        lemma2_to64();
        assert(varint_value(bytes@, 0) == 0);
    }
    let mut value: u64 = 0;
    let mut mult: u64 = 1;
    let mut i: usize = 0;
    while i < 10
        invariant
            0 <= i <= 10,
            i <= bytes@.len(),
            forall|j: int| 0 <= j < i ==> bytes@[j] >= 128,
            i <= 9 ==> mult == pow2((7 * i) as nat),
            i <= 9 ==> value == varint_value(bytes@, i as nat),
            i <= 9 ==> value < pow2((7 * i) as nat),
        decreases 10 - i,
    {
        // the run, if any, has not ended before index i, so with a
        // terminated slice of at most 10 bytes the index stays inside it
        proof {
            if len <= 10 && i >= len {
                assert(bytes@[len - 1] >= 128);
                assert(false);
            }
        }
        let b = bytes[i];
        if b < 128 {
            if i == 9 && b >= 2 {
                proof {
                    lemma_run_budget_is(bytes@, 10, 10);
                }
                return Err(DecodeError::InvalidVarint);
            }
            proof {
                lemma_run_budget_is(bytes@, 10, (i + 1) as nat);
                lemma_varint_value_step(bytes@, i as nat);
                lemma2_to64();
                lemma2_to64_rest();
                if i < 9 {
                    lemma_mul_inequality(b as int, 127, pow2((7 * i) as nat) as int);
                    lemma_pow2_adds((7 * i) as nat, 7);
                    if 7 * i + 7 < 63 {
                        lemma_pow2_strictly_increases((7 * i + 7) as nat, 63);
                    }
                } else {
                    lemma_mul_inequality(b as int, 1, pow2(63) as int);
                }
            }
            let v = value + (b as u64) * mult;
            return Ok((v, i + 1));
        }
        if i < 9 {
            proof {
                lemma_varint_value_step(bytes@, i as nat);
                lemma2_to64();
                lemma_mul_inequality((b % 128) as int, 127, pow2((7 * i) as nat) as int);
                lemma_pow2_adds((7 * i) as nat, 7);
                if 7 * i + 7 < 63 {
                    lemma_pow2_strictly_increases((7 * i + 7) as nat, 63);
                }
                lemma2_to64_rest();
            }
            value = value + ((b % 128) as u64) * mult;
            mult = mult * 128;
        }
        i = i + 1;
    }
    proof {
        lemma_run_budget_none(bytes@, 10);
    }
    Err(DecodeError::InvalidVarint)
}

/// Decodes a LEB128 varint from the buffer one byte at a time, advancing the
/// buffer as it reads. Used when fewer than 10 bytes remain and the visible
/// bytes do not show a terminator; succeeds exactly when the unconsumed
/// bytes begin with a well-formed varint.
#[verifier::loop_isolation(false)]
pub fn decode_varint_slow(buf: &mut DecodeBuf) -> (r: Result<u64, DecodeError>)
    ensures
        final(buf).spec_data() == old(buf).spec_data(),
        old(buf).spec_pos() <= final(buf).spec_pos() <= final(buf).spec_data().len(),
        match r {
            Ok(value) => {
                &&& varint_valid(old(buf).spec_rem())
                &&& value as nat == varint_decoded(old(buf).spec_rem())
                &&& final(buf).spec_pos() == old(buf).spec_pos() + varint_run_len(
                    old(buf).spec_rem(),
                )
            },
            Err(e) => {
                &&& e == DecodeError::InvalidVarint
                &&& !varint_valid(old(buf).spec_rem())
            },
        },
{
    let ghost orig = *buf;
    let rem = buf.remaining();
    let max: usize = if rem < 10 {
        rem
    } else {
        10
    };
    proof {
        lemma2_to64();
        assert(varint_value(orig.spec_rem(), 0) == 0);
    }
    let mut value: u64 = 0;
    let mut mult: u64 = 1;
    let mut count: usize = 0;
    while count < max
        invariant
            max <= 10,
            max <= orig.spec_rem().len(),
            max == 10 || max == orig.spec_rem().len(),
            0 <= count <= max,
            buf.spec_data() == orig.spec_data(),
            buf.spec_pos() == orig.spec_pos() + count,
            buf.spec_pos() <= buf.spec_data().len(),
            buf.spec_rem() =~= orig.spec_rem().skip(count as int),
            forall|j: int| 0 <= j < count ==> orig.spec_rem()[j] >= 128,
            count <= 9 ==> mult == pow2((7 * count) as nat),
            count <= 9 ==> value == varint_value(orig.spec_rem(), count as nat),
            count <= 9 ==> value < pow2((7 * count) as nat),
        decreases max - count,
    {
        let byte = buf.get_u8();
        proof {
            assert(byte == orig.spec_rem()[count as int]);
        }
        if byte < 128 {
            if count == 9 && byte >= 2 {
                proof {
                    lemma_run_budget_is(orig.spec_rem(), 10, 10);
                }
                return Err(DecodeError::InvalidVarint);
            }
            proof {
                lemma_run_budget_is(orig.spec_rem(), 10, (count + 1) as nat);
                lemma_varint_value_step(orig.spec_rem(), count as nat);
                lemma2_to64();
                lemma2_to64_rest();
                if count < 9 {
                    lemma_mul_inequality(byte as int, 127, pow2((7 * count) as nat) as int);
                    lemma_pow2_adds((7 * count) as nat, 7);
                    if 7 * count + 7 < 63 {
                        lemma_pow2_strictly_increases((7 * count + 7) as nat, 63);
                    }
                } else {
                    lemma_mul_inequality(byte as int, 1, pow2(63) as int);
                }
            }
            let v = value + (byte as u64) * mult;
            return Ok(v);
        }
        if count < 9 {
            proof {
                lemma_varint_value_step(orig.spec_rem(), count as nat);
                lemma2_to64();
                lemma_mul_inequality((byte % 128) as int, 127, pow2((7 * count) as nat) as int);
                lemma_pow2_adds((7 * count) as nat, 7);
                if 7 * count + 7 < 63 {
                    lemma_pow2_strictly_increases((7 * count + 7) as nat, 63);
                }
                lemma2_to64_rest();
            }
            value = value + ((byte % 128) as u64) * mult;
            mult = mult * 128;
        }
        count = count + 1;
    }
    proof {
        lemma_run_budget_none(orig.spec_rem(), 10);
    }
    Err(DecodeError::InvalidVarint)
}

} // verus!
