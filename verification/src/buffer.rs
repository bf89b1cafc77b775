//! The byte buffers the codec operates on: a bounded destination for the
//! encode direction and a cursor over immutable bytes for the decode
//! direction.

use vstd::prelude::*;

verus! {

/// Destination buffer for the encoders: an owned byte vector together with a
/// fixed capacity, standing for a caller-provided buffer with a limited
/// amount of remaining space.
///
/// The low-level encoders require the caller to have checked capacity
/// against `encoded_len` before writing; the capacity-checked entry points
/// do that check themselves and return a typed error instead.
pub struct EncodeBuf {
    bytes: Vec<u8>,
    remaining: usize,
}

impl View for EncodeBuf {
    type V = Seq<u8>;

    closed spec fn view(&self) -> Seq<u8> {
        self.bytes@
    }
}

impl EncodeBuf {
    /// The total number of bytes this buffer can hold.
    pub closed spec fn spec_capacity(&self) -> nat {
        (self.bytes@.len() + self.remaining) as nat
    }

    /// Creates an empty buffer that can hold `capacity` bytes in all.
    pub fn new(capacity: usize) -> (r: EncodeBuf)
        ensures
            r@ == Seq::<u8>::empty(),
            r.spec_capacity() == capacity,
    {
        EncodeBuf { bytes: Vec::new(), remaining: capacity }
    }

    /// The number of bytes that can still be written.
    pub fn remaining_mut(&self) -> (r: usize)
        ensures
            r == self.spec_capacity() - self@.len(),
    {
        self.remaining
    }

    /// Appends one byte. The caller must have checked capacity.
    pub fn put_u8(&mut self, b: u8)
        requires
            old(self)@.len() < old(self).spec_capacity(),
        ensures
            final(self)@ == old(self)@.push(b),
            final(self).spec_capacity() == old(self).spec_capacity(),
    {
        self.bytes.push(b);
        self.remaining = self.remaining - 1;
    }

    /// The number of bytes written so far.
    pub fn len(&self) -> (r: usize)
        ensures
            r == self@.len(),
    {
        self.bytes.len()
    }

    /// The bytes written so far.
    pub fn as_slice(&self) -> (r: &[u8])
        ensures
            r@ == self@,
    {
        self.bytes.as_slice()
    }
}

/// A cursor over an immutable byte sequence, consumed from the front: the
/// decoders read at the current position and advance it.
pub struct DecodeBuf {
    bytes: Vec<u8>,
    pos: usize,
}

impl DecodeBuf {
    #[verifier::type_invariant]
    spec fn inv(self) -> bool {
        self.pos <= self.bytes@.len()
    }

    /// The whole underlying byte sequence, consumed and not.
    pub closed spec fn spec_data(&self) -> Seq<u8> {
        self.bytes@
    }

    /// How many bytes have been consumed so far.
    pub closed spec fn spec_pos(&self) -> nat {
        self.pos as nat
    }

    /// The bytes not yet consumed.
    pub open spec fn spec_rem(&self) -> Seq<u8> {
        self.spec_data().skip(self.spec_pos() as int)
    }

    /// Creates a cursor at the start of `bytes`.
    pub fn new(bytes: Vec<u8>) -> (r: DecodeBuf)
        ensures
            r.spec_data() == bytes@,
            r.spec_pos() == 0,
    {
        DecodeBuf { bytes, pos: 0 }
    }

    /// The number of bytes not yet consumed.
    pub fn remaining(&self) -> (r: usize)
        ensures
            r == self.spec_rem().len(),
            self.spec_pos() + r == self.spec_data().len(),
    {
        proof {
            use_type_invariant(self);
        }
        self.bytes.len() - self.pos
    }

    /// Reads the unconsumed byte at offset `i` without consuming it.
    pub fn peek(&self, i: usize) -> (r: u8)
        requires
            i < self.spec_rem().len(),
        ensures
            r == self.spec_rem()[i as int],
    {
        let len = self.bytes.len();
        proof {
            use_type_invariant(self);
            assert(self.spec_rem().len() == len - self.pos);
        }
        self.bytes[self.pos + i]
    }

    /// Consumes `n` bytes.
    pub fn advance(&mut self, n: usize)
        requires
            n <= old(self).spec_rem().len(),
        ensures
            final(self).spec_data() == old(self).spec_data(),
            final(self).spec_pos() == old(self).spec_pos() + n,
            final(self).spec_pos() <= final(self).spec_data().len(),
            final(self).spec_rem() == old(self).spec_rem().skip(n as int),
    {
        let len = self.bytes.len();
        proof {
            use_type_invariant(&*self);
            assert(old(self).spec_rem().len() == len - self.pos);
        }
        self.pos = self.pos + n;
        proof {
            assert(self.spec_rem() =~= old(self).spec_rem().skip(n as int));
        }
    }

    /// Reads and consumes one byte.
    pub fn get_u8(&mut self) -> (r: u8)
        requires
            old(self).spec_rem().len() >= 1,
        ensures
            final(self).spec_data() == old(self).spec_data(),
            final(self).spec_pos() == old(self).spec_pos() + 1,
            final(self).spec_pos() <= final(self).spec_data().len(),
            final(self).spec_rem() == old(self).spec_rem().skip(1),
            r == old(self).spec_rem()[0],
    {
        let b = self.peek(0);
        self.advance(1);
        b
    }

    /// Borrows the bytes not yet consumed as a slice.
    pub fn remaining_slice(&self) -> (r: &[u8])
        ensures
            r@ == self.spec_rem(),
    {
        proof {
            use_type_invariant(self);
        }
        let r = vstd::slice::slice_subrange(self.bytes.as_slice(), self.pos, self.bytes.len());
        proof {
            assert(r@ =~= self.spec_rem());
        }
        r
    }
}

} // verus!
