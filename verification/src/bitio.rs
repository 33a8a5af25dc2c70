//! Trusted boundary to the `bitvec` crate: the decoder accumulates and
//! returns its bits in a `bitvec::vec::BitVec<u8, Msb0>`, held opaquely in
//! [`BitBuf`]. Each operation the decoder uses gets its contract here,
//! stated over the abstract bit contents `bits_of`.

use vstd::prelude::*;

verus! {

/// An append-only buffer of bits, backed by `bitvec::vec::BitVec<u8, Msb0>`:
/// most-significant bit of each byte first, so bit `8 * k + j` of the buffer
/// is bit `7 - j` of byte `k` of the underlying storage.
#[verifier::external_body]
#[derive(Debug)]
pub struct BitBuf {
    inner: bitvec::vec::BitVec<u8, bitvec::order::Msb0>,
}

/// The bits a `BitBuf` holds, in order from the front.
pub uninterp spec fn bits_of(v: BitBuf) -> Seq<bool>;

/// The largest bit count the underlying `BitVec` can hold on a 64-bit
/// target: bitvec's `BitSlice::MAX_BITS`, beyond which `push` panics.
pub const BIT_CAPACITY: u64 = 0x1fff_ffff_ffff_ffff;

impl BitBuf {
    /// Relies on `BitVec::new`: it returns an empty bit-vector.
    #[verifier::external_body]
    pub(crate) fn new() -> (r: BitBuf)
        ensures
            bits_of(r) == Seq::<bool>::empty(),
    {
        BitBuf { inner: bitvec::vec::BitVec::new() }
    }

    /// Relies on `BitVec::push`: it appends one bit at the back, and panics
    /// only when the length would pass `BitSlice::MAX_BITS`.
    #[verifier::external_body]
    pub(crate) fn push(&mut self, bit: bool)
        requires
            bits_of(*old(self)).len() < BIT_CAPACITY,
        ensures
            bits_of(*final(self)) == bits_of(*old(self)).push(bit),
    {
        self.inner.push(bit)
    }

    /// Relies on `BitVec::len`: it returns the number of bits held.
    #[verifier::external_body]
    pub fn len(&self) -> (r: usize)
        ensures
            r == bits_of(*self).len(),
    {
        self.inner.len()
    }

    /// Relies on `BitVec::clear` (`truncate(0)`): it empties the bit-vector.
    #[verifier::external_body]
    pub(crate) fn clear(&mut self)
        ensures
            bits_of(*final(self)) == Seq::<bool>::empty(),
    {
        self.inner.clear()
    }

    /// Relies on `BitSlice`'s `Index<usize>` impl: it looks one bit up by
    /// its semantic index, and panics when the index is out of bounds.
    #[verifier::external_body]
    pub fn get(&self, i: usize) -> (r: bool)
        requires
            i < bits_of(*self).len(),
        ensures
            r == bits_of(*self)[i as int],
    {
        self.inner[i]
    }
}

} // verus!
