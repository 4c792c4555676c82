//! The bit vector that backs the board, and what is taken on trust about it.
//!
//! [`Bits`] holds a `bitvec::vec::BitVec<usize, Lsb0>`. The verifier does not
//! look inside it: no contract in this file is proved, each restates what the
//! `bitvec` crate documents or what its source shows.

use crate::packing::packs;
use bitvec::order::Lsb0;
use bitvec::vec::BitVec;
use vstd::prelude::*;

verus! {

/// A `bitvec::vec::BitVec<usize, Lsb0>`, opaque to the verifier.
#[verifier::external_body]
pub struct Bits {
    inner: BitVec<usize, Lsb0>,
}

/// The bits that a vector holds, in index order.
pub uninterp spec fn bit_seq(v: Bits) -> Seq<bool>;

/// How many bit positions of the first storage word a vector leaves unused
/// before its first bit.
pub uninterp spec fn bit_offset(v: Bits) -> nat;

impl View for Bits {
    type V = Seq<bool>;

    open spec fn view(&self) -> Seq<bool> {
        bit_seq(*self)
    }
}

impl Bits {
    /// `BitVec::repeat`: a new vector of `len` copies of `bit`, starting at
    /// the first position of its first word. The call panics when `len` is
    /// more than an eighth of the `usize` range, which `requires` excludes.
    #[verifier::external_body]
    pub(crate) fn repeat(bit: bool, len: usize) -> (v: Bits)
        requires
            len <= usize::MAX / 8,
        ensures
            bit_seq(v) == Seq::new(len as nat, |i: int| bit),
            bit_offset(v) == 0,
    {
        Bits { inner: BitVec::repeat(bit, len) }
    }

    /// `BitVec::clone`: a vector with the same bits, laid out the same way.
    #[verifier::external_body]
    pub(crate) fn duplicate(&self) -> (v: Bits)
        ensures
            bit_seq(v) == bit_seq(*self),
            bit_offset(v) == bit_offset(*self),
    {
        Bits { inner: self.inner.clone() }
    }

    /// Indexing a `BitVec` by `usize`: the bit at `index`. The call panics
    /// when `index` is out of bounds, which `requires` excludes.
    #[verifier::external_body]
    pub(crate) fn get(&self, index: usize) -> (bit: bool)
        requires
            index < bit_seq(*self).len(),
        ensures
            bit == bit_seq(*self)[index as int],
    {
        self.inner[index]
    }

    /// `BitSlice::set`, reached through the vector: writes `value` at `index`
    /// and leaves every other bit and the layout alone. The call panics when
    /// `index` is out of bounds, which `requires` excludes.
    #[verifier::external_body]
    pub(crate) fn set(&mut self, index: usize, value: bool)
        requires
            index < bit_seq(*old(self)).len(),
        ensures
            bit_seq(*final(self)) == bit_seq(*old(self)).update(index as int, value),
            bit_offset(*final(self)) == bit_offset(*old(self)),
        no_unwind
    {
        self.inner.set(index, value);
    }

    /// `BitVec::as_raw_slice`: the storage words that hold live bits. With
    /// `Lsb0` order over `usize` words the bits fill each word from its least
    /// significant bit.
    #[verifier::external_body]
    pub(crate) fn as_raw_slice(&self) -> (words: &[usize])
        ensures
            packs(words@, bit_offset(*self), bit_seq(*self)),
    {
        self.inner.as_raw_slice()
    }
}

} // verus!
