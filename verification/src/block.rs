//! The contract of a block: a fixed number of bits that can be set and read one
//! by one, and combined with another block by bitwise OR.

use vstd::prelude::*;
use vstd::arithmetic::power2::pow2;

verus! {

/// `len` bits that all equal `bit`.
pub open spec fn filled(len: nat, bit: bool) -> Seq<bool> {
    Seq::new(len, |i: int| bit)
}

/// The bitwise OR of two rows of bits. It is as long as the longer of the two,
/// and past the end of the shorter one it repeats the longer one: a missing bit
/// counts as a zero.
pub open spec fn union_bits(a: Seq<bool>, b: Seq<bool>) -> Seq<bool> {
    Seq::new(
        if a.len() >= b.len() {
            a.len()
        } else {
            b.len()
        },
        |i: int| (i < a.len() && a[i]) || (i < b.len() && b[i]),
    )
}

/// Whether `size` is the width of a machine word times a power of two.
pub open spec fn is_word_multiple(size: nat) -> bool {
    exists|k: nat| size == #[trigger] pow2(k) * usize::BITS
}

/// A container of `SIZE` bits, numbered from 0.
///
/// An implementation chooses how the bits are stored; `bits` says which of them
/// are set, and every operation is stated over it.
pub trait Block: Clone + Sized {
    /// The number of bits in one block.
    const SIZE: usize;

    /// The bits of the block, bit 0 first.
    spec fn bits(&self) -> Seq<bool>;

    /// The width is positive: a machine word's width, or a power of two times it.
    proof fn lemma_size()
        ensures
            Self::SIZE > 0,
            is_word_multiple(Self::SIZE as nat),
    ;

    /// Every block has `SIZE` bits.
    proof fn lemma_bits_len(&self)
        ensures
            self.bits().len() == Self::SIZE,
    ;

    /// A clone of a block has the bits of the block it was made from.
    proof fn lemma_clone_keeps_bits(&self, copy: &Self)
        requires
            cloned::<Self>(*self, *copy),
        ensures
            copy.bits() == self.bits(),
    ;

    /// The block with no bit set.
    fn zeros() -> (block: Self)
        ensures
            block.bits() == filled(Self::SIZE as nat, false),
    ;

    /// The block with every bit set.
    fn ones() -> (block: Self)
        ensures
            block.bits() == filled(Self::SIZE as nat, true),
    ;

    /// Sets bit `idx` and leaves the others as they are.
    fn set(&mut self, idx: usize)
        requires
            idx < Self::SIZE,
        ensures
            final(self).bits() == old(self).bits().update(idx as int, true),
    ;

    /// Whether bit `idx` is set.
    fn get(&self, idx: usize) -> (bit: bool)
        requires
            idx < Self::SIZE,
        ensures
            bit == self.bits()[idx as int],
    ;

    /// The bitwise OR of two blocks.
    fn or(self, rhs: Self) -> (block: Self)
        ensures
            block.bits() == union_bits(self.bits(), rhs.bits()),
    ;
}

} // verus!
