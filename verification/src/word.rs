//! The machine word as a block: one bit per binary digit, bit 0 the lowest.

use vstd::prelude::*;
use vstd::arithmetic::power2::lemma2_to64;
use vstd::arithmetic::power2::pow2;
use crate::block::filled;
use crate::block::union_bits;
use crate::block::Block;

verus! {

/// Whether binary digit `idx` of `word` is a one.
pub open spec fn word_bit(word: usize, idx: int) -> bool {
    (word >> (idx as usize)) & 1 == 1
}

impl Block for usize {
    const SIZE: usize = usize::BITS as usize;

    open spec fn bits(&self) -> Seq<bool> {
        Seq::new(usize::BITS as nat, |i: int| word_bit(*self, i))
    }

    proof fn lemma_size()
        ensures
            Self::SIZE == usize::BITS,
    {
        lemma2_to64();
        assert(Self::SIZE as nat == pow2(0) * usize::BITS);
    }

    proof fn lemma_bits_len(&self) {
    }

    proof fn lemma_clone_keeps_bits(&self, copy: &Self) {
    }

    fn zeros() -> (block: Self) {
        let block: usize = 0;
        proof {
            assert forall|i: int| 0 <= i < usize::BITS implies !word_bit(block, i) by {
                let k: usize = i as usize;
                assert((0usize >> k) & 1 != 1) by (bit_vector);
            }
            assert(block.bits() =~= filled(Self::SIZE as nat, false));
        }
        block
    }

    fn ones() -> (block: Self) {
        let block: usize = usize::MAX;
        proof {
            assert forall|i: int| 0 <= i < usize::BITS implies word_bit(block, i) by {
                if usize::BITS == 32 {
                    let k: u32 = i as u32;
                    assert((0xffff_ffffu32 >> k) & 1 == 1) by (bit_vector)
                        requires
                            k < 32,
                    ;
                } else {
                    let k: u64 = i as u64;
                    assert((0xffff_ffff_ffff_ffffu64 >> k) & 1 == 1) by (bit_vector)
                        requires
                            k < 64,
                    ;
                }
            }
            assert(block.bits() =~= filled(Self::SIZE as nat, true));
        }
        block
    }

    fn set(&mut self, idx: usize) {
        let ghost before: usize = *self;
        *self |= 1 << idx;
        proof {
            let after: usize = *self;
            assert forall|i: int| 0 <= i < usize::BITS implies word_bit(after, i) == (i == idx
                || word_bit(before, i)) by {
                let k: usize = i as usize;
                assert((((before | (1usize << idx)) >> k) & 1 == 1) == (k == idx || (before >> k)
                    & 1 == 1)) by (bit_vector)
                    requires
                        k < usize::BITS,
                        idx < usize::BITS,
                ;
            }
            assert(after.bits() =~= before.bits().update(idx as int, true));
        }
    }

    fn get(&self, idx: usize) -> (bit: bool) {
        let word: usize = *self;
        assert((word & (1usize << idx) != 0) == ((word >> idx) & 1 == 1)) by (bit_vector)
            requires
                idx < usize::BITS,
        ;
        word & (1 << idx) != 0
    }

    fn or(self, rhs: Self) -> (block: Self) {
        let block: usize = self | rhs;
        proof {
            assert forall|i: int| 0 <= i < usize::BITS implies word_bit(block, i) == (word_bit(
                self,
                i,
            ) || word_bit(rhs, i)) by {
                let k: usize = i as usize;
                assert((((self | rhs) >> k) & 1 == 1) == ((self >> k) & 1 == 1 || (rhs >> k) & 1
                    == 1)) by (bit_vector);
            }
            assert(block.bits() =~= union_bits(self.bits(), rhs.bits()));
        }
        block
    }
}

} // verus!
