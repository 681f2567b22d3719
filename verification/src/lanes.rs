//! Four 64-bit lanes side by side as one block of 256 bits.
//!
//! The lanes are held in a `wide::u64x4`. Bit `i` of the block is binary digit
//! `i % 64` of lane `i / 64`. What the vector type does is taken on trust, as the
//! contracts below state it over `lanes`; the block's operations are proved
//! from those contracts.

use vstd::prelude::*;
use vstd::arithmetic::power2::lemma2_to64;
use vstd::arithmetic::power2::pow2;
use crate::block::filled;
use crate::block::union_bits;
use crate::block::Block;
use crate::index::div_rem;

verus! {

/// The vector type of the `wide` crate, carried as an opaque value.
#[verifier::external_type_specification]
#[verifier::external_body]
pub struct ExU64x4(wide::u64x4);

/// The four lanes of a vector, lane 0 first: what `to_array` hands out.
pub uninterp spec fn lanes(v: wide::u64x4) -> Seq<u64>;

/// `wide::u64x4::to_array` reinterprets the vector as an array of its four
/// lanes, in order.
pub assume_specification[ wide::u64x4::to_array ](v: wide::u64x4) -> (array: [u64; 4])
    ensures
        array@ == lanes(v),
;

/// `From<[u64; 4]>` for `wide::u64x4` reinterprets an array as a vector: lane `k`
/// of the vector is element `k` of the array.
pub assume_specification[ <wide::u64x4 as From<[u64; 4]>>::from ](array: [u64; 4]) -> (v:
    wide::u64x4)
    ensures
        lanes(v) == array@,
;

/// `Clone` for `wide::u64x4` is derived on a `Copy` type: the clone has the
/// lanes of the vector it was made from.
pub assume_specification[ <wide::u64x4 as Clone>::clone ](v: &wide::u64x4) -> (copy: wide::u64x4)
    ensures
        lanes(copy) == lanes(*v),
;

/// `wide::u64x4::MIN` is the vector whose four lanes hold `u64::MIN`.
#[verifier::external_body]
fn min_lanes() -> (v: wide::u64x4)
    ensures
        lanes(v) == seq![u64::MIN, u64::MIN, u64::MIN, u64::MIN],
{
    wide::u64x4::MIN
}

/// `wide::u64x4::MAX` is the vector whose four lanes hold `u64::MAX`.
#[verifier::external_body]
fn max_lanes() -> (v: wide::u64x4)
    ensures
        lanes(v) == seq![u64::MAX, u64::MAX, u64::MAX, u64::MAX],
{
    wide::u64x4::MAX
}

/// `BitOr` for `wide::u64x4` combines two vectors lane by lane: lane `k` of the
/// result is the bitwise OR of lane `k` of each operand.
#[verifier::external_body]
fn or_lanes(lhs: wide::u64x4, rhs: wide::u64x4) -> (v: wide::u64x4)
    ensures
        lanes(v) == seq![
            lanes(lhs)[0] | lanes(rhs)[0],
            lanes(lhs)[1] | lanes(rhs)[1],
            lanes(lhs)[2] | lanes(rhs)[2],
            lanes(lhs)[3] | lanes(rhs)[3],
        ],
{
    lhs | rhs
}

/// Whether binary digit `idx` of `lane` is a one.
pub open spec fn lane_bit(lane: u64, idx: int) -> bool {
    (lane >> (idx as u64)) & 1 == 1
}

/// Bit `idx` of four lanes side by side: binary digit `idx % 64` of lane
/// `idx / 64`.
pub open spec fn lanes_bit(lanes: Seq<u64>, idx: int) -> bool {
    lane_bit(lanes[idx / 64], idx % 64)
}

/// The bits of four lanes laid end to end, lane 0 first.
pub open spec fn lanes_bits(lanes: Seq<u64>) -> Seq<bool> {
    Seq::new(256, |i: int| lanes_bit(lanes, i))
}

impl Block for wide::u64x4 {
    const SIZE: usize = 64 * 4;

    open spec fn bits(&self) -> Seq<bool> {
        lanes_bits(lanes(*self))
    }

    proof fn lemma_size()
        ensures
            Self::SIZE == 256,
    {
        lemma2_to64();
        if usize::BITS == 32 {
            assert(Self::SIZE as nat == pow2(3) * usize::BITS);
        } else {
            assert(Self::SIZE as nat == pow2(2) * usize::BITS);
        }
    }

    proof fn lemma_bits_len(&self) {
    }

    proof fn lemma_clone_keeps_bits(&self, copy: &Self) {
    }

    fn zeros() -> (block: Self) {
        let block = min_lanes();
        proof {
            assert forall|i: int| 0 <= i < 256 implies !lanes_bit(lanes(block), i) by {
                let k: u64 = (i % 64) as u64;
                assert((0u64 >> k) & 1 != 1) by (bit_vector);
            }
            assert(block.bits() =~= filled(Self::SIZE as nat, false));
        }
        block
    }

    fn ones() -> (block: Self) {
        let block = max_lanes();
        proof {
            assert forall|i: int| 0 <= i < 256 implies lanes_bit(lanes(block), i) by {
                let k: u64 = (i % 64) as u64;
                assert((0xffff_ffff_ffff_ffffu64 >> k) & 1 == 1) by (bit_vector)
                    requires
                        k < 64,
                ;
            }
            assert(block.bits() =~= filled(Self::SIZE as nat, true));
        }
        block
    }

    fn set(&mut self, idx: usize)
        ensures
            lanes(*final(self)) == lanes(*old(self)).update(
                idx as int / 64,
                lanes(*old(self))[idx as int / 64] | (1u64 << (idx % 64)),
            ),
    {
        let ghost before: Seq<u64> = lanes(*self);
        let (lane, bit): (usize, usize) = div_rem(idx, 64);
        let mut array: [u64; 4] = self.to_array();
        array[lane] |= 1 << bit;
        *self = Self::from(array);
        proof {
            let after: Seq<u64> = lanes(*self);
            assert(after =~= before.update(lane as int, before[lane as int] | (1u64 << bit)));
            assert forall|i: int| 0 <= i < 256 implies lanes_bit(after, i) == (i == idx || lanes_bit(
                before,
                i,
            )) by {
                let k: u64 = (i % 64) as u64;
                let old_lane: u64 = before[i / 64];
                if i / 64 == lane {
                    assert((((old_lane | (1u64 << bit)) >> k) & 1 == 1) == (k == bit || (old_lane
                        >> k) & 1 == 1)) by (bit_vector)
                        requires
                            k < 64,
                            bit < 64,
                    ;
                }
            }
            assert(lanes_bits(after) =~= lanes_bits(before).update(idx as int, true));
        }
    }

    fn get(&self, idx: usize) -> (bit: bool) {
        let (lane, bit): (usize, usize) = div_rem(idx, 64);
        let word: u64 = self.to_array()[lane];
        assert((word & (1u64 << bit) != 0) == ((word >> bit) & 1 == 1)) by (bit_vector)
            requires
                bit < 64,
        ;
        let value: u64 = word & (1 << bit);
        value != 0
    }

    fn or(self, rhs: Self) -> (block: Self) {
        let block = or_lanes(self, rhs);
        proof {
            assert forall|i: int| 0 <= i < 256 implies lanes_bit(lanes(block), i) == (lanes_bit(
                lanes(self),
                i,
            ) || lanes_bit(lanes(rhs), i)) by {
                let k: u64 = (i % 64) as u64;
                let a: u64 = lanes(self)[i / 64];
                let b: u64 = lanes(rhs)[i / 64];
                assert((((a | b) >> k) & 1 == 1) == ((a >> k) & 1 == 1 || (b >> k) & 1 == 1))
                    by (bit_vector);
            }
            assert(block.bits() =~= union_bits(self.bits(), rhs.bits()));
        }
        block
    }
}

} // verus!
