//! What holds of every bit set, whatever its block type: how union behaves, and
//! that setting a bit changes that bit alone.

use vstd::prelude::*;
use crate::bitset::BitSet;
use crate::block::filled;
use crate::block::union_bits;
use crate::block::Block;
use crate::index::blocks_needed;

verus! {

/// Union with zeros changes nothing: where a set of zeros made for `n` bits has
/// no more blocks than `x`, the union of the two, in either order, has exactly
/// the bits of `x`.
pub proof fn lemma_union_with_zeros<B: Block>(x: BitSet<B>, n: nat)
    requires
        blocks_needed(n, B::SIZE as nat) <= x.blocks().len(),
    ensures
        BitSet::<B>::span(n) <= x@.len(),
        union_bits(x@, filled(BitSet::<B>::span(n), false)) == x@,
        union_bits(filled(BitSet::<B>::span(n), false), x@) == x@,
{
    let zeros: Seq<bool> = filled(BitSet::<B>::span(n), false);
    assert(BitSet::<B>::span(n) <= x@.len()) by (nonlinear_arith)
        requires
            blocks_needed(n, B::SIZE as nat) <= x.blocks().len(),
            BitSet::<B>::span(n) == blocks_needed(n, B::SIZE as nat) * (B::SIZE as nat),
            x@.len() == x.blocks().len() * (B::SIZE as nat),
    ;
    assert(union_bits(x@, zeros) =~= x@);
    assert(union_bits(zeros, x@) =~= x@);
}

/// Union is commutative: the two orders give the same bits, over the same
/// length.
pub proof fn lemma_union_commutes<B: Block>(x: BitSet<B>, y: BitSet<B>)
    ensures
        union_bits(x@, y@) == union_bits(y@, x@),
{
    assert(union_bits(x@, y@) =~= union_bits(y@, x@));
}

/// Where both sets reach, a bit of the union is the OR of the two bits there.
pub proof fn lemma_union_is_pointwise_or<B: Block>(x: BitSet<B>, y: BitSet<B>, i: int)
    requires
        0 <= i < x@.len(),
        i < y@.len(),
    ensures
        i < union_bits(x@, y@).len(),
        union_bits(x@, y@)[i] == (x@[i] || y@[i]),
{
}

/// Past the end of the shorter set the union repeats the longer one: where `x`
/// has more blocks than `y`, every bit of `x` beyond `y` stands in the union as
/// it is.
pub proof fn lemma_union_passes_tail<B: Block>(x: BitSet<B>, y: BitSet<B>, i: int)
    requires
        y.blocks().len() < x.blocks().len(),
        y@.len() <= i < x@.len(),
    ensures
        union_bits(x@, y@).len() == x@.len(),
        union_bits(x@, y@)[i] == x@[i],
        union_bits(y@, x@)[i] == x@[i],
{
}

/// After bit `i` is set it reads as set, and every other bit reads as before.
pub proof fn lemma_set_then_get<B: Block>(s: BitSet<B>, i: int, j: int)
    requires
        0 <= i < s@.len(),
        0 <= j < s@.len(),
    ensures
        s@.update(i, true).len() == s@.len(),
        s@.update(i, true)[i],
        j != i ==> s@.update(i, true)[j] == s@[j],
{
}

} // verus!
