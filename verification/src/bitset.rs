//! A bit set: a row of blocks read as one long row of bits.

use vstd::prelude::*;
use std::ops::BitOr;
use crate::block::filled;
use crate::block::union_bits;
use crate::block::Block;
use crate::index::blocks_needed;
use crate::index::capacity;
use crate::index::div_rem;
use crate::index::lemma_blocks_needed_is_ceiling;
use crate::index::lemma_chunk_below;
use crate::index::lemma_join;
use crate::index::lemma_split;
use crate::pairing::merge;
use crate::pairing::merged;
use crate::pairing::zip_longest;
use crate::pairing::zipped;
use crate::pairing::Paired;

verus! {

/// The bits of a row of blocks laid end to end: bit `i` of the row is bit
/// `i % SIZE` of block `i / SIZE`.
pub open spec fn row_bits<B: Block>(blocks: Seq<B>) -> Seq<bool> {
    Seq::new(
        capacity(blocks.len(), B::SIZE as nat),
        |i: int| blocks[i / (B::SIZE as int)].bits()[i % (B::SIZE as int)],
    )
}

/// A row of blocks that each hold `bit` at every place is a row of equal bits.
proof fn lemma_row_filled<B: Block>(blocks: Seq<B>, bit: bool)
    requires
        forall|k: int|
            0 <= k < blocks.len() ==> (#[trigger] blocks[k]).bits() == filled(B::SIZE as nat, bit),
    ensures
        row_bits(blocks) == filled(capacity(blocks.len(), B::SIZE as nat), bit),
{
    B::lemma_size();
    assert forall|i: int| 0 <= i < capacity(blocks.len(), B::SIZE as nat) implies row_bits(
        blocks,
    )[i] == bit by {
        lemma_split(i, B::SIZE as int, blocks.len() as int);
    }
    assert(row_bits(blocks) =~= filled(capacity(blocks.len(), B::SIZE as nat), bit));
}

/// Setting place `local` of block `chunk` sets bit `chunk * SIZE + local` of the
/// row and no other.
proof fn lemma_row_update<B: Block>(before: Seq<B>, after: Seq<B>, chunk: int, local: int)
    requires
        0 <= chunk < before.len(),
        0 <= local < B::SIZE,
        after.len() == before.len(),
        forall|k: int| 0 <= k < before.len() && k != chunk ==> after[k] == before[k],
        after[chunk].bits() == before[chunk].bits().update(local, true),
    ensures
        0 <= chunk * B::SIZE + local < row_bits(before).len(),
        row_bits(after) == row_bits(before).update(chunk * B::SIZE + local, true),
{
    let size: int = B::SIZE as int;
    let idx: int = chunk * size + local;
    lemma_join(chunk, local, size);
    before[chunk].lemma_bits_len();
    assert(0 <= idx < before.len() * size) by (nonlinear_arith)
        requires
            idx == chunk * size + local,
            0 <= chunk < before.len(),
            0 <= local < size,
    ;
    assert forall|i: int| 0 <= i < capacity(before.len(), B::SIZE as nat) implies row_bits(
        after,
    )[i] == row_bits(before).update(idx, true)[i] by {
        lemma_split(i, size, before.len() as int);
    }
    assert(row_bits(after) =~= row_bits(before).update(idx, true));
}

/// Two rows of as many blocks, which hold the same bits block by block, hold the
/// same bits.
proof fn lemma_row_same_bits<B: Block>(a: Seq<B>, b: Seq<B>)
    requires
        a.len() == b.len(),
        forall|k: int| 0 <= k < a.len() ==> (#[trigger] b[k]).bits() == a[k].bits(),
    ensures
        row_bits(a) == row_bits(b),
{
    B::lemma_size();
    assert forall|i: int| 0 <= i < capacity(a.len(), B::SIZE as nat) implies row_bits(a)[i]
        == row_bits(b)[i] by {
        lemma_split(i, B::SIZE as int, a.len() as int);
    }
    assert(row_bits(a) =~= row_bits(b));
}

/// Merging two rows of blocks pair by pair gives the union of their bits.
proof fn lemma_row_union<B: Block>(lhs: Seq<B>, rhs: Seq<B>, out: Seq<B>)
    requires
        out.len() == zipped(lhs, rhs).len(),
        forall|k: int| 0 <= k < out.len() ==> merged(zipped(lhs, rhs)[k], #[trigger] out[k]),
    ensures
        row_bits(out) == union_bits(row_bits(lhs), row_bits(rhs)),
{
    let size: int = B::SIZE as int;
    B::lemma_size();
    assert(capacity(out.len(), B::SIZE as nat) == if row_bits(lhs).len() >= row_bits(rhs).len() {
        row_bits(lhs).len()
    } else {
        row_bits(rhs).len()
    }) by (nonlinear_arith)
        requires
            size > 0,
            out.len() == if lhs.len() >= rhs.len() {
                lhs.len()
            } else {
                rhs.len()
            },
            capacity(out.len(), B::SIZE as nat) == out.len() * size,
            row_bits(lhs).len() == lhs.len() * size,
            row_bits(rhs).len() == rhs.len() * size,
    ;
    assert forall|i: int| 0 <= i < capacity(out.len(), B::SIZE as nat) implies row_bits(out)[i]
        == union_bits(row_bits(lhs), row_bits(rhs))[i] by {
        let k: int = i / size;
        lemma_split(i, size, out.len() as int);
        lemma_chunk_below(i, size, lhs.len() as int);
        lemma_chunk_below(i, size, rhs.len() as int);
        assert(merged(zipped(lhs, rhs)[k], out[k]));
        if k < lhs.len() {
            lhs[k].lemma_bits_len();
        }
        if k < rhs.len() {
            rhs[k].lemma_bits_len();
        }
    }
    assert(row_bits(out) =~= union_bits(row_bits(lhs), row_bits(rhs)));
}

/// A set of bit positions, stored as whole blocks of type `B`.
///
/// The set has no length of its own: it reaches as far as its blocks do, so its
/// number of bits is always a multiple of `B::SIZE`.
pub struct BitSet<B> {
    data: Vec<B>,
}

impl<B: Block> View for BitSet<B> {
    type V = Seq<bool>;

    /// The bits of the set, bit 0 first.
    open spec fn view(&self) -> Seq<bool> {
        row_bits(self.blocks())
    }
}

impl<B: Block> BitSet<B> {
    /// The blocks of the set, in order.
    pub closed spec fn blocks(&self) -> Seq<B> {
        self.data@
    }

    /// The number of bits of a set made for `n` bits: `n` rounded up to whole
    /// blocks.
    pub open spec fn span(n: nat) -> nat {
        capacity(blocks_needed(n, B::SIZE as nat), B::SIZE as nat)
    }

    /// The number of blocks that hold `n` bits: `n / SIZE`, rounded up.
    pub fn required_blocks(n: usize) -> (count: usize)
        ensures
            count == blocks_needed(n as nat, B::SIZE as nat),
    {
        proof {
            B::lemma_size();
            lemma_blocks_needed_is_ceiling(n as nat, B::SIZE as nat);
        }
        let (mut blocks, rem): (usize, usize) = div_rem(n, B::SIZE);
        if rem > 0 {
            assert(blocks < usize::MAX) by (nonlinear_arith)
                requires
                    blocks * B::SIZE + rem == n,
                    0 < rem < B::SIZE,
                    n <= usize::MAX,
            ;
            blocks += 1;
        }
        blocks
    }

    /// A set for `n` bits with every bit set, those of the last block past `n`
    /// too.
    pub fn ones(n: usize) -> (set: Self)
        ensures
            set.blocks().len() == blocks_needed(n as nat, B::SIZE as nat),
            set@ == filled(Self::span(n as nat), true),
            set@.len() >= n,
    {
        proof {
            B::lemma_size();
            lemma_blocks_needed_is_ceiling(n as nat, B::SIZE as nat);
        }
        let block = B::ones();
        let set = Self { data: vec![block; Self::required_blocks(n)] };
        proof {
            assert forall|k: int| 0 <= k < set.data@.len() implies (#[trigger] set.data@[k]).bits()
                == filled(B::SIZE as nat, true) by {
                block.lemma_clone_keeps_bits(&set.data@[k]);
            }
            lemma_row_filled(set.data@, true);
        }
        set
    }

    /// A set for `n` bits with no bit set.
    pub fn zeros(n: usize) -> (set: Self)
        ensures
            set.blocks().len() == blocks_needed(n as nat, B::SIZE as nat),
            set@ == filled(Self::span(n as nat), false),
            set@.len() >= n,
    {
        proof {
            B::lemma_size();
            lemma_blocks_needed_is_ceiling(n as nat, B::SIZE as nat);
        }
        let block = B::zeros();
        let set = Self { data: vec![block; Self::required_blocks(n)] };
        proof {
            assert forall|k: int| 0 <= k < set.data@.len() implies (#[trigger] set.data@[k]).bits()
                == filled(B::SIZE as nat, false) by {
                block.lemma_clone_keeps_bits(&set.data@[k]);
            }
            lemma_row_filled(set.data@, false);
        }
        set
    }

    /// Sets bit `idx` and leaves the others as they are.
    ///
    /// The set must reach as far as `idx`, which `in_range` tells: a set never
    /// grows, and an index never wraps around.
    pub fn set(&mut self, idx: usize)
        requires
            idx < old(self)@.len(),
        ensures
            final(self)@ == old(self)@.update(idx as int, true),
            final(self).blocks().len() == old(self).blocks().len(),
    {
        proof {
            B::lemma_size();
            lemma_split(idx as int, B::SIZE as int, self.data@.len() as int);
        }
        let (block_idx, bit_idx): (usize, usize) = div_rem(idx, B::SIZE);
        self.data[block_idx].set(bit_idx);
        proof {
            lemma_row_update(old(self).data@, self.data@, block_idx as int, bit_idx as int);
        }
    }

    /// The number of blocks of the set.
    pub fn block_count(&self) -> (count: usize)
        ensures
            count == self.blocks().len(),
    {
        self.data.len()
    }

    /// Whether the set reaches as far as bit `idx`: what `set` and `get` ask of
    /// their index.
    pub fn in_range(&self, idx: usize) -> (ok: bool)
        ensures
            ok == (idx < self@.len()),
    {
        proof {
            B::lemma_size();
            lemma_chunk_below(idx as int, B::SIZE as int, self.data@.len() as int);
        }
        let (block_idx, _): (usize, usize) = div_rem(idx, B::SIZE);
        block_idx < self.data.len()
    }

    /// Whether bit `idx` is set.
    ///
    /// The set must reach as far as `idx`, which `in_range` tells.
    pub fn get(&self, idx: usize) -> (bit: bool)
        requires
            idx < self@.len(),
        ensures
            bit == self@[idx as int],
    {
        proof {
            B::lemma_size();
            lemma_split(idx as int, B::SIZE as int, self.data@.len() as int);
        }
        let (block_idx, bit_idx): (usize, usize) = div_rem(idx, B::SIZE);
        self.data[block_idx].get(bit_idx)
    }

    /// The union of two sets: the bitwise OR of their bits. The sets need not be
    /// of one length; the result is as long as the longer one, whose blocks past
    /// the end of the shorter one are handed on unchanged.
    pub fn union(self, other: Self) -> (joined: Self)
        ensures
            joined@ == union_bits(self@, other@),
            joined.blocks().len() == if self.blocks().len() >= other.blocks().len() {
                self.blocks().len()
            } else {
                other.blocks().len()
            },
            forall|k: int|
                other.blocks().len() <= k < self.blocks().len() ==> joined.blocks()[k]
                    == self.blocks()[k],
            forall|k: int|
                self.blocks().len() <= k < other.blocks().len() ==> joined.blocks()[k]
                    == other.blocks()[k],
    {
        let ghost lhs: Seq<B> = self.data@;
        let ghost rhs: Seq<B> = other.data@;
        let zipped_blocks: Vec<Paired<B>> = zip_longest(self.data, other.data);
        let mut blocks: Vec<B> = Vec::with_capacity(zipped_blocks.len());
        for pair in it: zipped_blocks.into_iter()
            invariant
                it.seq() == zipped(lhs, rhs),
                blocks@.len() == it.index(),
                forall|k: int|
                    0 <= k < blocks@.len() ==> merged(zipped(lhs, rhs)[k], #[trigger] blocks@[k]),
        {
            blocks.push(merge(pair));
        }
        proof {
            lemma_row_union(lhs, rhs, blocks@);
        }
        blocks.into()
    }
}

impl<B: Block> vstd::std_specs::convert::FromSpecImpl<Vec<B>> for BitSet<B> {
    open spec fn obeys_from_spec() -> bool {
        true
    }

    closed spec fn from_spec(data: Vec<B>) -> Self {
        BitSet { data }
    }
}

impl<B: Block> From<Vec<B>> for BitSet<B> {
    /// The set whose blocks are those of `data`, in order.
    fn from(data: Vec<B>) -> (set: Self)
        ensures
            set.blocks() == data@,
    {
        Self { data }
    }
}

impl<B: Block> vstd::std_specs::ops::BitOrSpecImpl for BitSet<B> {
    /// The result of `|` is stated over its bits, by the contract of `bitor`
    /// itself: which blocks carry those bits is left to the block type.
    open spec fn obeys_bitor_spec() -> bool {
        false
    }

    open spec fn bitor_req(self, rhs: Self) -> bool {
        true
    }

    /// Some set that holds the union of the bits.
    open spec fn bitor_spec(self, rhs: Self) -> Self {
        choose|joined: Self| joined@ == union_bits(self@, rhs@)
    }
}

impl<B: Block> BitOr for BitSet<B> {
    type Output = Self;

    /// `a | b` is `a.union(b)`.
    fn bitor(self, rhs: Self) -> (joined: Self)
        ensures
            joined@ == union_bits(self@, rhs@),
            joined.blocks().len() == if self.blocks().len() >= rhs.blocks().len() {
                self.blocks().len()
            } else {
                rhs.blocks().len()
            },
            forall|k: int|
                rhs.blocks().len() <= k < self.blocks().len() ==> joined.blocks()[k]
                    == self.blocks()[k],
            forall|k: int|
                self.blocks().len() <= k < rhs.blocks().len() ==> joined.blocks()[k]
                    == rhs.blocks()[k],
    {
        self.union(rhs)
    }
}

impl<B: Block> Clone for BitSet<B> {
    /// A copy with blocks of its own, which hold the same bits.
    fn clone(&self) -> (copy: Self)
        ensures
            copy@ == self@,
            copy.blocks().len() == self.blocks().len(),
    {
        let copy = Self { data: self.data.clone() };
        proof {
            assert forall|k: int| 0 <= k < self.data@.len() implies (#[trigger] copy.data@[k]).bits()
                == self.data@[k].bits() by {
                self.data@[k].lemma_clone_keeps_bits(&copy.data@[k]);
            }
            lemma_row_same_bits(self.data@, copy.data@);
        }
        copy
    }
}

} // verus!
