//! Index arithmetic shared by the bit set and by the blocks that are made of lanes.
//!
//! A position in a row of equally wide chunks is split into the number of the
//! chunk and the place inside it. The same split serves at two levels: a bit of
//! a bit set lies in a block, and a bit of a lane-built block lies in a lane.

use vstd::prelude::*;
use vstd::arithmetic::div_mod::lemma_fundamental_div_mod;
use vstd::arithmetic::div_mod::lemma_fundamental_div_mod_converse;
use vstd::arithmetic::mul::lemma_mul_inequality;
use vstd::arithmetic::mul::lemma_mul_is_commutative;
use vstd::arithmetic::mul::lemma_mul_is_distributive_add_other_way;

verus! {

/// The number of chunks of `size` positions that it takes to hold `n` positions:
/// `n / size`, rounded up.
pub open spec fn blocks_needed(n: nat, size: nat) -> nat
    recommends
        size > 0,
{
    ((n + size - 1) / (size as int)) as nat
}

/// The number of positions that `count` chunks of `size` positions hold.
pub open spec fn capacity(count: nat, size: nat) -> nat {
    count * size
}

/// Splits `idx` into the number of the chunk of `block_size` positions that holds
/// it and its place inside that chunk.
pub fn div_rem(idx: usize, block_size: usize) -> (parts: (usize, usize))
    requires
        block_size > 0,
    ensures
        parts.0 == idx as int / block_size as int,
        parts.1 == idx as int % block_size as int,
        parts.0 * block_size + parts.1 == idx,
        parts.1 < block_size,
{
    proof {
        lemma_fundamental_div_mod(idx as int, block_size as int);
        lemma_mul_is_commutative(block_size as int, idx as int / block_size as int);
    }
    (idx / block_size, idx % block_size)
}

/// A position below `count * size` lies in one of the first `count` chunks, at a
/// place below `size`, and is found again from the two.
pub proof fn lemma_split(i: int, size: int, count: int)
    requires
        size > 0,
        0 <= i < count * size,
    ensures
        0 <= i / size < count,
        0 <= i % size < size,
        (i / size) * size + i % size == i,
{
    lemma_fundamental_div_mod(i, size);
    lemma_mul_is_commutative(size, i / size);
    if i / size >= count {
        lemma_mul_inequality(count, i / size, size);
    }
    if i / size < 0 {
        lemma_mul_inequality(i / size, -1, size);
    }
}

/// A position lies in the first `count` chunks exactly if it is below what they
/// hold.
pub proof fn lemma_chunk_below(i: int, size: int, count: int)
    requires
        size > 0,
        0 <= i,
        0 <= count,
    ensures
        i / size < count <==> i < count * size,
{
    if i < count * size {
        lemma_split(i, size, count);
    } else {
        lemma_fundamental_div_mod(i, size);
        assert(i / size >= count) by (nonlinear_arith)
            requires
                i >= count * size,
                i == size * (i / size) + i % size,
                0 <= i % size < size,
                size > 0,
        ;
    }
}

/// Place `local` of chunk `chunk` is position `chunk * size + local`, and the
/// split of that position gives the two back.
pub proof fn lemma_join(chunk: int, local: int, size: int)
    requires
        0 <= local < size,
    ensures
        (chunk * size + local) / size == chunk,
        (chunk * size + local) % size == local,
{
    lemma_fundamental_div_mod_converse(chunk * size + local, size, chunk, local);
}

/// `blocks_needed(n, size)` is the ceiling of `n / size`: that many chunks hold
/// `n` positions, and no smaller number of chunks does. Where `size` divides `n`
/// no chunk is left partly used, and for `n == 0` no chunk is needed at all.
pub proof fn lemma_blocks_needed_is_ceiling(n: nat, size: nat)
    requires
        size > 0,
    ensures
        n <= capacity(blocks_needed(n, size), size) < n + size,
        forall|k: nat| n <= #[trigger] capacity(k, size) ==> blocks_needed(n, size) <= k,
        n % size == 0 ==> capacity(blocks_needed(n, size), size) == n,
        blocks_needed(0, size) == 0,
        blocks_needed(n, size) == if n % size == 0 {
            n / size
        } else {
            n / size + 1
        },
{
    let d: int = size as int;
    let q: int = n as int / d;
    let r: int = n as int % d;
    lemma_fundamental_div_mod(n as int, d);
    lemma_mul_is_commutative(d, q);
    if r == 0 {
        // n + size - 1 == q * size + (size - 1)
        lemma_fundamental_div_mod_converse(n + size - 1, d, q, d - 1);
    } else {
        // n + size - 1 == (q + 1) * size + (r - 1)
        lemma_mul_is_distributive_add_other_way(d, q, 1);
        lemma_fundamental_div_mod_converse(n + size - 1, d, q + 1, r - 1);
    }
    let c: int = blocks_needed(n, size) as int;
    assert(c == if r == 0 { q } else { q + 1 });
    assert(c * d == if r == 0 { q * d } else { q * d + d }) by {
        lemma_mul_is_distributive_add_other_way(d, q, 1);
    }
    assert forall|k: nat| n <= #[trigger] capacity(k, size) implies blocks_needed(n, size) <= k by {
        if (k as int) < c {
            lemma_mul_inequality(k as int, c - 1, d);
            lemma_mul_is_distributive_add_other_way(d, c - 1, 1);
        }
    }
    lemma_fundamental_div_mod_converse(size - 1, d, 0, d - 1);
}

} // verus!
