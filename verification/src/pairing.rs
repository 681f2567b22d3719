//! Walking two rows of blocks side by side, to the end of the longer one.

use vstd::prelude::*;
use itertools::EitherOrBoth;
use itertools::Itertools;
use crate::block::union_bits;
use crate::block::Block;

verus! {

/// What two rows hold at one position: a block of each, or a block of the only
/// row that reaches that far.
pub enum Paired<B> {
    /// Both rows have a block here.
    Both(B, B),
    /// Only the left row has a block here.
    Left(B),
    /// Only the right row has a block here.
    Right(B),
}

/// The two rows paired position by position. Where both have an item the pair
/// holds both; past the end of the shorter row it holds the item of the longer
/// one alone.
pub open spec fn zipped<B>(lhs: Seq<B>, rhs: Seq<B>) -> Seq<Paired<B>> {
    Seq::new(
        if lhs.len() >= rhs.len() {
            lhs.len()
        } else {
            rhs.len()
        },
        |i: int|
            if i < lhs.len() && i < rhs.len() {
                Paired::Both(lhs[i], rhs[i])
            } else if i < lhs.len() {
                Paired::Left(lhs[i])
            } else {
                Paired::Right(rhs[i])
            },
    )
}

/// `Itertools::zip_longest` on the items of two vectors: it yields `Both` while
/// neither vector is exhausted, then `Left` or `Right` for what is left of the
/// longer one, each vector's items in their order.
#[verifier::external_body]
pub(crate) fn zip_longest<B>(lhs: Vec<B>, rhs: Vec<B>) -> (pairs: Vec<Paired<B>>)
    ensures
        pairs@ == zipped(lhs@, rhs@),
{
    lhs.into_iter().zip_longest(rhs).map(
        |pair|
            match pair {
                EitherOrBoth::Both(l, r) => Paired::Both(l, r),
                EitherOrBoth::Left(l) => Paired::Left(l),
                EitherOrBoth::Right(r) => Paired::Right(r),
            },
    ).collect()
}

/// Whether `block` is what a pair comes to: the bitwise OR of two blocks, or the
/// one block of the pair, itself.
pub open spec fn merged<B: Block>(pair: Paired<B>, block: B) -> bool {
    match pair {
        Paired::Both(l, r) => block.bits() == union_bits(l.bits(), r.bits()),
        Paired::Left(l) => block == l,
        Paired::Right(r) => block == r,
    }
}

/// Turns a pair into one block: two blocks are combined by bitwise OR, a single
/// block is handed on unchanged.
pub fn merge<B: Block>(pair: Paired<B>) -> (block: B)
    ensures
        merged(pair, block),
{
    match pair {
        Paired::Both(lhs, rhs) => lhs.or(rhs),
        Paired::Left(lhs) => lhs,
        Paired::Right(rhs) => rhs,
    }
}

} // verus!
