//! Bit sets over interchangeable blocks.
//!
//! A [`BitSet`] is a row of blocks, and a [`Block`] is any fixed-width container
//! of bits that can be set, read and combined by bitwise OR: a machine word, or
//! four 64-bit lanes of a vector register. Every operation is stated over the row
//! of bits that a value stands for, and proved against it.

pub mod bitset;
pub mod block;
pub mod index;
pub mod lanes;
pub mod laws;
pub mod pairing;
pub mod word;

pub use bitset::BitSet;
pub use block::Block;
pub use index::div_rem;
