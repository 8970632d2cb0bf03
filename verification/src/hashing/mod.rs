//! Maglev consistent hashing.

pub mod lookup_table;
pub mod permutation;
