//! Infrastructure pieces: string hash functions and a chained hash table.

pub mod hash;
pub mod hash_table;
