//! A Bloom filter built on a packed bit vector, using enhanced double hashing.
//!
//! A Bloom filter answers "is this item possibly in the set?" with no false
//! negatives and a bounded false-positive rate.
pub mod bitvec;
pub mod bloom;

pub use bloom::BloomFilter;
