//! A Bloom filter: a fixed-size bit array combined with a configurable
//! number of seeded hash functions, supporting insertion and
//! approximate-membership queries with one-sided error (false positives
//! are possible, false negatives are not).

pub mod bloom_filter;
pub mod hashing;
pub mod laws;

pub use bloom_filter::BloomError;
pub use bloom_filter::BloomFilter;
pub use bloom_filter::Param;
