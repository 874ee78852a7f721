//! Seeded 64-bit hash functions for the filter.
//!
//! Each `HashFn` owns a distinct seed and maps a 64-bit key to a 64-bit
//! digest by a fixed bit-mixing function. The digest is a pure function of
//! the seed and the key, so every `HashFn` is deterministic for its whole
//! lifetime, and two functions with different seeds are distinguishable.

use vstd::prelude::*;

verus! {

/// Multiplier used by the first mixing round.
pub const MIX_MUL_1: u64 = 0xff51_afd7_ed55_8ccd;

/// Multiplier used by the second mixing round.
pub const MIX_MUL_2: u64 = 0xc4ce_b9fe_1a85_ec53;

/// Stride between the seeds of successive hash functions.
pub const SEED_STRIDE: u64 = 0x9e37_79b9_7f4a_7c15;

/// The digest that a hash function with seed `seed` gives to `key`:
/// the key is combined with the seed and then driven through two
/// multiply-and-xor-shift mixing rounds.
pub open spec fn spec_mix(seed: u64, key: u64) -> u64 {
    let x0: u64 = key ^ seed;
    let x1: u64 = vstd::wrapping::u64_specs::wrapping_mul(x0 ^ (x0 >> 33u64), MIX_MUL_1);
    let x2: u64 = vstd::wrapping::u64_specs::wrapping_mul(x1 ^ (x1 >> 33u64), MIX_MUL_2);
    x2 ^ (x2 >> 33u64)
}

/// The seed of the hash function at position `i` in a filter's table:
/// successive multiples of an odd stride, so distinct positions get
/// distinct seeds.
pub open spec fn seed_of(i: u64) -> u64 {
    vstd::wrapping::u64_specs::wrapping_mul(i, SEED_STRIDE)
}

/// One seeded hash function. Its view is its seed.
pub struct HashFn {
    seed: u64,
}

impl View for HashFn {
    type V = u64;

    closed spec fn view(&self) -> u64 {
        self.seed
    }
}

impl HashFn {
    /// The hash function at position `i` of a filter's table.
    pub fn new(i: u64) -> (h: HashFn)
        ensures
            h@ == seed_of(i),
    {
        HashFn { seed: i.wrapping_mul(SEED_STRIDE) }
    }

    /// The digest of `key` under this function.
    pub fn get(&self, key: u64) -> (r: u64)
        ensures
            r == spec_mix(self@, key),
    {
        let x0: u64 = key ^ self.seed;
        let x1: u64 = (x0 ^ (x0 >> 33u64)).wrapping_mul(MIX_MUL_1);
        let x2: u64 = (x1 ^ (x1 >> 33u64)).wrapping_mul(MIX_MUL_2);
        x2 ^ (x2 >> 33u64)
    }
}

} // verus!
