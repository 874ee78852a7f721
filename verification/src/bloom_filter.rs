//! The Bloom filter itself: a fixed-size bit array plus a table of seeded
//! hash functions, supporting `add` and `maybe_exist` with one-sided error.
//!
//! The abstract state of a filter is a [`FilterModel`]: the sequence of hash
//! seeds and the sequence of bits. Every executable operation is specified
//! as a pure function of that model, so a query's result is pinned down
//! exactly by the bits, the seeds and the key.

use vstd::pervasive::VecAdditionalExecFns;
use vstd::prelude::*;
use vstd::string::StrSliceExecFns;

use crate::hashing::HashFn;
use crate::hashing::seed_of;
use crate::hashing::spec_mix;

verus! {

/// The 64-bit seed that a text key is reduced to: the sum of its
/// characters' code points, wrapping on overflow. The reduction is a pure
/// function of the character sequence, so equal keys always collide and
/// the filter's membership logic only ever sees the reduced value.
pub open spec fn spec_key(s: Seq<char>) -> u64
    decreases s.len(),
{
    if s.len() == 0 {
        0u64
    } else {
        vstd::wrapping::u64_specs::wrapping_add(spec_key(s.drop_last()), s.last() as u64)
    }
}

/// The abstract state of a Bloom filter: the seeds of its hash functions,
/// in table order, and its bit array.
#[verifier::ext_equal]
pub struct FilterModel {
    pub seeds: Seq<u64>,
    pub bits: Seq<bool>,
}

impl FilterModel {
    /// The number of hash functions.
    pub open spec fn k(self) -> nat {
        self.seeds.len()
    }

    /// The number of bits.
    pub open spec fn m(self) -> nat {
        self.bits.len()
    }

    /// A well-formed filter has at least one bit and at least one hash
    /// function; both counts are fixed at construction.
    pub open spec fn wf(self) -> bool {
        self.k() > 0 && self.m() > 0
    }

    /// The bit index that hash function `i` assigns to `key`: the digest
    /// of the reduced key, taken modulo the bit-array size.
    pub open spec fn index_at(self, i: int, key: Seq<char>) -> int {
        spec_mix(self.seeds[i], spec_key(key)) as int % self.m() as int
    }

    /// Whether every one of the `k` bits derived from `key` is set.
    pub open spec fn contains(self, key: Seq<char>) -> bool {
        forall|i: int| 0 <= i < self.k() ==> self.bits[#[trigger] self.index_at(i, key)]
    }

    /// The state after adding `key`: every bit that some hash function
    /// assigns to `key` is set; no other bit changes.
    pub open spec fn insert(self, key: Seq<char>) -> FilterModel {
        FilterModel {
            seeds: self.seeds,
            bits: Seq::new(
                self.m(),
                |j: int|
                    self.bits[j] || exists|t: int|
                        0 <= t < self.k() && #[trigger] self.index_at(t, key) == j,
            ),
        }
    }
}

/// How the number of hash functions is chosen at construction.
#[derive(Clone, Copy, Debug, PartialEq, Eq, Structural)]
pub enum Param {
    /// A target false-positive probability, given exactly as the rational
    /// `num / den` with `0 < num < den`; the hash count is derived as
    /// `round(-log2(num / den))`.
    Prob(u32, u32),
    /// Use exactly this many hash functions.
    NumOfHash(u64),
}

/// The one construction-time error: the requested bit count, hash count or
/// probability would make a degenerate filter.
#[derive(Clone, Copy, Debug, PartialEq, Eq, Structural)]
pub enum BloomError {
    InvalidParameter,
}

/// `4^n`.
pub open spec fn pow4(n: nat) -> int
    decreases n,
{
    if n == 0 {
        1
    } else {
        4 * pow4((n - 1) as nat)
    }
}

/// `k` plus the number of times `bound` must be quadrupled before it
/// exceeds `lhs`.
pub open spec fn quadruplings(lhs: int, bound: int, k: nat) -> nat
    decreases (if lhs >= bound {
        lhs + 1 - bound
    } else {
        0
    })
        when bound >= 1
{
    if lhs >= bound {
        quadruplings(lhs, bound * 4, k + 1)
    } else {
        k
    }
}

/// `round(log2(den / num))` for `0 < num < den`: the unique `k` with
/// `4^k * num^2 <= 2 * den^2 < 4^(k+1) * num^2`, which squares the
/// half-integer bracket `2^(k - 1/2) <= den/num < 2^(k + 1/2)`. The bracket
/// boundaries are irrational, so no rational `den / num` falls on one and
/// no tie-breaking rule is needed.
pub open spec fn spec_round_log2(num: int, den: int) -> nat {
    quadruplings(2 * (den * den), 4 * (num * num), 0)
}

proof fn lemma_pow4_pos(n: nat)
    ensures
        pow4(n) >= 1,
    decreases n,
{
    if n > 0 {
        lemma_pow4_pos((n - 1) as nat);
    }
}

proof fn lemma_quadruplings_brackets(lhs: int, bound: int, k: nat, nn: int)
    requires
        nn >= 1,
        pow4(k) * nn <= lhs,
        bound == pow4((k + 1) as nat) * nn,
    ensures
        pow4(quadruplings(lhs, bound, k)) * nn <= lhs,
        lhs < pow4((quadruplings(lhs, bound, k) + 1) as nat) * nn,
    decreases (if lhs >= bound {
        lhs + 1 - bound
    } else {
        0
    }),
{
    lemma_pow4_pos((k + 1) as nat);
    assert(bound >= 1) by (nonlinear_arith)
        requires
            bound == pow4((k + 1) as nat) * nn,
            pow4((k + 1) as nat) >= 1,
            nn >= 1,
    ;
    if lhs >= bound {
        let p1: int = pow4((k + 1) as nat);
        assert(pow4((k + 2) as nat) == 4 * p1);
        assert((4 * p1) * nn == 4 * (p1 * nn)) by (nonlinear_arith);
        lemma_quadruplings_brackets(lhs, bound * 4, (k + 1) as nat, nn);
        assert(quadruplings(lhs, bound, k) == quadruplings(lhs, bound * 4, k + 1));
    }
}

/// The derivation really is a rounded logarithm: for every probability
/// `num / den` strictly between zero and one, the derived count `k`
/// satisfies `4^k * num^2 <= 2 * den^2 < 4^(k+1) * num^2` — the square of
/// the half-integer bracket `2^(k - 1/2) <= den/num < 2^(k + 1/2)` that
/// defines `k = round(log2(den/num)) = round(-log2(num/den))`.
pub proof fn lemma_round_log2_brackets(num: int, den: int)
    requires
        0 < num < den,
    ensures
        pow4(spec_round_log2(num, den)) * (num * num) <= 2 * (den * den),
        2 * (den * den) < pow4((spec_round_log2(num, den) + 1) as nat) * (num * num),
{
    assert(1 <= num * num && num * num <= den * den) by (nonlinear_arith)
        requires
            0 < num < den,
    ;
    assert(pow4(0) == 1);
    assert(pow4(1) == 4);
    lemma_quadruplings_brackets(2 * (den * den), 4 * (num * num), 0, num * num);
}

/// The hash count a construction parameter asks for: taken directly from
/// `NumOfHash`, or derived as `round(-log2(p))` from a probability `p`.
pub open spec fn spec_num_hashes(param: Param) -> nat {
    match param {
        Param::NumOfHash(kv) => kv as nat,
        Param::Prob(num, den) => spec_round_log2(num as int, den as int),
    }
}

/// Whether construction must succeed: at least one bit, a probability
/// strictly between zero and one, and a hash count of at least one
/// (whether given directly or derived).
pub open spec fn valid_param(param: Param, m: u64) -> bool {
    m > 0 && match param {
        Param::NumOfHash(kv) => kv > 0,
        Param::Prob(num, den) => 0 < num < den && spec_round_log2(num as int, den as int) > 0,
    }
}

/// The abstract state of a freshly built filter: `k` hash functions with
/// the seeds of table positions `0..k`, and `m` clear bits.
pub open spec fn model_new(k: nat, m: nat) -> FilterModel {
    FilterModel {
        seeds: Seq::new(k, |i: int| seed_of(i as u64)),
        bits: Seq::new(m, |j: int| false),
    }
}

/// A Bloom filter: a bit array of fixed size `m` and a table of `k`
/// seeded hash functions.
pub struct BloomFilter {
    hashes: Vec<HashFn>,
    filter: Vec<bool>,
}

impl View for BloomFilter {
    type V = FilterModel;

    closed spec fn view(&self) -> FilterModel {
        FilterModel { seeds: self.hashes@.map_values(|h: HashFn| h@), bits: self.filter@ }
    }
}

impl BloomFilter {
    /// Computes `round(-log2(num / den))` exactly, in integer arithmetic:
    /// the number of quadruplings that take `4 * num^2` above `2 * den^2`.
    fn derive_k(num: u32, den: u32) -> (k: u64)
        requires
            0 < num < den,
        ensures
            k == spec_round_log2(num as int, den as int),
            k <= 32,
    {
        let d: u128 = den as u128;
        let nm: u128 = num as u128;
        proof {
            assert(d * d < 0x1_0000_0000_0000_0000) by (nonlinear_arith)
                requires
                    d < 0x1_0000_0000,
            ;
            assert(nm * nm < 0x1_0000_0000_0000_0000) by (nonlinear_arith)
                requires
                    nm < 0x1_0000_0000,
            ;
            assert(1 <= nm * nm) by (nonlinear_arith)
                requires
                    1 <= nm,
            ;
        }
        let lhs: u128 = 2 * (d * d);
        let mut bound: u128 = 4 * (nm * nm);
        let mut k: u64 = 0;
        proof {
            assert(pow4(0) == 1);
            assert(pow4(1) == 4);
        }
        while lhs >= bound
            invariant
                0 < num < den,
                lhs as int == 2 * ((den as int) * (den as int)),
                lhs < 0x2_0000_0000_0000_0000,
                bound as int == pow4((k + 1) as nat) * ((num as int) * (num as int)),
                bound >= 4,
                k <= 32,
                quadruplings(lhs as int, bound as int, k as nat) == spec_round_log2(
                    num as int,
                    den as int,
                ),
            decreases (if lhs >= bound {
                lhs + 1 - bound
            } else {
                0
            }),
        {
            proof {
                let nn: int = (num as int) * (num as int);
                assert(nn >= 1) by (nonlinear_arith)
                    requires
                        nn == (num as int) * (num as int),
                        num >= 1,
                ;
                if k == 32 {
                    reveal_with_fuel(pow4, 35);
                    assert(pow4(33) == 73786976294838206464);
                    assert(73786976294838206464 * nn >= 73786976294838206464) by (
                    nonlinear_arith)
                        requires
                            nn >= 1,
                    ;
                    assert(false);
                }
                assert(quadruplings(lhs as int, bound as int, k as nat) == quadruplings(
                    lhs as int,
                    (bound as int) * 4,
                    (k + 1) as nat,
                ));
                assert(pow4((k + 2) as nat) == 4 * pow4((k + 1) as nat));
                let p1: int = pow4((k + 1) as nat);
                assert((4 * p1) * nn == 4 * (p1 * nn)) by (nonlinear_arith);
            }
            bound = bound * 4;
            k = k + 1;
        }
        k
    }

    /// Builds a filter with `m` bits, all clear, and the hash count that
    /// `param` asks for. Fails with `InvalidParameter` exactly when `m` is
    /// zero, the hash count is zero (given as zero, or a probability so
    /// close to one that it rounds to zero hashes), or the probability is
    /// not strictly between zero and one.
    pub fn new(param: Param, m: u64) -> (r: Result<BloomFilter, BloomError>)
        requires
            m <= usize::MAX as u64,
            param matches Param::NumOfHash(kv) ==> kv <= usize::MAX as u64,
        ensures
            (match r {
                Ok(f) => valid_param(param, m) && f@ == model_new(
                    spec_num_hashes(param),
                    m as nat,
                ),
                Err(e) => !valid_param(param, m) && e == BloomError::InvalidParameter,
            }),
    {
        let k: u64 = match param {
            Param::NumOfHash(value) => value,
            Param::Prob(num, den) => {
                if num == 0 || num >= den {
                    return Err(BloomError::InvalidParameter);
                }
                Self::derive_k(num, den)
            },
        };
        if k == 0 || m == 0 {
            return Err(BloomError::InvalidParameter);
        }
        let mut hashes: Vec<HashFn> = Vec::new();
        let mut i: u64 = 0;
        while i < k
            invariant
                i <= k,
                hashes@.len() == i,
                forall|j: int| 0 <= j < i ==> hashes@[j]@ == seed_of(j as u64),
            decreases k - i,
        {
            hashes.push(HashFn::new(i));
            i = i + 1;
        }
        let mu: usize = m as usize;
        let mut filter: Vec<bool> = Vec::new();
        let mut b: usize = 0;
        while b < mu
            invariant
                b <= mu,
                filter@.len() == b,
                forall|j: int| 0 <= j < b ==> !filter@[j],
            decreases mu - b,
        {
            filter.push(false);
            b = b + 1;
        }
        let result = BloomFilter { hashes, filter };
        proof {
            assert(result@.seeds =~= Seq::new(k as nat, |j: int| seed_of(j as u64)));
            assert(result@.bits =~= Seq::new(m as nat, |j: int| false));
            assert(result@ =~= model_new(spec_num_hashes(param), m as nat));
        }
        Ok(result)
    }

    /// Reduces a text key to the 64-bit seed handed to the hash functions.
    fn str_to_u64(s: &str) -> (r: u64)
        ensures
            r == spec_key(s@),
    {
        let n: usize = s.unicode_len();
        let mut sum: u64 = 0;
        let mut i: usize = 0;
        while i < n
            invariant
                i <= n,
                n == s@.len(),
                sum == spec_key(s@.subrange(0, i as int)),
            decreases n - i,
        {
            let c: char = s.get_char(i);
            sum = sum.wrapping_add(c as u64);
            proof {
                let pre = s@.subrange(0, i as int);
                let post = s@.subrange(0, i + 1 as int);
                assert(post.drop_last() =~= pre);
                assert(post.last() == s@[i as int]);
            }
            i = i + 1;
        }
        proof {
            assert(s@.subrange(0, n as int) =~= s@);
        }
        sum
    }

    /// Reduces a digest to a bit-array index by taking it modulo `m`.
    fn convert_to_index(&self, n: u64) -> (r: u64)
        requires
            self@.m() > 0,
        ensures
            r as int == n as int % self@.m() as int,
            r < self@.m(),
    {
        n % (self.filter.len() as u64)
    }

    /// The number of hash functions the filter was built with.
    pub fn num_hashes(&self) -> (n: usize)
        ensures
            n == self@.k(),
    {
        self.hashes.len()
    }

    /// Whether `s` may have been added: true exactly when every one of the
    /// `k` bits derived from `s` is set. A true result can be a false
    /// positive; a false result is definitive.
    pub fn maybe_exist(&self, s: &str) -> (r: bool)
        requires
            self@.wf(),
        ensures
            r == self@.contains(s@),
    {
        let key: u64 = Self::str_to_u64(s);
        let n: usize = self.hashes.len();
        let mut i: usize = 0;
        while i < n
            invariant
                i <= n,
                n == self@.k(),
                self@.wf(),
                key == spec_key(s@),
                forall|t: int| 0 <= t < i ==> self@.bits[#[trigger] self@.index_at(t, s@)],
            decreases n - i,
        {
            let digest: u64 = self.hashes[i].get(key);
            let idx: u64 = self.convert_to_index(digest);
            let fl: usize = self.filter.len();
            proof {
                assert(self@.seeds[i as int] == self.hashes@[i as int]@);
                assert(idx as int == self@.index_at(i as int, s@));
                assert(idx < fl as u64);
            }
            if !self.filter[idx as usize] {
                proof {
                    assert(!self@.bits[self@.index_at(i as int, s@)]);
                }
                return false;
            }
            proof {
                assert(self@.bits[self@.index_at(i as int, s@)]);
            }
            i = i + 1;
        }
        true
    }

    /// Adds `s` to the filter: sets every one of the `k` bits derived from
    /// `s`, and leaves every other bit as it was.
    pub fn add(&mut self, s: &str)
        requires
            old(self)@.wf(),
        ensures
            final(self)@ == old(self)@.insert(s@),
    {
        let ghost pre: FilterModel = old(self)@;
        let key: u64 = Self::str_to_u64(s);
        let n: usize = self.hashes.len();
        let mut i: usize = 0;
        while i < n
            invariant
                i <= n,
                n == pre.k(),
                self@.seeds == pre.seeds,
                self@.m() == pre.m(),
                pre.wf(),
                key == spec_key(s@),
                self@.bits =~= Seq::new(
                    pre.m(),
                    |j: int|
                        pre.bits[j] || exists|t: int|
                            0 <= t < i && #[trigger] pre.index_at(t, s@) == j,
                ),
            decreases n - i,
        {
            let digest: u64 = self.hashes[i].get(key);
            let idx: u64 = self.convert_to_index(digest);
            let fl: usize = self.filter.len();
            let ghost before: Seq<bool> = self@.bits;
            proof {
                assert(self@.seeds[i as int] == self.hashes@[i as int]@);
                assert(idx as int == pre.index_at(i as int, s@));
                assert(idx < fl as u64);
            }
            self.filter.set(idx as usize, true);
            proof {
                assert forall|j: int| 0 <= j < pre.m() implies self@.bits[j] == (pre.bits[j]
                    || exists|t: int| 0 <= t < i + 1 && #[trigger] pre.index_at(t, s@) == j) by {
                    if j == idx as int {
                        assert(pre.index_at(i as int, s@) == j);
                    } else {
                        assert(self@.bits[j] == before[j]);
                    }
                }
                assert(self@.bits =~= Seq::new(
                    pre.m(),
                    |j: int|
                        pre.bits[j] || exists|t: int|
                            0 <= t < i + 1 && #[trigger] pre.index_at(t, s@) == j,
                ));
            }
            i = i + 1;
        }
        proof {
            assert(self@.bits =~= pre.insert(s@).bits);
            assert(self@ =~= pre.insert(s@));
        }
    }
}

} // verus!
