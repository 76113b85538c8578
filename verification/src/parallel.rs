//! Independent shards of a search.

use vstd::prelude::*;

verus! {

/// How far the seeds of two neighbouring shards lie apart.
pub const SHARD_SEED_STRIDE: u64 = 0x9E37_79B9_7F4A_7C15;

/// A share of a search that runs on its own.
#[derive(Debug, Clone, Copy, PartialEq, Eq, Structural)]
pub struct RayonShard {
    pub index: usize,
    pub seed: u64,
    pub cases: usize,
}

/// The seed of a shard.
pub open spec fn shard_seed(base_seed: u64, index: int) -> u64 {
    ((base_seed + index * SHARD_SEED_STRIDE) % 0x1_0000_0000_0000_0000) as u64
}

impl RayonShard {
    /// The number of the shard, from zero.
    pub fn index(self) -> (index: usize)
        ensures
            index == self.index,
    {
        self.index
    }

    /// The first seed of the search of this shard.
    pub fn seed(self) -> (seed: u64)
        ensures
            seed == self.seed,
    {
        self.seed
    }

    /// How many cases the shard runs.
    pub fn cases(self) -> (cases: usize)
        ensures
            cases == self.cases,
    {
        self.cases
    }
}

/// One shard of a search.
pub fn shard(base_seed: u64, index: usize, cases_per_shard: usize) -> (shard: RayonShard)
    ensures
        shard.index == index,
        shard.seed == shard_seed(base_seed, index as int),
        shard.cases == cases_per_shard,
{
    let product: u64 = (index as u64).wrapping_mul(SHARD_SEED_STRIDE);
    let seed: u64 = base_seed.wrapping_add(product);
    proof {
        vstd::arithmetic::div_mod::lemma_add_mod_noop(
            base_seed as int,
            index * SHARD_SEED_STRIDE,
            0x1_0000_0000_0000_0000,
        );
        vstd::arithmetic::div_mod::lemma_add_mod_noop(
            base_seed as int,
            product as int,
            0x1_0000_0000_0000_0000,
        );
        vstd::arithmetic::div_mod::lemma_mod_twice(
            index * SHARD_SEED_STRIDE,
            0x1_0000_0000_0000_0000,
        );
    }
    RayonShard { index, seed, cases: cases_per_shard }
}

/// The shards of a search, at least one.
pub fn shards_from(base_seed: u64, shards: usize, cases_per_shard: usize) -> (all: Vec<RayonShard>)
    ensures
        all@.len() == if shards < 1 {
            1
        } else {
            shards as int
        },
        forall|i: int|
            0 <= i < all@.len() ==> #[trigger] all@[i] == (RayonShard {
                index: i as usize,
                seed: shard_seed(base_seed, i),
                cases: cases_per_shard,
            }),
{
    let total: usize = if shards < 1 {
        1
    } else {
        shards
    };
    let mut all: Vec<RayonShard> = Vec::with_capacity(total);
    let mut i: usize = 0;
    while i < total
        invariant
            i <= total,
            all@.len() == i,
            forall|k: int|
                0 <= k < i ==> #[trigger] all@[k] == (RayonShard {
                    index: k as usize,
                    seed: shard_seed(base_seed, k),
                    cases: cases_per_shard,
                }),
        decreases total - i,
    {
        all.push(shard(base_seed, i, cases_per_shard));
        i += 1;
    }
    all
}

/// Two shards of one search never start from the same seed.
pub proof fn shard_seeds_differ(base_seed: u64, i: int, j: int)
    requires
        0 <= i < j < 0x1_0000_0000_0000_0000,
    ensures
        shard_seed(base_seed, i) != shard_seed(base_seed, j),
{
    let m: int = 0x1_0000_0000_0000_0000;
    let s: int = SHARD_SEED_STRIDE as int;
    // The stride is odd: `inverse` times the stride is one more than a multiple of the modulus.
    let inverse: int = 0xF1DE_83E1_9937_733D;
    let k: int = (inverse * s) / m;
    assert((inverse * s) % m == 1) by (nonlinear_arith)
        requires
            inverse == 0xF1DE_83E1_9937_733Dint,
            s == 0x9E37_79B9_7F4A_7C15int,
            m == 0x1_0000_0000_0000_0000int,
    ;
    if shard_seed(base_seed, i) == shard_seed(base_seed, j) {
        let a = base_seed + i * s;
        let b = base_seed + j * s;
        let d = j - i;
        vstd::arithmetic::div_mod::lemma_fundamental_div_mod(a, m);
        vstd::arithmetic::div_mod::lemma_fundamental_div_mod(b, m);
        vstd::arithmetic::div_mod::lemma_fundamental_div_mod(inverse * s, m);
        let q = b / m - a / m;
        assert(b - a == q * m) by (nonlinear_arith)
            requires
                a == m * (a / m) + a % m,
                b == m * (b / m) + b % m,
                a % m == b % m,
                q == b / m - a / m,
        ;
        assert(d * s == q * m) by (nonlinear_arith)
            requires
                b - a == q * m,
                a == base_seed + i * s,
                b == base_seed + j * s,
                d == j - i,
        ;
        let z = inverse * q - k * d;
        assert(d == m * z) by (nonlinear_arith)
            requires
                d * s == q * m,
                inverse * s == m * k + 1,
                z == inverse * q - k * d,
        ;
        assert(z >= 1) by (nonlinear_arith)
            requires
                d == m * z,
                d > 0,
                m > 0,
        ;
        assert(d >= m) by (nonlinear_arith)
            requires
                d == m * z,
                z >= 1,
                m > 0,
        ;
    }
}

} // verus!
