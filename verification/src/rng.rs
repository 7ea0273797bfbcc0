//! Seedable random source for layer assignment.
//!
//! Builds must be exactly reproducible, so the random source is an explicit
//! linear-congruential generator with a fully specified state transition:
//! the level drawn for every point is a mathematical function of the seed.

use vstd::prelude::*;

verus! {

/// Highest layer a point can be assigned to.
pub const MAX_LEVEL: usize = 16;

/// The modulus of the 64-bit generator state.
pub const TWO64: u128 = 0x1_0000_0000_0000_0000;

/// State transition of the generator (a 64-bit linear congruential step).
pub open spec fn spec_next_state(s: u64) -> u64 {
    (((s as int) * 6364136223846793005 + 1442695040888963407) % 0x1_0000_0000_0000_0000) as u64
}

/// Output drawn from a state: the high bits, which cycle longest.
pub open spec fn spec_output(s: u64) -> u64 {
    s >> 33
}

/// Result of drawing one layer: the layer and the state left behind.
/// One draw is consumed per survived promotion; a point survives to the
/// next layer when the draw is divisible by `m`, so the expected layer
/// follows a geometric law with parameter about `1/m`.
pub open spec fn spec_sample_rec(s: u64, m: u64, budget: nat) -> (usize, u64)
    decreases budget,
{
    if budget == 0 {
        (0usize, s)
    } else {
        let ns = spec_next_state(s);
        if spec_output(ns) % m != 0 {
            (0usize, ns)
        } else {
            let r = spec_sample_rec(ns, m, (budget - 1) as nat);
            ((r.0 + 1) as usize, r.1)
        }
    }
}

/// The layer assigned to a point from state `s`, capped at [`MAX_LEVEL`].
pub open spec fn spec_sample_level(s: u64, m: u64) -> (usize, u64) {
    spec_sample_rec(s, m, MAX_LEVEL as nat)
}

/// Generator state after drawing `k` layers from `seed`.
pub open spec fn spec_state_after(seed: u64, m: u64, k: nat) -> u64
    decreases k,
{
    if k == 0 {
        seed
    } else {
        spec_sample_level(spec_state_after(seed, m, (k - 1) as nat), m).1
    }
}

/// The layer assigned to the `k`-th point of a build seeded with `seed`:
/// layer assignment is a pure function of the seed, the degree parameter
/// and the insertion position, which makes builds reproducible.
pub open spec fn spec_level_of(seed: u64, m: u64, k: nat) -> usize {
    spec_sample_level(spec_state_after(seed, m, k), m).0
}

/// Seedable random source used for layer assignment.
pub struct LayerRng {
    pub state: u64,
}

impl LayerRng {
    /// A generator whose whole future stream is fixed by `seed`.
    pub fn new(seed: u64) -> (r: Self)
        ensures
            r.state == seed,
    {
        LayerRng { state: seed }
    }

    /// Draw the next 64-bit value and advance the state.
    pub fn next_u64(&mut self) -> (r: u64)
        ensures
            final(self).state == spec_next_state(old(self).state),
            r == spec_output(spec_next_state(old(self).state)),
    {
        let s = self.state;
        proof {
            assert((s as u128) * 6364136223846793005u128 < TWO64 * 6364136223846793005)
                by (nonlinear_arith)
                requires
                    s <= 0xFFFF_FFFF_FFFF_FFFFu64,
            ;
        }
        let prod: u128 = (s as u128) * 6364136223846793005u128;
        let wrapped: u128 = prod % TWO64;
        let sum: u128 = wrapped + 1442695040888963407u128;
        let ns: u64 = (sum % TWO64) as u64;
        proof {
            vstd::arithmetic::div_mod::lemma_add_mod_noop(
                prod as int,
                1442695040888963407,
                TWO64 as int,
            );
            vstd::arithmetic::div_mod::lemma_mod_mod(
                prod as int + 1442695040888963407,
                TWO64 as int,
                1,
            );
            assert(1442695040888963407int % (TWO64 as int) == 1442695040888963407int);
            assert(ns == spec_next_state(s));
        }
        self.state = ns;
        ns >> 33
    }

    /// Draw a layer, consuming at most `budget` values from the stream.
    fn sample_rec(&mut self, m: u64, budget: usize) -> (lvl: usize)
        requires
            m >= 1,
        ensures
            (lvl, final(self).state) == spec_sample_rec(old(self).state, m, budget as nat),
            lvl <= budget,
        decreases budget,
    {
        if budget == 0 {
            0
        } else {
            let d = self.next_u64();
            if d % m != 0 {
                0
            } else {
                1 + self.sample_rec(m, budget - 1)
            }
        }
    }

    /// Draw the layer for a new point: a geometric-like variable with
    /// survival probability about `1/m`, capped at [`MAX_LEVEL`].
    pub fn sample_level(&mut self, m: usize) -> (lvl: usize)
        requires
            m >= 1,
        ensures
            (lvl, final(self).state) == spec_sample_level(old(self).state, m as u64),
            lvl <= MAX_LEVEL,
    {
        self.sample_rec(m as u64, MAX_LEVEL)
    }
}

} // verus!
