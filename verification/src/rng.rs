//! Deterministic pseudo-random source.
//!
//! Every random choice an instruction makes is drawn from this generator,
//! which is seeded once per run from the configuration.  Its whole behaviour
//! is a function of the seed, so two runs with the same seed, configuration
//! and program make identical choices — the reproducibility the evolutionary
//! search and the tests rely on.  The generator is the SplitMix64 sequence:
//! a 64-bit counter advanced by a fixed odd constant, with a mixing function
//! applied to each counter value.

use vstd::prelude::*;

verus! {

/// The counter state after one advance.
pub open spec fn rng_advance(s: u64) -> u64 {
    ((s as u128) + 0x9E3779B97F4A7C15 as u128) as u64
}

/// The mixed output drawn from a counter value.
pub open spec fn rng_mix(z0: u64) -> u64 {
    let z1 = ((((z0 ^ (z0 >> 30)) as u128) * (0xBF58476D1CE4E5B9 as u128)) as u64);
    let z2 = ((((z1 ^ (z1 >> 27)) as u128) * (0x94D049BB133111EB as u128)) as u64);
    z2 ^ (z2 >> 31)
}

/// The deterministic generator; its abstract state is the bare counter.
#[derive(Clone, Copy, PartialEq, Eq, Structural, Debug)]
pub struct Rng {
    pub counter: u64,
}

impl Rng {
    /// A generator seeded for one run.
    pub fn seeded(seed: u64) -> (r: Rng)
        ensures
            r.counter == seed,
    {
        Rng { counter: seed }
    }

    /// The next raw 64-bit draw; advances the counter.
    pub fn next_u64(&mut self) -> (r: u64)
        ensures
            final(self).counter == rng_advance(old(self).counter),
            r == rng_mix(rng_advance(old(self).counter)),
    {
        let z0: u64 = (((self.counter as u128) + 0x9E3779B97F4A7C15u128) as u64);
        self.counter = z0;
        let z1: u64 = ((((z0 ^ (z0 >> 30)) as u128) * 0xBF58476D1CE4E5B9u128) as u64);
        let z2: u64 = ((((z1 ^ (z1 >> 27)) as u128) * 0x94D049BB133111EBu128) as u64);
        z2 ^ (z2 >> 31)
    }
}

/// The draw that `next_u64` returns from a given starting counter, as one
/// value, for use by the transition specifications.
pub open spec fn rng_draw(s: u64) -> u64 {
    rng_mix(rng_advance(s))
}

/// A draw reduced into an inclusive integer range `[lo, hi]` by taking the
/// raw draw modulo the width of the range.
pub open spec fn draw_in_range(raw: u64, lo: i64, hi: i64) -> int
    recommends
        lo <= hi,
{
    lo + (raw as int) % (hi - lo + 1)
}

/// Reduces a raw draw into `[lo, hi]`.
pub fn reduce_in_range(raw: u64, lo: i64, hi: i64) -> (r: i64)
    requires
        lo <= hi,
    ensures
        r as int == draw_in_range(raw, lo, hi),
        lo <= r <= hi,
{
    let width: u128 = ((hi as i128) - (lo as i128) + 1) as u128;
    let off: u128 = (raw as u128) % width;
    let r: i64 = (((lo as i128) + (off as i128)) as i64);
    r
}

} // verus!
