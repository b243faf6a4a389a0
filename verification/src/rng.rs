//! Deterministic random source: uniform integers in a range,
//! percentage-threshold booleans, and rare-event rolls from a seeded stream.
//!
//! A fixed seed reproduces the identical stream, so a fixed seed plus a fixed
//! action sequence reproduces an identical floor and identical outcomes.

use vstd::prelude::*;

verus! {

/// A percentage in 0..=100.
#[derive(Clone, Copy, Debug, PartialEq, Eq, Structural)]
pub struct Parcent(pub u32);

impl Parcent {
    pub fn new(v: u32) -> (p: Parcent)
        ensures
            p.0 == v,
    {
        Parcent(v)
    }
}

/// Multiplier of the linear congruential step.
const LCG_MUL: u64 = 6364136223846793005;

/// Increment of the linear congruential step.
const LCG_INC: u64 = 1442695040888963407;

/// Seed used when no explicit seed is supplied.
const DEFAULT_SEED: u64 = 0x853c49e6748fea9b;

/// A seeded deterministic stream of pseudo-random numbers.
#[derive(Clone, Debug)]
pub struct RngHandle {
    state: u64,
}

impl RngHandle {
    /// A stream from an explicit seed; the same seed gives the same stream.
    pub fn from_seed(seed: u64) -> RngHandle {
        RngHandle { state: seed ^ LCG_INC }
    }

    /// A stream from the built-in default seed.
    pub fn new() -> RngHandle {
        RngHandle { state: DEFAULT_SEED }
    }

    /// One step of the underlying linear congruential generator; the upper
    /// bits of the new state form the output word.
    fn next_u32(&mut self) -> u32 {
        self.state = self.state.wrapping_mul(LCG_MUL).wrapping_add(LCG_INC);
        (self.state >> 33) as u32
    }

    /// A uniform draw from the half-open range `lo..hi`.
    pub fn range_u32(&mut self, lo: u32, hi: u32) -> (r: u32)
        requires
            lo < hi,
        ensures
            lo <= r < hi,
    {
        let span: u32 = hi - lo;
        let word = self.next_u32();
        lo + word % span
    }

    /// A uniform draw from the half-open range `lo..hi` of signed values.
    pub fn range_i32(&mut self, lo: i32, hi: i32) -> (r: i32)
        requires
            lo < hi,
        ensures
            lo <= r < hi,
    {
        let span: u32 = ((hi as i64) - (lo as i64)) as u32;
        let word = self.next_u32();
        let draw: u32 = word % span;
        ((lo as i64) + (draw as i64)) as i32
    }

    /// A uniform draw from the half-open range `lo..hi` of machine sizes.
    pub fn range_usize(&mut self, lo: usize, hi: usize) -> (r: usize)
        requires
            lo < hi,
        ensures
            lo <= r < hi,
    {
        let span: usize = hi - lo;
        let word = self.next_u32() as usize;
        lo + word % span
    }

    /// Whether a 1-in-`rate_inv` rare event happens on this draw.
    pub fn does_happen(&mut self, rate_inv: u32) -> (r: bool)
        requires
            rate_inv > 0,
    {
        self.range_u32(0, rate_inv) == 0
    }

    /// Whether a draw of 1..=100 falls at or under the threshold `p`.
    pub fn parcent(&mut self, p: Parcent) -> (r: bool)
    {
        self.range_u32(1, 101) <= p.0
    }
}

} // verus!
