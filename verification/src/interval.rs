//! Closed scalar ranges, used to bound valid hit parameters and to clamp
//! color channels.

use vstd::prelude::*;

verus! {

/// The stand-in for positive infinity: no meaningful scalar reaches it.
pub const INF: i128 = i128::MAX;

/// The stand-in for negative infinity.
pub const NEG_INF: i128 = -i128::MAX;

/// The least ray parameter a hit may take: a guard just above zero so that a
/// scattered ray cannot re-intersect the surface it left ("shadow acne").
pub const HIT_EPS: i128 = 1049;

/// Strict containment in the open range.
pub open spec fn s_surrounds(min: int, max: int, x: int) -> bool {
    min < x && x < max
}

#[derive(Clone, Copy, Debug)]
pub struct Interval {
    pub min: i128,
    pub max: i128,
}

impl Interval {
    pub fn new(min: i128, max: i128) -> (r: Interval)
        ensures
            r.min == min,
            r.max == max,
    {
        Interval { min, max }
    }

    /// The interval containing nothing.
    pub fn empty() -> (r: Interval)
        ensures
            r.min == INF,
            r.max == NEG_INF,
    {
        Interval { min: INF, max: NEG_INF }
    }

    /// The interval containing every scalar.
    pub fn universe() -> (r: Interval)
        ensures
            r.min == NEG_INF,
            r.max == INF,
    {
        Interval { min: NEG_INF, max: INF }
    }

    pub fn min(self) -> (r: i128)
        ensures
            r == self.min,
    {
        self.min
    }

    pub fn max(self) -> (r: i128)
        ensures
            r == self.max,
    {
        self.max
    }

    pub fn contains(self, x: i128) -> (r: bool)
        ensures
            r == (self.min <= x && x <= self.max),
    {
        self.min <= x && x <= self.max
    }

    pub fn surrounds(self, x: i128) -> (r: bool)
        ensures
            r == s_surrounds(self.min as int, self.max as int, x as int),
    {
        self.min < x && x < self.max
    }

    /// The nearest value inside the closed range.
    pub fn clamp(self, x: i128) -> (r: i128)
        ensures
            x < self.min ==> r == self.min,
            self.min <= x && x > self.max ==> r == self.max,
            self.min <= x <= self.max ==> r == x,
    {
        if x < self.min {
            self.min
        } else if x > self.max {
            self.max
        } else {
            x
        }
    }
}

impl Default for Interval {
    /// The empty interval, as for a fresh hit search.
    fn default() -> (r: Interval)
        ensures
            r.min == INF,
            r.max == NEG_INF,
    {
        Interval::empty()
    }
}

/// The shadow-acne guard in force: the hit interval that the light
/// transport uses strictly excludes every parameter at or below `HIT_EPS`,
/// so a bounce can never re-hit its own origin surface at a tiny `t`.
pub proof fn lemma_acne_guard(t: int)
    ensures
        t <= HIT_EPS ==> !s_surrounds(HIT_EPS as int, INF as int, t),
{
}

} // verus!
