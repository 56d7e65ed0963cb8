//! Ranges of ranks, as used to bound the distances at which a hit counts
//! and the brightness that a colour channel can take.

use vstd::prelude::*;

verus! {

/// The range from `min` to `max`. Whether the ends belong to it is up to
/// the question asked: `contains` takes them in, `surrounds` leaves them out.
#[derive(Clone, Copy, Debug)]
pub struct Interval {
    pub min: i64,
    pub max: i64,
}

impl Interval {
    /// The range that holds nothing: it starts at the top and ends at the
    /// bottom.
    pub open spec fn spec_empty() -> Interval {
        Interval { min: i64::MAX, max: i64::MIN }
    }

    /// The range that holds every rank.
    pub open spec fn spec_universe() -> Interval {
        Interval { min: i64::MIN, max: i64::MAX }
    }

    pub open spec fn spec_contains(&self, x: i64) -> bool {
        self.min <= x <= self.max
    }

    pub open spec fn spec_surrounds(&self, x: i64) -> bool {
        self.min < x < self.max
    }

    pub open spec fn spec_clamp(&self, x: i64) -> i64 {
        if x < self.min {
            self.min
        } else if x > self.max {
            self.max
        } else {
            x
        }
    }

    /// A fresh interval is the empty one.
    pub fn new() -> (r: Interval)
        ensures
            r == Interval::spec_empty(),
            forall|x: i64| !r.spec_contains(x),
    {
        Interval { min: i64::MAX, max: i64::MIN }
    }

    pub fn empty() -> (r: Interval)
        ensures
            r == Interval::spec_empty(),
            forall|x: i64| !r.spec_contains(x),
    {
        Interval { min: i64::MAX, max: i64::MIN }
    }

    pub fn universe() -> (r: Interval)
        ensures
            r == Interval::spec_universe(),
            forall|x: i64| r.spec_contains(x),
    {
        Interval { min: i64::MIN, max: i64::MAX }
    }

    pub fn from_values(min: i64, max: i64) -> (r: Interval)
        ensures
            r.min == min,
            r.max == max,
    {
        Interval { min, max }
    }

    /// Whether `x` lies in the range, ends included.
    pub fn contains(&self, x: i64) -> (b: bool)
        ensures
            b == self.spec_contains(x),
    {
        self.min <= x && x <= self.max
    }

    /// Whether `x` lies strictly between the ends.
    pub fn surrounds(&self, x: i64) -> (b: bool)
        ensures
            b == self.spec_surrounds(x),
            b ==> self.spec_contains(x),
    {
        self.min < x && x < self.max
    }

    /// The rank of the range nearest to `x`: `x` itself where the range
    /// holds it, else the end that `x` lies beyond. Below `min` wins over
    /// above `max` in a range whose ends are crossed.
    pub fn clamp(&self, x: i64) -> (r: i64)
        ensures
            r == self.spec_clamp(x),
            self.spec_contains(x) ==> r == x,
            self.min <= self.max ==> self.spec_contains(r),
    {
        if x < self.min {
            return self.min;
        }
        if x > self.max {
            return self.max;
        }
        x
    }
}

} // verus!
