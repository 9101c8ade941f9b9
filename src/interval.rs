use vstd::prelude::*;

verus! {

/// A range of fixed-point values from `min` to `max`.
#[derive(Clone, Copy, Debug, PartialEq, Eq, Structural)]
pub struct Interval {
    pub min: i32,
    pub max: i32,
}

pub open spec fn clamp_spec(i: Interval, x: int) -> int {
    if x < i.min {
        i.min as int
    } else if x > i.max {
        i.max as int
    } else {
        x
    }
}

impl Interval {
    pub fn new(min: i32, max: i32) -> (r: Interval)
        ensures
            r == (Interval { min, max }),
    {
        Interval { min, max }
    }

    /// The interval that holds nothing.
    pub fn empty() -> (r: Interval)
        ensures
            r == (Interval { min: i32::MAX, max: i32::MIN }),
    {
        Interval { min: i32::MAX, max: i32::MIN }
    }

    /// The interval that holds every value.
    pub fn universe() -> (r: Interval)
        ensures
            r == (Interval { min: i32::MIN, max: i32::MAX }),
    {
        Interval { min: i32::MIN, max: i32::MAX }
    }

    /// Membership in the closed interval.
    pub fn contains(&self, x: i32) -> (r: bool)
        ensures
            r == (self.min <= x && x <= self.max),
    {
        self.min <= x && x <= self.max
    }

    /// Membership in the open interval.
    pub fn surrounds(&self, x: i32) -> (r: bool)
        ensures
            r == (self.min < x && x < self.max),
    {
        self.min < x && x < self.max
    }

    pub fn clamp(&self, x: i32) -> (r: i32)
        ensures
            r == clamp_spec(*self, x as int),
    {
        if x < self.min {
            return self.min;
        }
        if x > self.max {
            return self.max;
        }
        x
    }
}

} // verus!
