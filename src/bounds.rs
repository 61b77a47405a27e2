//! An inclusive range of integers chosen by a player.
use vstd::prelude::*;

verus! {

/// The integers from `lower` to `upper`, both included; never empty.
pub struct Bounds {
    lower: i64,
    upper: i64,
}

impl Bounds {
    pub closed spec fn spec_lower(&self) -> i64 {
        self.lower
    }

    pub closed spec fn spec_upper(&self) -> i64 {
        self.upper
    }

    /// The lower bound does not exceed the upper one.
    pub open spec fn wf(&self) -> bool {
        self.spec_lower() <= self.spec_upper()
    }

    /// The range `[lower, upper]`, or `None` when `lower` is above `upper`.
    pub fn new(lower: i64, upper: i64) -> (b: Option<Bounds>)
        ensures
            b is Some <==> lower <= upper,
            b is Some ==> b->0.wf() && b->0.spec_lower() == lower && b->0.spec_upper() == upper,
    {
        if lower <= upper {
            Some(Bounds { lower, upper })
        } else {
            None
        }
    }

    /// Whether `number` lies in the range.
    pub fn contains(&self, number: i64) -> (inside: bool)
        ensures
            inside == (self.spec_lower() <= number && number <= self.spec_upper()),
    {
        number >= self.lower && number <= self.upper
    }

    /// How many integers the range holds. The full range of `i64` holds one more
    /// than a `u64` can count, and is left out.
    pub fn range(&self) -> (n: u64)
        requires
            self.wf(),
            self.spec_upper() - self.spec_lower() + 1 <= u64::MAX,
        ensures
            n == self.spec_upper() - self.spec_lower() + 1,
    {
        let width = (self.upper as i128 - self.lower as i128) as u64;
        width + 1
    }

    /// The smallest integer of the range.
    pub fn lower(&self) -> (l: i64)
        ensures
            l == self.spec_lower(),
    {
        self.lower
    }

    /// The largest integer of the range.
    pub fn upper(&self) -> (u: i64)
        ensures
            u == self.spec_upper(),
    {
        self.upper
    }
}

} // verus!
