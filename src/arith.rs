//! Small integer formulas.
use vstd::prelude::*;

verus! {

/// Twice the sum of `x` and `y`.
pub fn add_mul(x: i64, y: i64) -> (r: i64)
    requires
        i64::MIN <= 2 * (x + y) <= i64::MAX,
    ensures
        r == 2 * (x + y),
{
    (x + y) * 2
}

} // verus!
