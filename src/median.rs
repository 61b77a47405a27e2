//! Medians and pivot selection over order keys.
//!
//! The median of an even number of values is the mean of the two middle ones.
//! A key is not a number that can be averaged, so such a median is returned as
//! the pair of middle keys, and the caller, who knows the values, takes their
//! mean.
use vstd::prelude::*;
use crate::sort::{lemma_sorted_permutation_unique, permutation, quicksort_seq, sorted};

verus! {

broadcast use vstd::seq_lib::group_to_multiset_ensures;

/// The median of a non-empty sequence of values.
#[derive(Clone, Copy, Debug, PartialEq, Eq, Structural)]
pub enum Median {
    /// An odd count: the middle value.
    Middle(u64),
    /// An even count: the two middle values, lower first; the median is their
    /// mean.
    Between(u64, u64),
}

/// The median of a sorted, non-empty sequence.
pub open spec fn median_of_sorted(s: Seq<u64>) -> Median {
    if s.len() % 2 == 1 {
        Median::Middle(s[(s.len() + 1) / 2 - 1])
    } else {
        Median::Between(s[s.len() / 2 - 1], s[(s.len() / 2) as int])
    }
}

/// The one of three values that lies between the other two.
pub open spec fn median_of_three(a: u64, b: u64, c: u64) -> u64 {
    if (b <= a && a <= c) || (c <= a && a <= b) {
        a
    } else if (a <= b && b <= c) || (c <= b && b <= a) {
        b
    } else {
        c
    }
}

/// The median of the first, middle and last values of a non-empty sequence.
pub open spec fn spec_med3(s: Seq<u64>) -> u64 {
    median_of_three(s[0], s[(s.len() / 2) as int], s[s.len() - 1])
}

/// The median of the three medians-of-three of the thirds of a sequence of at
/// least three values.
pub open spec fn spec_ninther(s: Seq<u64>) -> u64 {
    let n = s.len() as int;
    median_of_three(
        spec_med3(s.subrange(0, n / 3)),
        spec_med3(s.subrange(n / 3, 2 * n / 3)),
        spec_med3(s.subrange(2 * n / 3, n)),
    )
}

/// The order on keys.
pub open spec fn key_le() -> spec_fn(u64, u64) -> bool {
    |a: u64, b: u64| a <= b
}

/// The values in ascending order.
pub open spec fn sorted_copy(s: Seq<u64>) -> Seq<u64> {
    s.sort_by(key_le())
}

/// The sorted copy of a sequence is sorted and holds the same elements.
pub proof fn lemma_sorted_copy(s: Seq<u64>)
    ensures
        sorted(sorted_copy(s)),
        permutation(sorted_copy(s), s),
{
    let leq = key_le();
    assert(vstd::relations::total_ordering(leq));
    s.lemma_sort_by_ensures(leq);
    let t = sorted_copy(s);
    assert forall|i: int, j: int| 0 <= i <= j < t.len() implies t[i] <= t[j] by {
        if i < j {
            assert(leq(t[i], t[j]));
        }
    }
}

/// `3` to the power `e`.
pub open spec fn pow3(e: nat) -> nat
    decreases e,
{
    if e == 0 {
        1
    } else {
        3 * pow3((e - 1) as nat)
    }
}

/// The median of the values; the buffer is left as it is.
pub fn median(arr: &[u64]) -> (m: Median)
    requires
        arr@.len() > 0,
    ensures
        m == median_of_sorted(sorted_copy(arr@)),
{
    let mut copy = vstd::slice::slice_to_vec(arr);
    quicksort_seq(copy.as_mut_slice());
    proof {
        lemma_sorted_copy(arr@);
        lemma_sorted_permutation_unique(copy@, sorted_copy(arr@));
        assert(copy@.len() == copy@.to_multiset().len());
        assert(arr@.len() == arr@.to_multiset().len());
    }
    let len = copy.len();
    if len % 2 == 0 {
        Median::Between(copy[len / 2 - 1], copy[len / 2])
    } else {
        Median::Middle(copy[len / 2])
    }
}

/// The middle one of three values, found by comparing them.
fn middle_of_three(a: u64, b: u64, c: u64) -> (m: u64)
    ensures
        m == median_of_three(a, b, c),
{
    let (lo, hi) = if a <= b {
        (a, b)
    } else {
        (b, a)
    };
    if c <= lo {
        lo
    } else if hi <= c {
        hi
    } else {
        c
    }
}

/// The median of the first, middle and last values.
pub fn med3(arr: &[u64]) -> (m: u64)
    requires
        arr@.len() > 0,
    ensures
        m == spec_med3(arr@),
{
    let len = arr.len();
    middle_of_three(arr[0], arr[len / 2], arr[len - 1])
}

/// The bounds `len / 3` and `2 * len / 3` that cut `len` values into thirds.
pub fn third_bounds(len: usize) -> (bounds: (usize, usize))
    ensures
        bounds.0 == len / 3,
        bounds.1 == 2 * len / 3,
{
    let q = len / 3;
    let r = len % 3;
    proof {
        assert(len == 3 * q + r);
        assert(2 * len / 3 == 2 * q + 2 * r / 3) by (nonlinear_arith)
            requires
                len == 3 * q + r,
                0 <= r < 3,
        ;
    }
    (q, 2 * q + 2 * r / 3)
}

/// The "ninther": the median-of-three of the medians-of-three of the three
/// thirds of the values.
pub fn ninther(arr: &[u64]) -> (m: u64)
    requires
        arr@.len() >= 3,
    ensures
        m == spec_ninther(arr@),
{
    let len = arr.len();
    let (a, b) = third_bounds(len);
    let first = med3(&arr[0..a]);
    let second = med3(&arr[a..b]);
    let third = med3(&arr[b..len]);
    middle_of_three(first, second, third)
}

/// A pivot value for the values that needs no full sort: the ninther for more
/// than nine values, the median-of-three of first, middle and last for four to
/// nine, and for at most three the full median. The buffer is left as it is.
pub fn pivot_hoare(arr: &[u64]) -> (m: Median)
    requires
        arr@.len() > 0,
    ensures
        arr@.len() > 9 ==> m == Median::Middle(spec_ninther(arr@)),
        3 < arr@.len() <= 9 ==> m == Median::Middle(spec_med3(arr@)),
        arr@.len() <= 3 ==> m == median_of_sorted(sorted_copy(arr@)),
{
    let len = arr.len();
    if len > 9 {
        Median::Middle(ninther(arr))
    } else if len > 3 {
        Median::Middle(med3(arr))
    } else {
        median(arr)
    }
}

/// Whether a median of the given degree can be taken of `len` values: degree
/// one is the plain median, and each further degree cuts every group into
/// thirds once more, so `len` must be at least `3` to the power `degree - 1`.
pub fn degree_supported(len: usize, degree: u32) -> (ok: bool)
    ensures
        ok == (degree >= 1 && len >= pow3((degree - 1) as nat)),
{
    if degree == 0 || len == 0 {
        proof {
            if degree > 0 {
                lemma_pow3_positive((degree - 1) as nat);
            }
        }
        return false;
    }
    let mut need: usize = 1;
    let mut k: u32 = 1;
    while k < degree
        invariant
            1 <= k <= degree,
            need == pow3((k - 1) as nat),
            need <= len,
        decreases degree - k,
    {
        if need > len / 3 {
            proof {
                lemma_pow3_grows((k - 1) as nat, (degree - 1) as nat);
            }
            return false;
        }
        need = need * 3;
        k = k + 1;
    }
    true
}

/// Powers of three are positive.
proof fn lemma_pow3_positive(e: nat)
    ensures
        pow3(e) >= 1,
    decreases e,
{
    if e > 0 {
        lemma_pow3_positive((e - 1) as nat);
    }
}

/// Powers of three grow with the exponent.
proof fn lemma_pow3_grows(a: nat, b: nat)
    requires
        a < b,
    ensures
        3 * pow3(a) <= pow3(b),
    decreases b,
{
    if a + 1 < b {
        lemma_pow3_grows(a, (b - 1) as nat);
        assert(pow3(b) == 3 * pow3((b - 1) as nat));
    }
}

} // verus!
