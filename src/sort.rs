//! In-place unstable quicksort over a buffer of order keys.
//!
//! A range of the buffer is a pair `(low, high)` of inclusive bounds. The
//! partitioner splits a range around the value at its midpoint; the sequential
//! driver recurses on the two parts in turn, the parallel one hands the two
//! disjoint halves of the buffer to a fork-join call.
use vstd::prelude::*;

verus! {

broadcast use vstd::seq_lib::group_to_multiset_ensures;

/// Every element is at most every later one.
pub open spec fn sorted(s: Seq<u64>) -> bool {
    forall|i: int, j: int| 0 <= i <= j < s.len() ==> s[i] <= s[j]
}

/// The same elements with the same multiplicities.
pub open spec fn permutation(a: Seq<u64>, b: Seq<u64>) -> bool {
    a.to_multiset() == b.to_multiset()
}

/// The elements of the inclusive range `[low, high]`.
pub open spec fn range_of(s: Seq<u64>, low: int, high: int) -> Seq<u64> {
    s.subrange(low, high + 1)
}

/// `a` and `b` differ at most inside the inclusive range `[low, high]`.
pub open spec fn same_outside(a: Seq<u64>, b: Seq<u64>, low: int, high: int) -> bool {
    &&& a.len() == b.len()
    &&& forall|k: int| 0 <= k < a.len() && (k < low || high < k) ==> a[k] == b[k]
}

/// The pivot of a range: the value at its midpoint `(low + high) / 2`.
pub open spec fn midpoint_pivot(s: Seq<u64>, low: int, high: int) -> u64 {
    s[(low + high) / 2]
}

/// Where the left cursor stops when it starts at `i`: the first position from
/// `i` on whose value is at least `pivot`, or `high`.
pub open spec fn scan_left(s: Seq<u64>, i: int, pivot: u64, high: int) -> int
    decreases high - i,
{
    if i >= high || s[i] >= pivot {
        i
    } else {
        scan_left(s, i + 1, pivot, high)
    }
}

/// Where the right cursor stops when it starts at `j`: the first position from
/// `j` down whose value is at most `pivot`, or `low`.
pub open spec fn scan_right(s: Seq<u64>, j: int, pivot: u64, low: int) -> int
    decreases j - low,
{
    if j <= low || s[j] <= pivot {
        j
    } else {
        scan_right(s, j - 1, pivot, low)
    }
}

/// The Hoare scan from cursors `left` and `right`: both cursors move inwards to
/// their stops; if they have crossed, the right one is the split index,
/// otherwise the two values are exchanged and the scan goes on one step further
/// in. Gives the split index and the sequence it leaves.
pub open spec fn hoare_scan(
    s: Seq<u64>,
    left: int,
    right: int,
    pivot: u64,
    low: int,
    high: int,
) -> (int, Seq<u64>)
    decreases right - left + 1,
    via hoare_scan_decreases
{
    let l = scan_left(s, left, pivot, high);
    let r = scan_right(s, right, pivot, low);
    if l >= r {
        (r, s)
    } else {
        hoare_scan(s.update(l, s[r]).update(r, s[l]), l + 1, r - 1, pivot, low, high)
    }
}

#[via_fn]
proof fn hoare_scan_decreases(
    s: Seq<u64>,
    left: int,
    right: int,
    pivot: u64,
    low: int,
    high: int,
) {
    lemma_scan_left_from(s, left, pivot, high);
    lemma_scan_right_from(s, right, pivot, low);
}

/// The left cursor never moves backwards.
proof fn lemma_scan_left_from(s: Seq<u64>, i: int, pivot: u64, high: int)
    ensures
        scan_left(s, i, pivot, high) >= i,
    decreases high - i,
{
    if !(i >= high || s[i] >= pivot) {
        lemma_scan_left_from(s, i + 1, pivot, high);
    }
}

/// The right cursor never moves forwards.
proof fn lemma_scan_right_from(s: Seq<u64>, j: int, pivot: u64, low: int)
    ensures
        scan_right(s, j, pivot, low) <= j,
    decreases j - low,
{
    if !(j <= low || s[j] <= pivot) {
        lemma_scan_right_from(s, j - 1, pivot, low);
    }
}

/// The split index and the sequence that partitioning `[low, high]` around its
/// midpoint value gives.
pub open spec fn hoare_partition(s: Seq<u64>, low: int, high: int) -> (int, Seq<u64>) {
    hoare_scan(s, low, high, midpoint_pivot(s, low, high), low, high)
}

/// A predicate that holds of every element of `a` holds of every element of a
/// permutation of `a`.
pub proof fn lemma_permutation_all(a: Seq<u64>, b: Seq<u64>, pred: spec_fn(u64) -> bool)
    requires
        permutation(a, b),
        forall|i: int| 0 <= i < a.len() ==> pred(#[trigger] a[i]),
    ensures
        forall|i: int| 0 <= i < b.len() ==> pred(#[trigger] b[i]),
{
    assert forall|i: int| 0 <= i < b.len() implies pred(#[trigger] b[i]) by {
        assert(b.contains(b[i]));
        assert(a.to_multiset().count(b[i]) > 0);
        assert(a.contains(b[i]));
    }
}

/// Writing `v` at `i` takes one `s[i]` out of the multiset and puts one `v` in.
proof fn lemma_update_multiset(s: Seq<u64>, i: int, v: u64)
    requires
        0 <= i < s.len(),
    ensures
        s.update(i, v).to_multiset() == s.to_multiset().remove(s[i]).insert(v),
{
    let t = s.update(i, v);
    assert(t.remove(i) =~= s.remove(i));
    assert(t.to_multiset().remove(v) == s.to_multiset().remove(s[i]));
    assert(t.to_multiset().count(v) > 0) by {
        assert(t[i] == v);
        assert(t.contains(v));
    }
    assert(t.to_multiset() =~= t.to_multiset().remove(v).insert(v));
}

/// Exchanging two elements keeps the multiset.
proof fn lemma_swap_multiset(s: Seq<u64>, i: int, j: int)
    requires
        0 <= i < s.len(),
        0 <= j < s.len(),
    ensures
        s.update(i, s[j]).update(j, s[i]).to_multiset() == s.to_multiset(),
{
    let m = s.to_multiset();
    let t = s.update(i, s[j]);
    lemma_update_multiset(s, i, s[j]);
    lemma_update_multiset(t, j, s[i]);
    assert(t[j] == s[j]);
    assert(m.count(s[i]) > 0) by {
        assert(s.contains(s[i]));
    }
    assert(m.remove(s[i]).insert(s[j]).remove(s[j]) =~= m.remove(s[i]));
    assert(m.remove(s[i]).insert(s[i]) =~= m);
}

/// The multiset of a sequence cut in three is the sum of the pieces' multisets.
proof fn lemma_multiset_three(s: Seq<u64>, a: int, b: int)
    requires
        0 <= a <= b <= s.len(),
    ensures
        s.to_multiset() == s.subrange(0, a).to_multiset().add(s.subrange(a, b).to_multiset()).add(
            s.subrange(b, s.len() as int).to_multiset(),
        ),
{
    let x = s.subrange(0, a);
    let y = s.subrange(a, b);
    let z = s.subrange(b, s.len() as int);
    vstd::seq_lib::lemma_multiset_commutative(x, y);
    vstd::seq_lib::lemma_multiset_commutative(x + y, z);
    assert(s =~= x + y + z);
}

/// Two sequences that agree outside `[low, high]` and have the same multiset have
/// the same multiset inside it.
proof fn lemma_range_permutation(a: Seq<u64>, b: Seq<u64>, low: int, high: int)
    requires
        0 <= low <= high + 1,
        high < a.len(),
        same_outside(a, b, low, high),
        permutation(a, b),
    ensures
        permutation(range_of(a, low, high), range_of(b, low, high)),
{
    lemma_multiset_three(a, low, high + 1);
    lemma_multiset_three(b, low, high + 1);
    assert(a.subrange(0, low) =~= b.subrange(0, low));
    assert(a.subrange(high + 1, a.len() as int) =~= b.subrange(high + 1, b.len() as int));
    let ma = range_of(a, low, high).to_multiset();
    let mb = range_of(b, low, high).to_multiset();
    assert forall|v: u64| ma.count(v) == mb.count(v) by {
        assert(a.to_multiset().count(v) == b.to_multiset().count(v));
    }
    assert(ma =~= mb);
}

/// Exchanges two elements of the buffer.
fn swap(arr: &mut [u64], a: usize, b: usize)
    requires
        a < old(arr)@.len(),
        b < old(arr)@.len(),
    ensures
        final(arr)@ == old(arr)@.update(a as int, old(arr)@[b as int]).update(
            b as int,
            old(arr)@[a as int],
        ),
{
    let old_a = arr[a];
    arr[a] = arr[b];
    arr[b] = old_a;
}

/// Reorders the range `[low, high]` around the value at its midpoint and
/// returns a split index `p`: afterwards every element of `[low, p]` is at most
/// the pivot and every element of `(p, high]` at least the pivot. Cursors scan
/// inwards from both ends and exchange misplaced pairs until they cross; the
/// partition is unstable. A range of two or more elements is split into two
/// non-empty parts; elements outside the range are untouched. The split index
/// and the reordered buffer are exactly those of the scan `hoare_partition`.
pub fn partition_hoare(arr: &mut [u64], low: usize, high: usize) -> (p: usize)
    requires
        low <= high,
        high < old(arr)@.len(),
    ensures
        (p as int, final(arr)@) == hoare_partition(old(arr)@, low as int, high as int),
        low <= p <= high,
        low < high ==> p < high,
        same_outside(final(arr)@, old(arr)@, low as int, high as int),
        permutation(
            range_of(final(arr)@, low as int, high as int),
            range_of(old(arr)@, low as int, high as int),
        ),
        forall|k: int|
            low <= k <= p ==> #[trigger] final(arr)@[k] <= midpoint_pivot(
                old(arr)@,
                low as int,
                high as int,
            ),
        forall|k: int|
            p < k <= high ==> #[trigger] final(arr)@[k] >= midpoint_pivot(
                old(arr)@,
                low as int,
                high as int,
            ),
{
    let ghost s0 = arr@;
    let mid = low + (high - low) / 2;
    let pivot = arr[mid];
    // The cursors start on the range's ends and test before they move, so no
    // index before 0 or past `usize::MAX` is ever formed.
    let mut left: usize = low;
    let mut right: usize = high;
    // A position at or after `left` that stops the left cursor, and one at or
    // before `right` that stops the right cursor.
    let ghost mut stop_left: int = mid as int;
    let ghost mut stop_right: int = mid as int;
    let ghost mut first = true;
    loop
        invariant
            low <= left <= stop_left <= high,
            low <= stop_right <= right <= high,
            high < arr@.len(),
            left <= right + 1,
            mid == (low + high) / 2,
            pivot == s0[mid as int],
            s0 == old(arr)@,
            arr@[stop_left] >= pivot,
            arr@[stop_right] <= pivot,
            same_outside(arr@, s0, low as int, high as int),
            permutation(arr@, s0),
            forall|k: int| low <= k < left ==> #[trigger] arr@[k] <= pivot,
            forall|k: int| right < k <= high ==> #[trigger] arr@[k] >= pivot,
            first ==> left == low && right == high && stop_left == mid,
            !first ==> right < high,
            hoare_scan(arr@, left as int, right as int, pivot, low as int, high as int)
                == hoare_partition(s0, low as int, high as int),
        decreases right + 1 - left,
    {
        let ghost left_start = left;
        let ghost right_start = right;
        while arr[left] < pivot
            invariant
                low <= left <= stop_left <= high,
                high < arr@.len(),
                arr@[stop_left] >= pivot,
                forall|k: int| low <= k < left ==> #[trigger] arr@[k] <= pivot,
                same_outside(arr@, s0, low as int, high as int),
                permutation(arr@, s0),
                first ==> right == high && stop_left == mid,
                !first ==> right < high,
                mid == (low + high) / 2,
                left_start <= left,
                right_start == right,
                scan_left(arr@, left_start as int, pivot, high as int) == scan_left(
                    arr@,
                    left as int,
                    pivot,
                    high as int,
                ),
                hoare_scan(arr@, left_start as int, right as int, pivot, low as int, high as int)
                    == hoare_partition(s0, low as int, high as int),
            decreases high - left,
        {
            left = left + 1;
        }
        while arr[right] > pivot
            invariant
                low <= stop_right <= right <= high,
                high < arr@.len(),
                arr@[stop_right] <= pivot,
                forall|k: int| right < k <= high ==> #[trigger] arr@[k] >= pivot,
                forall|k: int| low <= k < left ==> #[trigger] arr@[k] <= pivot,
                arr@[left as int] >= pivot,
                left <= stop_left,
                same_outside(arr@, s0, low as int, high as int),
                permutation(arr@, s0),
                first ==> stop_left == mid,
                !first ==> right < high,
                mid == (low + high) / 2,
                left_start <= left,
                right <= right_start,
                left == scan_left(arr@, left_start as int, pivot, high as int),
                scan_right(arr@, right_start as int, pivot, low as int) == scan_right(
                    arr@,
                    right as int,
                    pivot,
                    low as int,
                ),
                hoare_scan(arr@, left_start as int, right_start as int, pivot, low as int, high as int)
                    == hoare_partition(s0, low as int, high as int),
            decreases right,
        {
            right = right - 1;
        }
        if left >= right {
            proof {
                lemma_range_permutation(arr@, s0, low as int, high as int);
            }
            return right;
        }
        proof {
            lemma_swap_multiset(arr@, left as int, right as int);
        }
        swap(arr, left, right);
        proof {
            stop_left = right as int;
            stop_right = left as int;
            first = false;
        }
        left = left + 1;
        right = right - 1;
    }
}

/// Two sorted sequences, the first at most `pivot` and the second at least
/// `pivot` throughout, make a sorted sequence when joined.
proof fn lemma_sorted_join(a: Seq<u64>, b: Seq<u64>, pivot: u64)
    requires
        sorted(a),
        sorted(b),
        forall|i: int| 0 <= i < a.len() ==> #[trigger] a[i] <= pivot,
        forall|i: int| 0 <= i < b.len() ==> #[trigger] b[i] >= pivot,
    ensures
        sorted(a + b),
{
    let c = a + b;
    assert forall|i: int, j: int| 0 <= i <= j < c.len() implies c[i] <= c[j] by {
        if j < a.len() {
            assert(c[i] == a[i] && c[j] == a[j]);
        } else if i >= a.len() {
            assert(c[i] == b[i - a.len()] && c[j] == b[j - a.len()]);
        } else {
            assert(c[i] == a[i] && c[j] == b[j - a.len()]);
        }
    }
}

/// After a range was split at `p` around `pivot` and both parts were sorted in
/// place, the whole range is sorted and holds the elements it held before.
proof fn lemma_parts_sorted(
    s0: Seq<u64>,
    s1: Seq<u64>,
    s2: Seq<u64>,
    s3: Seq<u64>,
    low: int,
    p: int,
    high: int,
    pivot: u64,
)
    requires
        0 <= low <= p < high < s0.len(),
        same_outside(s1, s0, low, high),
        permutation(range_of(s1, low, high), range_of(s0, low, high)),
        forall|k: int| low <= k <= p ==> #[trigger] s1[k] <= pivot,
        forall|k: int| p < k <= high ==> #[trigger] s1[k] >= pivot,
        same_outside(s2, s1, low, p),
        sorted(range_of(s2, low, p)),
        permutation(range_of(s2, low, p), range_of(s1, low, p)),
        same_outside(s3, s2, p + 1, high),
        sorted(range_of(s3, p + 1, high)),
        permutation(range_of(s3, p + 1, high), range_of(s2, p + 1, high)),
    ensures
        same_outside(s3, s0, low, high),
        sorted(range_of(s3, low, high)),
        permutation(range_of(s3, low, high), range_of(s0, low, high)),
{
    let l1 = range_of(s1, low, p);
    let r1 = range_of(s1, p + 1, high);
    let l3 = range_of(s3, low, p);
    let r3 = range_of(s3, p + 1, high);
    assert(l3 =~= range_of(s2, low, p));
    assert(r1 =~= range_of(s2, p + 1, high));
    assert forall|i: int| 0 <= i < l1.len() implies #[trigger] l1[i] <= pivot by {
        assert(l1[i] == s1[low + i]);
    }
    assert forall|i: int| 0 <= i < r1.len() implies #[trigger] r1[i] >= pivot by {
        assert(r1[i] == s1[p + 1 + i]);
    }
    lemma_permutation_all(l1, l3, |v: u64| v <= pivot);
    lemma_permutation_all(r1, r3, |v: u64| v >= pivot);
    lemma_sorted_join(l3, r3, pivot);
    assert(range_of(s3, low, high) =~= l3 + r3);
    assert(range_of(s1, low, high) =~= l1 + r1);
    vstd::seq_lib::lemma_multiset_commutative(l3, r3);
    vstd::seq_lib::lemma_multiset_commutative(l1, r1);
}

/// Sorts the range `[low, high]` in place by partitioning it and sorting the
/// two parts in turn; elements outside the range are untouched. A range of at
/// most one element needs no work and leaves the buffer as it is.
fn quicksort_seq_rec(arr: &mut [u64], low: usize, high: usize)
    requires
        low < high ==> high < old(arr)@.len(),
    ensures
        same_outside(final(arr)@, old(arr)@, low as int, high as int),
        low <= high < old(arr)@.len() ==> sorted(range_of(final(arr)@, low as int, high as int)),
        low <= high < old(arr)@.len() ==> permutation(
            range_of(final(arr)@, low as int, high as int),
            range_of(old(arr)@, low as int, high as int),
        ),
        low >= high ==> final(arr)@ == old(arr)@,
    decreases high + 1 - low,
{
    if low >= high {
        proof {
            if low <= high < arr@.len() {
                assert(range_of(arr@, low as int, high as int).len() == 1);
            }
        }
        return;
    }
    let ghost s0 = arr@;
    let p = partition_hoare(arr, low, high);
    let ghost s1 = arr@;
    quicksort_seq_rec(arr, low, p);
    let ghost s2 = arr@;
    quicksort_seq_rec(arr, p + 1, high);
    proof {
        lemma_parts_sorted(
            s0,
            s1,
            s2,
            arr@,
            low as int,
            p as int,
            high as int,
            midpoint_pivot(s0, low as int, high as int),
        );
    }
}

/// Sorts the buffer in place, ascending, on the calling thread. The sort is
/// unstable.
pub fn quicksort_seq(arr: &mut [u64])
    ensures
        sorted(final(arr)@),
        permutation(final(arr)@, old(arr)@),
{
    if arr.len() == 0 {
        return;
    }
    let high = arr.len() - 1;
    quicksort_seq_rec(arr, 0, high);
    proof {
        assert(range_of(arr@, 0, high as int) =~= arr@);
        assert(range_of(old(arr)@, 0, high as int) =~= old(arr)@);
    }
}

/// Sorts two disjoint buffers, possibly at the same time.
///
/// Relies on `rayon::join`: it runs both closures to completion, on the calling
/// thread or on another worker of rayon's pool, before it returns. Each closure
/// calls `quicksort` on its own half.
#[verifier::external_body]
fn join_sorts(left: &mut [u64], right: &mut [u64])
    ensures
        sorted(final(left)@),
        permutation(final(left)@, old(left)@),
        sorted(final(right)@),
        permutation(final(right)@, old(right)@),
{
    rayon::join(|| quicksort(left), || quicksort(right));
}

/// Sorts the buffer in place, ascending, using potential parallelism: after
/// partitioning, the buffer is split at the partition point into two disjoint
/// halves that are sorted by a fork-join call, which may run them on two
/// workers or one after the other. A buffer of at most one element schedules no
/// work. The sort is unstable.
pub fn quicksort(arr: &mut [u64])
    ensures
        sorted(final(arr)@),
        permutation(final(arr)@, old(arr)@),
{
    if arr.len() <= 1 {
        return;
    }
    let ghost s0 = arr@;
    let high = arr.len() - 1;
    let p = partition_hoare(arr, 0, high);
    let ghost s1 = arr@;
    let (left, right) = arr.split_at_mut(p + 1);
    let ghost l1 = left@;
    let ghost r1 = right@;
    join_sorts(left, right);
    let ghost l3 = left@;
    let ghost r3 = right@;
    proof {
        let pivot = midpoint_pivot(s0, 0, high as int);
        assert(l1 == s1.subrange(0, p + 1));
        assert(r1 == s1.subrange(p + 1, s1.len() as int));
        assert(arr@ == l3 + r3);
        assert forall|i: int| 0 <= i < l1.len() implies #[trigger] l1[i] <= pivot by {
            assert(l1[i] == s1[i]);
        }
        assert forall|i: int| 0 <= i < r1.len() implies #[trigger] r1[i] >= pivot by {
            assert(r1[i] == s1[p + 1 + i]);
        }
        lemma_permutation_all(l1, l3, |v: u64| v <= pivot);
        lemma_permutation_all(r1, r3, |v: u64| v >= pivot);
        lemma_sorted_join(l3, r3, pivot);
        assert(range_of(s1, 0, high as int) =~= s1);
        assert(range_of(s0, 0, high as int) =~= s0);
        assert(s1 =~= l1 + r1);
        vstd::seq_lib::lemma_multiset_commutative(l1, r1);
        vstd::seq_lib::lemma_multiset_commutative(l3, r3);
    }
}

/// A sorted buffer has each element at most the next one.
pub proof fn lemma_sorted_adjacent(s: Seq<u64>)
    requires
        sorted(s),
    ensures
        forall|i: int| 1 <= i < s.len() ==> s[i - 1] <= #[trigger] s[i],
{
}

/// Two sorted sequences that hold the same elements with the same
/// multiplicities are equal.
pub proof fn lemma_sorted_permutation_unique(a: Seq<u64>, b: Seq<u64>)
    requires
        sorted(a),
        sorted(b),
        permutation(a, b),
    ensures
        a == b,
    decreases a.len(),
{
    assert(a.len() == a.to_multiset().len());
    assert(b.len() == b.to_multiset().len());
    if a.len() == 0 {
        assert(a =~= b);
    } else {
        assert(a.contains(a[0]));
        assert(a.to_multiset().count(a[0]) > 0);
        assert(b.to_multiset().count(a[0]) > 0);
        assert(b.contains(a[0]));
        let j = choose|j: int| 0 <= j < b.len() && b[j] == a[0];
        assert(b[0] <= a[0]);
        assert(b.contains(b[0]));
        assert(b.to_multiset().count(b[0]) > 0);
        assert(a.to_multiset().count(b[0]) > 0);
        assert(a.contains(b[0]));
        let i = choose|i: int| 0 <= i < a.len() && a[i] == b[0];
        assert(a[0] <= b[0]);
        let a1 = a.drop_first();
        let b1 = b.drop_first();
        assert(a.remove(0) =~= a1);
        assert(b.remove(0) =~= b1);
        assert(a1.to_multiset() == a.to_multiset().remove(a[0]));
        assert(b1.to_multiset() == b.to_multiset().remove(b[0]));
        assert(sorted(a1));
        assert(sorted(b1));
        lemma_sorted_permutation_unique(a1, b1);
        assert forall|k: int| 0 <= k < a.len() implies a[k] == b[k] by {
            if k > 0 {
                assert(a[k] == a1[k - 1]);
                assert(b[k] == b1[k - 1]);
            }
        }
        assert(a =~= b);
    }
}

/// Sorting a buffer that is already sorted leaves it unchanged: the only sorted
/// permutation of a sorted sequence is that sequence.
pub proof fn lemma_sort_idempotent(before: Seq<u64>, after: Seq<u64>)
    requires
        sorted(before),
        sorted(after),
        permutation(after, before),
    ensures
        after == before,
{
    lemma_sorted_permutation_unique(after, before);
}

/// The sequential and the parallel driver, started on copies of one buffer, end
/// with the same buffer: both give a sorted permutation of it, and there is only
/// one.
pub proof fn lemma_drivers_agree(input: Seq<u64>, by_seq: Seq<u64>, by_parallel: Seq<u64>)
    requires
        sorted(by_seq),
        permutation(by_seq, input),
        sorted(by_parallel),
        permutation(by_parallel, input),
    ensures
        by_seq == by_parallel,
{
    lemma_sorted_permutation_unique(by_seq, by_parallel);
}

} // verus!
