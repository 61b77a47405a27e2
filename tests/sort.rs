use quicksort::key::{bits_from_key, key_from_bits};
use quicksort::sort::{partition_hoare, quicksort, quicksort_seq};

fn keys(values: &[f64]) -> Vec<u64> {
    values.iter().map(|v| key_from_bits(v.to_bits())).collect()
}

fn values(keys: &[u64]) -> Vec<f64> {
    keys.iter().map(|k| f64::from_bits(bits_from_key(*k))).collect()
}

fn partition_hoare_whole(arr: &mut [u64]) -> usize {
    let high = arr.len() - 1;
    partition_hoare(arr, 0, high)
}

#[test]
fn hoare_one() {
    let mut arr = keys(&[-3.3]);
    let pivot = partition_hoare_whole(&mut arr);
    assert_eq!(pivot, 0);
    assert_eq!(values(&arr), [-3.3]);
}

#[test]
fn hoare_two_unsorted() {
    let mut arr = keys(&[9.0, 8.0]);
    let pivot = partition_hoare_whole(&mut arr);
    assert_eq!(pivot, 0);
    assert_eq!(values(&arr), [8.0, 9.0]);
}

#[test]
fn hoare_even_sorted() {
    let mut arr = keys(&[1.0, 2.4, 3.0, 7.0]);
    let pivot = partition_hoare_whole(&mut arr);
    assert_eq!(pivot, 1);
    assert_eq!(values(&arr), [1.0, 2.4, 3.0, 7.0]);
}

#[test]
fn hoare_even_sorted_slice() {
    let mut arr = keys(&[1.0, 2.4, 3.0, 7.0, 16.4, 902.1, -703.2, 9.2]);
    let pivot = partition_hoare(&mut arr, 1, 4);
    assert_eq!(pivot, 2);
    assert_eq!(values(&arr), [1.0, 2.4, 3.0, 7.0, 16.4, 902.1, -703.2, 9.2]);
}

#[test]
fn hoare_equal() {
    let mut arr = keys(&[3.0, 3.0, 3.0]);
    let pivot = partition_hoare_whole(&mut arr);
    assert_eq!(pivot, 1);
    assert_eq!(values(&arr), [3.0, 3.0, 3.0]);
}

#[test]
fn hoare_odd_sorted() {
    let mut arr = keys(&[2.3, 3.0, 4.0]);
    let pivot = partition_hoare_whole(&mut arr);
    assert_eq!(pivot, 1);
    assert_eq!(values(&arr), [2.3, 3.0, 4.0]);
}

#[test]
fn hoare_even_unsorted() {
    let mut arr = keys(&[1.0, 7.1, 2.2, 8.0]);
    let pivot = partition_hoare_whole(&mut arr);
    assert_eq!(pivot, 1);
    assert_eq!(values(&arr), [1.0, 2.2, 7.1, 8.0]);
}

#[test]
fn hoare_odd_unsorted() {
    let mut arr = keys(&[9.2, 3.1, 4.0]);
    let pivot = partition_hoare_whole(&mut arr);
    assert_eq!(pivot, 0);
    assert_eq!(values(&arr), [3.1, 9.2, 4.0]);
}

#[test]
fn hoare_split_sides() {
    let mut arr = keys(&[5.0, -1.0, 8.0, 2.0, 9.0, 0.5, 7.0]);
    let pivot_value = 2.0;
    let p = partition_hoare_whole(&mut arr);
    let after = values(&arr);
    assert!(p < after.len() - 1);
    assert!(after[..=p].iter().all(|v| *v <= pivot_value));
    assert!(after[p + 1..].iter().all(|v| *v >= pivot_value));
}

#[test]
fn hoare_leaves_outside_untouched() {
    let mut arr = keys(&[9.0, 8.0, 7.0, 6.0, 5.0]);
    let p = partition_hoare(&mut arr, 1, 3);
    let after = values(&arr);
    assert!((1..=3).contains(&p));
    assert_eq!(after[0], 9.0);
    assert_eq!(after[4], 5.0);
}

#[test]
fn quicksort_seq_one() {
    let mut arr = keys(&[9.7]);
    quicksort_seq(&mut arr);
    assert_eq!(values(&arr), [9.7]);
}

#[test]
fn quicksort_seq_two_unsorted() {
    let mut arr = keys(&[3.4, 1.0]);
    quicksort_seq(&mut arr);
    assert_eq!(values(&arr), [1.0, 3.4]);
}

#[test]
fn quicksort_seq_even_sorted() {
    let mut arr = keys(&[1.0, 9.7, 3.4, 4.0]);
    quicksort_seq(&mut arr);
    assert_eq!(values(&arr), [1.0, 3.4, 4.0, 9.7]);
}

#[test]
fn quicksort_seq_odd_sorted() {
    let mut arr = keys(&[1.0, 9.7, 3.4, 4.0, -3.14]);
    quicksort_seq(&mut arr);
    assert_eq!(values(&arr), [-3.14, 1.0, 3.4, 4.0, 9.7]);
}

#[test]
fn quicksort_serial() {
    let mut arr1 = keys(&[1.0, 9.7, 3.4, 4.0]);
    let mut arr2 = arr1.clone();
    assert_eq!(quicksort_seq(&mut arr1), quicksort(&mut arr2));
    assert_eq!(arr1, arr2);
}

#[test]
fn quicksort_even_unsorted_concurrent() {
    let mut arr = keys(&[1.0, 9.7, 3.4, 4.0]);
    quicksort(&mut arr);
    assert_eq!(values(&arr), [1.0, 3.4, 4.0, 9.7]);
}

#[test]
fn quicksort_odd_unsorted_concurrent() {
    let mut arr = keys(&[1.0, 9.7, 3.4, 4.0, -3.14]);
    quicksort(&mut arr);
    assert_eq!(values(&arr), [-3.14, 1.0, 3.4, 4.0, 9.7]);
}

#[test]
fn quicksort_doc_example() {
    let mut arr = keys(&[3.0, 3.0, 9.0, 3.0, 7.0]);
    quicksort(&mut arr);
    assert_eq!(values(&arr), [3.0, 3.0, 3.0, 7.0, 9.0]);
}

#[test]
fn sort_empty_buffer() {
    let mut a: Vec<u64> = Vec::new();
    quicksort_seq(&mut a);
    assert!(a.is_empty());
    let mut b: Vec<u64> = Vec::new();
    quicksort(&mut b);
    assert!(b.is_empty());
}

#[test]
fn sort_keeps_multiplicities() {
    let input = [4.5, -2.0, 4.5, 0.0, 11.25, -2.0, 4.5, 1e300, -1e-300];
    let mut arr = keys(&input);
    quicksort_seq(&mut arr);
    let out = values(&arr);
    assert_eq!(out, [-2.0, -2.0, -1e-300, 0.0, 4.5, 4.5, 4.5, 11.25, 1e300]);
}

#[test]
fn sorted_adjacent_pairs() {
    let mut arr: Vec<u64> = (0..500u64).map(|i| (i * 7919) % 263).collect();
    quicksort_seq(&mut arr);
    for i in 1..arr.len() {
        assert!(arr[i - 1] <= arr[i]);
    }
}

#[test]
fn sort_already_sorted_unchanged() {
    let sorted = keys(&[-5.5, -1.0, 0.0, 2.0, 2.0, 3.75, 100.0]);
    let mut a = sorted.clone();
    quicksort_seq(&mut a);
    assert_eq!(a, sorted);
    let mut b = sorted.clone();
    quicksort(&mut b);
    assert_eq!(b, sorted);
}

#[test]
fn drivers_agree_on_large_buffer() {
    let input: Vec<u64> = (0..20000u64).map(|i| (i * 2654435761) % 10007).collect();
    let mut a = input.clone();
    let mut b = input.clone();
    quicksort_seq(&mut a);
    quicksort(&mut b);
    assert_eq!(a, b);
    let mut expected = input;
    expected.sort();
    assert_eq!(a, expected);
}

#[test]
fn sort_negative_zero_before_positive_zero() {
    let mut arr = keys(&[0.0, -0.0, -1.0]);
    quicksort(&mut arr);
    let out = values(&arr);
    assert_eq!(out[0], -1.0);
    assert!(out[1] == 0.0 && out[1].is_sign_negative());
    assert!(out[2] == 0.0 && out[2].is_sign_positive());
}
