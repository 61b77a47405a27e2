use quicksort::arith::add_mul;
use quicksort::bounds::Bounds;
use quicksort::key::{bits_from_key, key_from_bits};
use quicksort::pool::{PoolState, WorkerStatus};

#[test]
fn test_add_mul() {
    let x = 3;
    let y = 4;
    let result = 14;
    assert_eq!(
        add_mul(x, y),
        result,
        "testing add_mul with {} and {}, which should be {}",
        x,
        y,
        result
    );
}

#[test]
fn bounds_contains_and_range() {
    let b = Bounds::new(-5, 10).unwrap();
    assert!(b.contains(-5));
    assert!(b.contains(10));
    assert!(!b.contains(11));
    assert!(!b.contains(-6));
    assert_eq!(b.range(), 16);
    assert_eq!(b.lower(), -5);
    assert_eq!(b.upper(), 10);
    assert_eq!(Bounds::new(3, 3).unwrap().range(), 1);
}

#[test]
fn bounds_reversed_rejected() {
    assert!(Bounds::new(4, 3).is_none());
}

#[test]
fn bounds_widest_countable() {
    let b = Bounds::new(i64::MIN, i64::MAX - 1).unwrap();
    assert_eq!(b.range(), u64::MAX);
}

#[test]
fn key_order_follows_doubles() {
    let xs = [-f64::INFINITY, -1e10, -2.5, -1e-310, -0.0, 0.0, 1e-310, 2.5, 1e10, f64::INFINITY];
    for i in 1..xs.len() {
        assert!(key_from_bits(xs[i - 1].to_bits()) < key_from_bits(xs[i].to_bits()));
    }
}

#[test]
fn key_round_trip() {
    for x in [0.0f64, -0.0, 1.5, -1.5, f64::MAX, f64::MIN, f64::MIN_POSITIVE] {
        let k = key_from_bits(x.to_bits());
        assert_ne!(k, x.to_bits());
        assert_eq!(bits_from_key(k), x.to_bits());
    }
    assert_eq!(key_from_bits(0), 0x8000_0000_0000_0000);
    assert_eq!(key_from_bits(0x8000_0000_0000_0000), 0x7fff_ffff_ffff_ffff);
}

#[test]
fn pool_dispatch_prefers_first_idle() {
    let mut pool = PoolState::new(3);
    assert_eq!(pool.size(), 3);
    assert_eq!(pool.dispatch(), 0);
    pool.task_started(0);
    assert_eq!(pool.status(0), WorkerStatus::Working);
    assert_eq!(pool.dispatch(), 1);
    pool.task_started(1);
    assert_eq!(pool.dispatch(), 2);
    pool.task_started(2);
    assert_eq!(pool.dispatch(), 0);
    pool.task_finished(1);
    assert_eq!(pool.status(1), WorkerStatus::Idle);
    assert_eq!(pool.dispatch(), 1);
}

#[test]
fn pool_unspaced_submissions_share_a_worker() {
    let pool = PoolState::new(4);
    let first = pool.dispatch();
    let second = pool.dispatch();
    assert_eq!(first, second);
}

#[test]
fn pool_spaced_submissions_distinct() {
    let k = 5;
    let mut pool = PoolState::new(k);
    let mut chosen = Vec::new();
    for _ in 0..k {
        let id = pool.dispatch();
        pool.task_started(id);
        chosen.push(id);
    }
    assert_eq!(chosen, vec![0, 1, 2, 3, 4]);
}
