use jwtop::history::History;
use jwtop::HISTORY_LEN;

#[test]
fn full_length_from_construction() {
    let w = History::new();
    assert_eq!(w.len(), HISTORY_LEN);
    for i in 0..HISTORY_LEN {
        assert_eq!(w.get(i), 0);
    }
}

#[test]
fn length_fixed_across_pushes() {
    let mut w = History::new();
    for v in 0..200u64 {
        w.push(v);
        assert_eq!(w.len(), HISTORY_LEN);
    }
}

#[test]
fn fifo_order_after_pushes() {
    let mut w = History::new();
    for v in 1..=5u64 {
        w.push(v * 10);
    }
    // The first HISTORY_LEN - 5 samples are still the initial zeros.
    for i in 0..HISTORY_LEN - 5 {
        assert_eq!(w.get(i), 0);
    }
    // The last five are the pushed values, oldest first.
    for (k, expected) in [10u64, 20, 30, 40, 50].iter().enumerate() {
        assert_eq!(w.get(HISTORY_LEN - 5 + k), *expected);
    }
    assert_eq!(w.latest(), 50);
}

#[test]
fn eviction_is_strict_fifo() {
    let mut w = History::new();
    for v in 1..=(HISTORY_LEN as u64 + 3) {
        w.push(v);
    }
    // The three oldest samples have been evicted.
    assert_eq!(w.get(0), 4);
    assert_eq!(w.latest(), HISTORY_LEN as u64 + 3);
}
