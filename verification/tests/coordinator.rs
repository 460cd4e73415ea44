use thingmirror::coordinator::Coorinator;

#[test]
fn in_order_completion_commits_every_index() {
    let mut c = Coorinator::with_index(1);
    let i1 = c.begin();
    let i2 = c.begin();
    let i3 = c.begin();
    assert_eq!(i1, 1);
    assert_eq!(i2, 2);
    assert_eq!(i3, 3);
    assert_eq!(c.complete(1), Some(1));
    assert_eq!(c.complete(2), Some(2));
    assert_eq!(c.complete(3), Some(3));
}

#[test]
fn out_of_order_completion_commits_only_at_the_minimum() {
    let mut c = Coorinator::with_index(1);
    assert_eq!(c.begin(), 1);
    assert_eq!(c.begin(), 2);
    assert_eq!(c.begin(), 3);
    // set = {1, 2, 3}, minimum 1: completing 2 does not advance
    assert_eq!(c.complete(2), None);
    // set = {1, 3}, minimum 1: completing 3 does not advance
    assert_eq!(c.complete(3), None);
    // set = {1}, minimum 1: completing 1 advances to 1
    assert_eq!(c.complete(1), Some(1));
}

#[test]
fn signals_are_strictly_increasing_over_an_interleaving() {
    let mut c = Coorinator::with_index(10);
    let mut signals: Vec<u64> = Vec::new();
    let a = c.begin();
    let b = c.begin();
    let d = c.begin();
    let e = c.begin();
    for i in [b, a, e, d] {
        if let Some(w) = c.complete(i) {
            signals.push(w);
        }
    }
    for w in signals.windows(2) {
        assert!(w[0] < w[1]);
    }
    // completing 11 then 13 yields nothing (10, then 12, is still in
    // flight); completing 10 and 12 advances the watermark each time
    assert_eq!(signals, vec![10, 12]);
}

#[test]
fn allocation_never_repeats_an_index() {
    let mut c = Coorinator::with_index(5);
    let mut seen: Vec<u64> = Vec::new();
    for _ in 0..100 {
        let i = c.begin();
        assert!(!seen.contains(&i));
        seen.push(i);
    }
}

#[test]
fn a_stuck_index_blocks_all_later_commits() {
    let mut c = Coorinator::with_index(1);
    let stuck = c.begin();
    assert_eq!(stuck, 1);
    // the task under index 1 fails for good: complete(1) is never called
    for _ in 0..20 {
        let i = c.begin();
        assert_eq!(c.complete(i), None);
    }
}

#[test]
fn with_index_starts_allocation_at_the_given_index() {
    let mut c = Coorinator::with_index(42);
    assert_eq!(c.begin(), 42);
    assert_eq!(c.begin(), 43);
}
