use unique64::{InvalidRelease, Unique64};

#[test]
fn working_correctly() {
    let mut dispatcher = Unique64::new();

    for _ in 0..1_000u64 {
        dispatcher.get_next();
    }

    assert!(dispatcher.next_id() == 1_000);

    for i in 500..1_000u64 {
        dispatcher.remove(i);
    }

    assert!(dispatcher.next_id() == 1_000);
    assert!(dispatcher.released_count() == 500);

    for _ in 500..1_000u64 {
        // g stands for gotten.
        let g: u64 = dispatcher.get_next();
        assert!((500..1_000).contains(&g))
    }

    assert!(dispatcher.next_id() == 1_000);
    assert!(dispatcher.released_count() == 0);

    let cool: u64 = dispatcher.get_next();

    assert!(cool == 1_000);
    assert!(dispatcher.released_count() == 0);
    assert!(dispatcher.next_id() == 1_001);

    for i in 0..1_000u64 {
        dispatcher.remove(i);
    }

    assert!(dispatcher.released_count() == 1_000);
    assert!(dispatcher.next_id() == 1_001);
}

#[test]
fn very_specific() {
    let mut dispatcher = Unique64::new();

    // 5 values, 0,1,2,3,4
    for _ in 0..5u64 {
        dispatcher.get_next();
    }

    dispatcher.remove(1);

    assert!(dispatcher.is_released(1));
    assert!(dispatcher.get_next() == 1);
    assert!(dispatcher.next_id() == 5);

    dispatcher.remove(4);

    assert!(dispatcher.is_released(4));
    assert!(dispatcher.get_next() == 4);
    assert!(dispatcher.next_id() == 5);

    dispatcher.remove(2);
    dispatcher.remove(3);
    assert!(dispatcher.is_released(3));
    assert!(dispatcher.is_released(2));
    let testing: u64 = dispatcher.get_next();
    assert!(testing == 2 || testing == 3);
    let testing: u64 = dispatcher.get_next();
    assert!(testing == 2 || testing == 3);

    assert!(dispatcher.next_id() == 5);
}

#[test]
fn readme_example() {
    let mut dispatcher = Unique64::new();

    // 0
    let x: u64 = dispatcher.get_next();

    assert!(x == 0);

    // 1
    let y: u64 = dispatcher.get_next();

    assert!(y == 1);

    // 0 is free again.
    dispatcher.remove(x);

    // 0
    let z: u64 = dispatcher.get_next();

    assert!(z == 0);
}

#[test]
fn release_never_issued_rejected() {
    let mut dispatcher = Unique64::new();
    assert!(dispatcher.try_remove(5) == Err(InvalidRelease));
    assert!(dispatcher.next_id() == 0);
    assert!(dispatcher.released_count() == 0);
}

#[test]
fn release_on_fresh_rejected() {
    // A fresh allocator has issued nothing, so even 0 cannot be released.
    let mut dispatcher = Unique64::new();
    assert!(dispatcher.try_remove(0) == Err(InvalidRelease));
}

#[test]
fn double_release_rejected() {
    let mut dispatcher = Unique64::new();
    for _ in 0..1_000u64 {
        dispatcher.get_next();
    }

    assert!(dispatcher.try_remove(7) == Ok(()));
    assert!(dispatcher.try_remove(7) == Err(InvalidRelease));
    assert!(dispatcher.is_released(7));
    assert!(dispatcher.released_count() == 1);
}

#[test]
fn release_at_counter_rejected() {
    // The counter itself has never been issued: releasing it must fail,
    // while the identifier just below it is active and releases fine.
    let mut dispatcher = Unique64::new();
    for _ in 0..3u64 {
        dispatcher.get_next();
    }
    assert!(dispatcher.try_remove(3) == Err(InvalidRelease));
    assert!(dispatcher.try_remove(u64::MAX) == Err(InvalidRelease));
    assert!(dispatcher.try_remove(2) == Ok(()));
}

#[test]
fn fresh_run_in_order() {
    // With nothing released, allocation yields 0, 1, 2, ... in order.
    let mut dispatcher = Unique64::new();
    for i in 0..1_000u64 {
        assert!(dispatcher.get_next() == i);
    }
    assert!(dispatcher.next_id() == 1_000);
}

#[test]
fn recycle_before_fresh() {
    // A released identifier comes back before any fresh one is issued.
    let mut dispatcher = Unique64::new();
    for _ in 0..3u64 {
        dispatcher.get_next();
    }
    dispatcher.remove(1);
    let g: u64 = dispatcher.get_next();
    assert!(g == 1);
    assert!(dispatcher.next_id() == 3);
}

#[test]
fn recycled_ids_exactly_once() {
    // Release 500..999, then reallocate 500 times: each released identifier
    // comes back exactly once, and only then does a fresh one appear.
    let mut dispatcher = Unique64::new();
    for i in 0..1_000u64 {
        assert!(dispatcher.get_next() == i);
    }
    assert!(dispatcher.next_id() == 1_000);

    for i in 500..1_000u64 {
        dispatcher.remove(i);
    }
    assert!(dispatcher.released_count() == 500);
    assert!(dispatcher.next_id() == 1_000);

    let mut seen: Vec<bool> = vec![false; 500];
    for _ in 0..500u64 {
        let g: u64 = dispatcher.get_next();
        assert!((500..1_000).contains(&g));
        let slot: usize = (g - 500) as usize;
        assert!(!seen[slot]);
        seen[slot] = true;
    }
    assert!(seen.iter().all(|&s| s));
    assert!(dispatcher.next_id() == 1_000);
    assert!(dispatcher.released_count() == 0);

    let fresh: u64 = dispatcher.get_next();
    assert!(fresh == 1_000);
    assert!(dispatcher.next_id() == 1_001);
}

#[test]
fn default_is_fresh() {
    let mut dispatcher = Unique64::default();
    assert!(dispatcher.next_id() == 0);
    assert!(dispatcher.released_count() == 0);
    assert!(!dispatcher.is_released(0));
    assert!(dispatcher.get_next() == 0);
    assert!(dispatcher.next_id() == 1);
}

#[test]
fn release_tracking() {
    let mut dispatcher = Unique64::new();
    for _ in 0..4u64 {
        dispatcher.get_next();
    }
    assert!(!dispatcher.is_released(2));
    dispatcher.remove(2);
    assert!(dispatcher.is_released(2));
    assert!(dispatcher.released_count() == 1);
    let g: u64 = dispatcher.get_next();
    assert!(g == 2);
    assert!(!dispatcher.is_released(2));
    assert!(dispatcher.released_count() == 0);
}
