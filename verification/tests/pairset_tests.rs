use rockies::pairset::IntPairSet;

#[test]
fn test_int_pair_set_contains_empty() {
    let set = IntPairSet::new(5);
    assert!(!set.contains(2, 3));
}

#[test]
fn test_int_pair_set_contains_after_put() {
    let mut set = IntPairSet::new(5);
    set.put(2, 3);
    assert!(set.contains(2, 3));
    assert!(set.contains(3, 2));
}

#[test]
fn test_int_pair_set_put_idempotent() {
    let mut set = IntPairSet::new(5);
    set.put(2, 3);
    set.put(2, 3);
    assert!(set.contains(2, 3));
    assert!(set.contains(3, 2));
}

// Constant-time clear forgets every recorded pair.
#[test]
fn test_int_pair_set_clear() {
    let mut set = IntPairSet::new(4);
    set.put(0, 1);
    set.put(2, 2);
    set.clear();
    assert!(!set.contains(0, 1));
    assert!(!set.contains(1, 0));
    assert!(!set.contains(2, 2));
    set.put(0, 1);
    assert!(set.contains(0, 1));
}

// Recording one pair leaves every other pair out.
#[test]
fn test_int_pair_set_other_pairs_untouched() {
    let mut set = IntPairSet::new(5);
    set.put(1, 2);
    assert!(!set.contains(1, 3));
    assert!(!set.contains(4, 4));
    assert!(!set.contains(2, 2));
}
