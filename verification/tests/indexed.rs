//! The ordered id set and the per-blob index helpers.

use osmpbf::indexed::{IdSet, range_included};

fn set_126() -> IdSet {
    let mut set = IdSet::new();
    set.insert(1);
    set.insert(2);
    set.insert(6);
    set
}

#[test]
fn test_range_included_set() {
    let set = set_126();

    assert!(!range_included(0, 0, &set));
    assert!(range_included(1, 1, &set));
    assert!(range_included(2, 2, &set));
    assert!(!range_included(3, 3, &set));
    assert!(!range_included(3, 5, &set));
    assert!(range_included(3, 6, &set));
    assert!(range_included(6, 6, &set));
    assert!(!range_included(7, 7, &set));
    assert!(range_included(0, 1, &set));
    assert!(range_included(6, 7, &set));
    assert!(range_included(2, 3, &set));
    assert!(range_included(5, 6, &set));
    assert!(range_included(5, 8, &set));
    assert!(range_included(0, 8, &set));
    assert!(range_included(0, 4, &set));
}

#[test]
fn id_set_dedups_and_sorts() {
    let mut set = IdSet::new();
    set.insert(5);
    set.insert(-3);
    set.insert(5);
    set.insert(0);
    assert_eq!(set.len(), 3);
    assert!(set.contains(5));
    assert!(set.contains(-3));
    assert!(set.contains(0));
    assert!(!set.contains(1));
    assert_eq!(set.get(0), -3);
    assert_eq!(set.get(1), 0);
    assert_eq!(set.get(2), 5);
}
