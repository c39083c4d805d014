//! Unit tests for the overwrite tracker: first-write-wins recording,
//! exact-range lookup and removal, realignment for insertions, and the
//! validity check.

use overwrite_mode::OverwriteTracker;

fn owned(s: &str) -> Vec<char> {
    s.chars().collect()
}

#[test]
fn record_is_first_write_wins() {
    let mut t = OverwriteTracker::new();
    t.record(0, 1, owned("a"));
    t.record(0, 1, owned("b"));
    assert_eq!(t.record_count(), 1);
    assert_eq!(t.get(0, 1).unwrap(), &owned("a"));
}

#[test]
fn take_removes_exact_range() {
    let mut t = OverwriteTracker::new();
    t.record(0, 1, owned("a"));
    t.record(1, 2, owned("b"));
    // an inexact range is untracked
    assert!(t.take(0, 2).is_none());
    assert_eq!(t.take(1, 2).unwrap(), owned("b"));
    assert_eq!(t.record_count(), 1);
    assert!(t.take(1, 2).is_none());
    assert_eq!(t.take(0, 1).unwrap(), owned("a"));
    assert_eq!(t.record_count(), 0);
}

#[test]
fn shift_grows_insertion_point_and_moves_later_ranges() {
    let mut t = OverwriteTracker::new();
    t.record(0, 1, owned("y"));
    t.record(2, 2, owned(""));
    t.record(5, 6, owned("x"));
    t.shift_for_insertion(2);
    // before the insertion point: unchanged
    assert_eq!(t.get(0, 1).unwrap(), &owned("y"));
    // the empty range at the insertion point grows around the character
    assert_eq!(t.get(2, 3).unwrap(), &owned(""));
    // at or after it: shifted right by one
    assert_eq!(t.get(6, 7).unwrap(), &owned("x"));
    assert!(t.get(5, 6).is_none());
}

#[test]
fn contains_and_clear() {
    let mut t = OverwriteTracker::new();
    t.record(3, 4, owned("q"));
    assert!(t.contains(3, 4));
    assert!(!t.contains(3, 5));
    t.clear();
    assert_eq!(t.record_count(), 0);
    assert!(!t.contains(3, 4));
}

#[test]
fn within_checks_every_range() {
    let mut t = OverwriteTracker::new();
    t.record(1, 3, owned("ab"));
    assert!(t.within(3));
    assert!(t.within(4));
    assert!(!t.within(2));
    let mut u = OverwriteTracker::new();
    u.record(4, 2, owned(""));
    assert!(!u.within(10));
}

#[test]
fn unit_disjoint_checks_shape() {
    let mut t = OverwriteTracker::new();
    assert!(t.unit_disjoint());
    t.record(0, 1, owned("a"));
    t.record(2, 3, owned("b"));
    assert!(t.unit_disjoint());
    let mut u = OverwriteTracker::new();
    u.record(0, 2, owned("ab"));
    assert!(!u.unit_disjoint());
}
