use glitchfree::basis::BasisStamp;

fn stamp(entries: &[(&str, u64)]) -> BasisStamp {
    let mut s = BasisStamp::empty();
    for (source, version) in entries {
        s.merge_from(&BasisStamp::single(source.to_string(), *version));
    }
    s
}

fn same_counters(a: &BasisStamp, b: &BasisStamp, sources: &[&str]) -> bool {
    a.len() == b.len()
        && sources.iter().all(|s| {
            a.get(&s.to_string()) == b.get(&s.to_string())
                && a.names_source(&s.to_string()) == b.names_source(&s.to_string())
        })
}

#[test]
fn empty_stamp_names_no_source() {
    let s = BasisStamp::empty();
    assert_eq!(s.len(), 0);
    assert_eq!(s.get(&"x".to_string()), 0);
    assert!(!s.names_source(&"x".to_string()));
}

#[test]
fn single_stamp_names_its_source() {
    let s = BasisStamp::single("x".to_string(), 7);
    assert_eq!(s.len(), 1);
    assert_eq!(s.get(&"x".to_string()), 7);
    assert!(s.names_source(&"x".to_string()));
    assert_eq!(s.get(&"y".to_string()), 0);
    assert!(!s.names_source(&"y".to_string()));
}

#[test]
fn merge_takes_the_larger_counter_of_each_source() {
    let mut a = stamp(&[("x", 3), ("y", 5)]);
    let b = stamp(&[("y", 2), ("z", 9), ("x", 4)]);
    a.merge_from(&b);
    assert_eq!(a.len(), 3);
    assert_eq!(a.get(&"x".to_string()), 4);
    assert_eq!(a.get(&"y".to_string()), 5);
    assert_eq!(a.get(&"z".to_string()), 9);
    assert_eq!(a.get(&"w".to_string()), 0);
}

#[test]
fn merge_leaves_the_other_stamp_as_it_was() {
    let mut a = stamp(&[("x", 3)]);
    let b = stamp(&[("x", 1), ("y", 2)]);
    a.merge_from(&b);
    assert_eq!(b.len(), 2);
    assert_eq!(b.get(&"x".to_string()), 1);
    assert_eq!(b.get(&"y".to_string()), 2);
}

#[test]
fn merge_takes_over_a_source_at_version_zero() {
    let mut a = BasisStamp::empty();
    a.merge_from(&BasisStamp::single("x".to_string(), 0));
    assert_eq!(a.len(), 1);
    assert!(a.names_source(&"x".to_string()));
    assert_eq!(a.get(&"x".to_string()), 0);
}

#[test]
fn merge_with_the_empty_stamp_changes_nothing() {
    let mut a = stamp(&[("x", 3), ("y", 5)]);
    a.merge_from(&BasisStamp::empty());
    assert!(same_counters(&a, &stamp(&[("x", 3), ("y", 5)]), &["x", "y"]));
    let mut e = BasisStamp::empty();
    e.merge_from(&a);
    assert!(same_counters(&e, &a, &["x", "y"]));
}

#[test]
fn merge_is_commutative_on_examples() {
    let a = stamp(&[("x", 3), ("y", 5)]);
    let b = stamp(&[("y", 8), ("z", 1)]);
    let mut ab = a.clone();
    ab.merge_from(&b);
    let mut ba = b.clone();
    ba.merge_from(&a);
    assert!(same_counters(&ab, &ba, &["x", "y", "z", "w"]));
    assert_eq!(ab.get(&"y".to_string()), 8);
}

#[test]
fn merge_is_associative_on_examples() {
    let a = stamp(&[("x", 3), ("y", 5)]);
    let b = stamp(&[("y", 8), ("z", 1)]);
    let c = stamp(&[("z", 4), ("x", 2), ("w", 6)]);
    let mut left = a.clone();
    left.merge_from(&b);
    left.merge_from(&c);
    let mut bc = b.clone();
    bc.merge_from(&c);
    let mut right = a.clone();
    right.merge_from(&bc);
    assert!(same_counters(&left, &right, &["x", "y", "z", "w", "v"]));
    assert_eq!(left.get(&"x".to_string()), 3);
    assert_eq!(left.get(&"y".to_string()), 8);
    assert_eq!(left.get(&"z".to_string()), 4);
    assert_eq!(left.get(&"w".to_string()), 6);
}

#[test]
fn merge_is_idempotent_on_examples() {
    let a = stamp(&[("x", 3), ("y", 5)]);
    let mut aa = a.clone();
    aa.merge_from(&a);
    assert!(same_counters(&aa, &a, &["x", "y", "z"]));
}

#[test]
fn merge_reaches_the_largest_version() {
    let mut a = BasisStamp::single("x".to_string(), u64::MAX);
    a.merge_from(&BasisStamp::single("x".to_string(), 1));
    assert_eq!(a.get(&"x".to_string()), u64::MAX);
    let mut b = BasisStamp::single("x".to_string(), 1);
    b.merge_from(&BasisStamp::single("x".to_string(), u64::MAX));
    assert_eq!(b.get(&"x".to_string()), u64::MAX);
}

#[test]
fn clone_of_a_stamp_has_the_same_counters() {
    let a = stamp(&[("x", 3), ("y", 5)]);
    let b = a.clone();
    assert!(same_counters(&a, &b, &["x", "y", "z"]));
}
