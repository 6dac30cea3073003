use string_art::line_set::LineSet;

#[test]
fn mark_makes_both_orientations_members() {
    let mut set = LineSet::new(16);
    assert!(!set.has(3, 7));
    assert!(!set.has(7, 3));
    set.add(3, 7);
    assert!(set.has(3, 7));
    assert!(set.has(7, 3));
}

#[test]
fn mark_changes_no_other_pair() {
    let mut set = LineSet::new(8);
    set.add(2, 5);
    for a in 0..8u16 {
        for b in 0..8u16 {
            let is_marked_pair = (a, b) == (2, 5) || (a, b) == (5, 2);
            assert_eq!(set.has(a, b), is_marked_pair, "pair ({a}, {b})");
        }
    }
}

#[test]
fn marks_accumulate() {
    let mut set = LineSet::new(300);
    set.add(0, 299);
    set.add(299, 1);
    assert!(set.has(299, 0));
    assert!(set.has(1, 299));
    assert!(!set.has(0, 1));
}
