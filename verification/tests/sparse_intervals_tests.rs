use padamo::sparse_intervals::{split_intervals, Interval, IntervalStorage, IntervalSubtraction};

fn iv(start: usize, end: usize) -> Interval {
    Interval::new(start, end)
}

fn pairs(v: &[Interval]) -> Vec<(usize, usize)> {
    v.iter().map(|x| (x.start, x.end)).collect()
}

#[test]
fn interval_basics() {
    let a = iv(3, 10);
    assert_eq!(a.length(), 7);
    assert!(!a.is_trivial());
    assert!(iv(4, 4).is_trivial());
    let b = a.offset(5);
    assert_eq!((b.start, b.end), (8, 15));
    assert!(a.contains(&iv(3, 10)));
    assert!(a.contains(&iv(4, 9)));
    assert!(!a.contains(&iv(2, 9)));
    assert!(a.contains_point(3));
    assert!(a.contains_point(9));
    assert!(!a.contains_point(10));
    assert!(!a.contains_point(2));
}

#[test]
fn interval_intersection_and_unify() {
    let a = iv(10, 20);
    let i = a.intersection(&iv(5, 15)).unwrap();
    assert_eq!((i.start, i.end), (10, 15));
    let i = a.intersection(&iv(12, 18)).unwrap();
    assert_eq!((i.start, i.end), (12, 18));
    // `other` ending past `self` is refused, even though the two overlap
    assert!(a.intersection(&iv(15, 25)).is_none());
    assert!(a.intersection(&iv(0, 5)).is_none());
    let u = a.unify(&iv(5, 15)).unwrap();
    assert_eq!((u.start, u.end), (5, 20));
    let u = a.unify(&iv(0, 10)).unwrap();
    assert_eq!((u.start, u.end), (0, 20));
    assert!(a.unify(&iv(21, 30)).is_none());
}

#[test]
fn interval_subtract_cases() {
    let a = iv(10, 20);
    match a.subtract(&iv(10, 20)) {
        IntervalSubtraction::Empty => {},
        other => panic!("unexpected {:?}", other),
    }
    match a.subtract(&iv(10, 15)) {
        IntervalSubtraction::Single(v) => assert_eq!((v.start, v.end), (15, 20)),
        other => panic!("unexpected {:?}", other),
    }
    match a.subtract(&iv(15, 20)) {
        IntervalSubtraction::Single(v) => assert_eq!((v.start, v.end), (10, 15)),
        other => panic!("unexpected {:?}", other),
    }
    match a.subtract(&iv(12, 15)) {
        IntervalSubtraction::Dual(x, y) => {
            assert_eq!((x.start, x.end), (10, 12));
            assert_eq!((y.start, y.end), (15, 20));
        },
        other => panic!("unexpected {:?}", other),
    }
    match a.subtract(&iv(5, 15)) {
        IntervalSubtraction::Single(v) => assert_eq!((v.start, v.end), (15, 20)),
        other => panic!("unexpected {:?}", other),
    }
    match a.subtract(&iv(5, 20)) {
        IntervalSubtraction::Empty => {},
        other => panic!("unexpected {:?}", other),
    }
    match a.subtract(&iv(30, 40)) {
        IntervalSubtraction::Empty => {},
        other => panic!("unexpected {:?}", other),
    }
}

#[test]
fn interval_display_text() {
    assert_eq!(iv(3, 10).to_display_string(), "[3, 10) (7)");
    assert_eq!(iv(0, 0).to_display_string(), "[0, 0) (0)");
    assert_eq!(iv(120, 4567).to_display_string(), "[120, 4567) (4447)");
}

#[test]
fn storage_new_and_first() {
    let full = IntervalStorage::new_full(100);
    assert_eq!(pairs(&full.container), vec![(0, 100)]);
    let f = full.get_first_available().unwrap();
    assert_eq!((f.start, f.end), (0, 100));
    let empty = IntervalStorage::new_empty();
    assert!(empty.container.is_empty());
    assert!(empty.get_first_available().is_none());
}

#[test]
fn storage_take_in_order() {
    let mut s = IntervalStorage::new_full(100);
    assert!(s.is_available(iv(20, 30)));
    assert!(s.take_interval(iv(20, 30)));
    assert_eq!(pairs(&s.container), vec![(0, 20), (30, 100)]);
    assert!(!s.is_available(iv(25, 35)));
    assert!(!s.take_interval(iv(25, 35)));
    assert_eq!(pairs(&s.container), vec![(0, 20), (30, 100)]);
    assert!(s.take_interval(iv(30, 50)));
    assert_eq!(pairs(&s.container), vec![(0, 20), (50, 100)]);
    assert!(s.take_interval(iv(0, 20)));
    assert_eq!(pairs(&s.container), vec![(50, 100)]);
    assert!(s.take_interval(iv(90, 100)));
    assert_eq!(pairs(&s.container), vec![(50, 90)]);
    assert!(!s.is_available(iv(40, 60)));
    assert!(s.is_available(iv(60, 70)));
}

#[test]
fn storage_take_inside_earlier_interval_swaps_starts() {
    // Cutting the middle out of an interval that is not the last one makes
    // the appended remainder exchange start frames with its predecessor.
    let mut s = IntervalStorage { container: vec![iv(0, 5), iv(10, 20)] };
    assert!(s.take_interval(iv(2, 3)));
    assert_eq!(pairs(&s.container), vec![(0, 2), (3, 20), (10, 5)]);
}

#[test]
fn storage_insert_merges_in_order() {
    let mut s = IntervalStorage::new_empty();
    assert!(s.insert_interval(iv(0, 10)));
    assert!(s.insert_interval(iv(10, 20)));
    assert_eq!(pairs(&s.container), vec![(0, 20)]);
    assert!(s.insert_interval(iv(25, 30)));
    assert_eq!(pairs(&s.container), vec![(0, 20), (25, 30)]);
    assert!(!s.insert_interval(iv(5, 8)));
    assert!(!s.insert_interval(iv(22, 26)));
    assert_eq!(pairs(&s.container), vec![(0, 20), (25, 30)]);
}

#[test]
fn split_intervals_runs() {
    let flags = vec![true, true, false, false, false, true, false];
    let (p, n) = split_intervals(&flags);
    assert_eq!(pairs(&p), vec![(0, 2), (5, 6)]);
    assert_eq!(pairs(&n), vec![(2, 5), (6, 7)]);
    let (p, n) = split_intervals(&vec![false]);
    assert!(p.is_empty());
    assert_eq!(pairs(&n), vec![(0, 1)]);
    let (p, n) = split_intervals(&vec![true, true, true]);
    assert_eq!(pairs(&p), vec![(0, 3)]);
    assert!(n.is_empty());
}
