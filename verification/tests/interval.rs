use pathtracer::interval::Interval;

#[test]
fn new_interval_is_empty() {
    let e = Interval::new();
    assert_eq!((e.min, e.max), (i64::MAX, i64::MIN));
    let e = Interval::empty();
    assert_eq!((e.min, e.max), (i64::MAX, i64::MIN));
    for x in [i64::MIN, -1, 0, 1, i64::MAX] {
        assert!(!e.contains(x));
        assert!(!e.surrounds(x));
    }
}

#[test]
fn universe_contains_everything() {
    let u = Interval::universe();
    assert_eq!((u.min, u.max), (i64::MIN, i64::MAX));
    for x in [i64::MIN, -1, 0, 1, i64::MAX] {
        assert!(u.contains(x));
    }
    assert!(u.surrounds(0));
    assert!(!u.surrounds(i64::MIN));
    assert!(!u.surrounds(i64::MAX));
}

#[test]
fn contains_takes_the_ends_in() {
    let i = Interval::from_values(-3, 8);
    assert!(i.contains(-3));
    assert!(i.contains(8));
    assert!(i.contains(0));
    assert!(!i.contains(-4));
    assert!(!i.contains(9));
}

#[test]
fn surrounds_leaves_the_ends_out() {
    let i = Interval::from_values(-3, 8);
    assert!(!i.surrounds(-3));
    assert!(!i.surrounds(8));
    assert!(i.surrounds(-2));
    assert!(i.surrounds(7));
    assert!(!i.surrounds(100));
}

#[test]
fn clamp_saturates() {
    let i = Interval::from_values(0, 999);
    assert_eq!(i.clamp(-5), 0);
    assert_eq!(i.clamp(0), 0);
    assert_eq!(i.clamp(500), 500);
    assert_eq!(i.clamp(999), 999);
    assert_eq!(i.clamp(1000), 999);
    assert_eq!(i.clamp(i64::MAX), 999);
    assert_eq!(i.clamp(i64::MIN), 0);
}

#[test]
fn clamp_to_a_point() {
    let i = Interval::from_values(4, 4);
    assert_eq!(i.clamp(3), 4);
    assert_eq!(i.clamp(4), 4);
    assert_eq!(i.clamp(5), 4);
}

#[test]
fn clamp_with_crossed_ends_prefers_min() {
    let i = Interval::from_values(10, 0);
    assert_eq!(i.clamp(5), 10);
    assert_eq!(i.clamp(20), 0);
    assert_eq!(i.clamp(-1), 10);
}
