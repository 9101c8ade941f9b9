use raytracer::fixed::ONE;
use raytracer::interval::Interval;

#[test]
fn interval_test_new() {
    let i = Interval::new(0, ONE);
    assert_eq!(i.min, 0);
    assert_eq!(i.max, ONE);
}

#[test]
fn test_contains() {
    let i = Interval::new(0, ONE);
    assert_eq!(i.contains(0), true);
    assert_eq!(i.contains(ONE / 2), true);
    assert_eq!(i.contains(ONE + ONE / 10), false);
}

#[test]
fn test_surrounds() {
    let i = Interval::new(0, ONE);
    assert_eq!(i.surrounds(0), false);
    assert_eq!(i.surrounds(ONE / 2), true);
    assert_eq!(i.surrounds(ONE + ONE / 10), false);
}

#[test]
fn test_clamp() {
    let i = Interval::new(0, ONE);
    assert_eq!(i.clamp(-ONE), 0);
    assert_eq!(i.clamp(2 * ONE), ONE);
    assert_eq!(i.clamp(ONE / 2), ONE / 2);
}

#[test]
fn empty_and_universe() {
    let e = Interval::empty();
    let u = Interval::universe();
    for x in [i32::MIN, -ONE, 0, ONE, i32::MAX] {
        assert!(!e.contains(x));
        assert!(u.contains(x));
    }
}
