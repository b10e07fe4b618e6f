use quick_trim::range::RangeModel;

#[test]
fn starts_empty() {
    let r = RangeModel::new();
    assert_eq!(r, RangeModel { duration: 0, start: 0, end: 0, to_end: false });
}

#[test]
fn set_duration_selects_everything() {
    for d in [0u64, 1, 12345, u64::MAX] {
        let mut r = RangeModel { duration: 5, start: 3, end: 4, to_end: true };
        r.set_duration(d);
        assert_eq!(r.start, 0);
        assert_eq!(r.end, d);
        assert_eq!(r.duration, d);
        assert!(r.to_end);
    }
}

#[test]
fn negative_values_floor_to_zero() {
    let mut r = RangeModel::new();
    r.set_duration(1000);
    r.apply_update(-5, -7, false);
    assert_eq!((r.start, r.end), (0, 0));
}

#[test]
fn end_held_at_duration() {
    let mut r = RangeModel::new();
    r.set_duration(1000);
    r.apply_update(200, 5000, false);
    assert_eq!((r.start, r.end), (200, 1000));
    r.apply_update(300, 600, false);
    assert_eq!((r.start, r.end), (300, 600));
}

#[test]
fn start_is_not_held_below_end() {
    let mut r = RangeModel::new();
    r.set_duration(1000);
    r.apply_update(900, 100, false);
    assert_eq!((r.start, r.end), (900, 100));
    r.apply_update(i128::from(u64::MAX) + 10, 100, false);
    assert_eq!(r.start, u64::MAX);
}

#[test]
fn to_end_overrides_proposed_end() {
    let mut r = RangeModel::new();
    r.set_duration(1000);
    for e in [-3i128, 0, 400, 1000, 99999] {
        r.apply_update(10, e, true);
        assert_eq!(r.end, 1000);
        assert!(r.to_end);
    }
}

#[test]
fn to_end_flag_waits_for_next_update() {
    let mut r = RangeModel::new();
    r.set_duration(1000);
    r.apply_update(0, 400, false);
    r.set_to_end(true);
    assert_eq!(r.end, 400);
    let (s, e) = (r.start as i128, r.end as i128);
    r.apply_update(s, e, r.to_end);
    assert_eq!(r.end, 1000);
}
