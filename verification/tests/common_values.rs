use hcbs_test_suite::time::{Bandwidth, Time, TimeDiff, MAX_MILLIS};

#[test]
fn millis_and_micros_convert_exactly() {
    assert_eq!(Time::from_millis(7).unwrap().as_micros(), 7_000);
    assert_eq!(Time::from_millis(MAX_MILLIS).unwrap().as_micros(), MAX_MILLIS * 1000);
    assert_eq!(Time::from_millis(MAX_MILLIS + 1), None);
    assert_eq!(Time::zero(), Time::from_micros(0));
    assert!(Time::from_micros(3_000).is_whole_millis());
    assert!(!Time::from_micros(3_001).is_whole_millis());
}

#[test]
fn millis_round_to_nearest_with_ties_to_even() {
    assert_eq!(Time::from_micros(0).millis_rounded(), 0);
    assert_eq!(Time::from_micros(499).millis_rounded(), 0);
    assert_eq!(Time::from_micros(500).millis_rounded(), 0);
    assert_eq!(Time::from_micros(501).millis_rounded(), 1);
    assert_eq!(Time::from_micros(1_500).millis_rounded(), 2);
    assert_eq!(Time::from_micros(2_500).millis_rounded(), 2);
    assert_eq!(Time::from_micros(3_500).millis_rounded(), 4);
    assert_eq!(Time::from_micros(u64::MAX).millis_rounded(), 18_446_744_073_709_552);
}

#[test]
fn time_arithmetic_is_checked() {
    let a = Time::from_micros(10);
    let b = Time::from_micros(4);
    assert_eq!(a.checked_add(b), Some(Time::from_micros(14)));
    assert_eq!(a.checked_sub(b), Some(Time::from_micros(6)));
    assert_eq!(b.checked_sub(a), None);
    assert_eq!(a.checked_mul(3), Some(Time::from_micros(30)));
    assert_eq!(Time::from_micros(u64::MAX).checked_add(Time::from_micros(1)), None);
    assert_eq!(Time::from_micros(u64::MAX).checked_mul(2), None);
    assert_eq!(Time::from_micros(u64::MAX).checked_mul(1), Some(Time::from_micros(u64::MAX)));
    assert_eq!(b.diff(a), TimeDiff { micros: -6 });
    assert_eq!(a.diff(b).as_micros(), 6);
    assert!(a.diff(b).is_positive());
    assert!(!b.diff(a).is_positive());
    assert!(!a.diff(a).is_positive());
    assert_eq!(TimeDiff::zero().as_micros(), 0);
}

#[test]
fn bandwidth_is_compared_exactly() {
    let cap = Bandwidth::from_millionths(700_000);
    assert!(Time::from_micros(14_000).within_bandwidth(Time::from_micros(20_000), cap));
    assert!(!Time::from_micros(14_001).within_bandwidth(Time::from_micros(20_000), cap));
    assert!(!Time::from_micros(0).within_bandwidth(Time::from_micros(0), cap));
    assert!(Time::from_micros(u64::MAX).within_bandwidth(
        Time::from_micros(u64::MAX),
        Bandwidth::from_millionths(1_000_000)
    ));
}
