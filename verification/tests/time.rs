use tmux_ai_titles::time::{Duration, Instant};

#[test]
fn spans_add_up_with_carry() {
    let a = Duration::new(1, 600_000_000);
    let b = Duration::new(2, 700_000_000);
    assert!(a.checked_add(b) == Some(Duration::new(4, 300_000_000)));
    let most = Duration::new(u64::MAX, 999_999_999);
    assert!(most.checked_add(Duration::new(0, 1)).is_none());
    assert!(most.checked_add(Duration::from_secs(1)).is_none());
    assert!(most.checked_add(Duration::from_secs(0)) == Some(most));
}

#[test]
fn spans_divide_as_in_the_standard_library() {
    for (secs, nanos) in [(0, 0), (7, 1), (u64::MAX, 999_999_999), (10, 500_000_000)] {
        for divisor in [1, 2, 3, 7, 1000, u32::MAX] {
            let ours = Duration::new(secs, nanos).checked_div(divisor).unwrap();
            let std = std::time::Duration::new(secs, nanos) / divisor;
            assert_eq!(ours.as_secs(), std.as_secs());
            assert_eq!(ours.subsec_nanos(), std.subsec_nanos());
            assert_eq!(ours.as_millis(), std.as_millis());
        }
    }
    assert!(Duration::from_secs(1).checked_div(0).is_none());
}

#[test]
fn nanoseconds_carry_into_seconds() {
    let d = Duration::new(1, 2_500_000_000);
    assert_eq!(d.as_secs(), 3);
    assert_eq!(d.subsec_nanos(), 500_000_000);
}

#[test]
fn the_time_between_points_is_never_negative() {
    let a = Instant::new(10, 900_000_000);
    let b = Instant::new(12, 100_000_000);
    assert!(b.duration_since(a) == Duration::new(1, 200_000_000));
    assert!(a.duration_since(b) == Duration::from_secs(0));
    assert!(b.is_after(a) && !a.is_after(b) && !a.is_after(a));
    let all = Instant::new(i64::MAX, 0).duration_since(Instant::new(i64::MIN, 0));
    assert!(all == Duration::from_secs(u64::MAX));
}

#[test]
fn a_point_before_the_earliest_does_not_exist() {
    let t = Instant::new(i64::MIN + 1, 0);
    assert!(t.checked_sub(Duration::from_secs(1)) == Some(Instant::new(i64::MIN, 0)));
    assert!(t.checked_sub(Duration::new(1, 1)).is_none());
    assert!(
        Instant::new(5, 0).checked_sub(Duration::new(1, 1)) == Some(Instant::new(3, 999_999_999))
    );
}

#[test]
fn spans_compare_by_length() {
    assert!(Duration::new(2, 0).is_at_least(Duration::new(1, 999_999_999)));
    assert!(Duration::new(1, 5).is_at_least(Duration::new(1, 5)));
    assert!(!Duration::new(1, 4).is_at_least(Duration::new(1, 5)));
}
