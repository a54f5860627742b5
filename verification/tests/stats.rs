use tmux_ai_titles::stats::{
    format_duration, format_duration_ms, format_duration_ms_with, InFlight, Kind, Ring, Stats,
    RING_CAP,
};
use tmux_ai_titles::time::{Duration, Instant};

fn at(secs: i64) -> Instant {
    Instant::new(secs, 0)
}

fn millis(ms: u64) -> Duration {
    Duration::new(ms / 1000, (ms % 1000) as u32 * 1_000_000)
}

#[test]
fn a_new_process_reports_nothing_generated() {
    let stats = Stats::new(at(100));
    assert_eq!(
        stats.render(at(3825)),
        "uptime: 1h2m5s\ntotal generations: 0 (panes: 0, windows: 0)\nlast hour: 0\navg interval: n/a\navg generation time: n/a\nin flight: 0"
    );
}

#[test]
fn a_report_counts_both_kinds_and_averages() {
    let mut stats = Stats::new(at(0));
    stats.record_success(Kind::Pane, at(10), millis(1500));
    stats.record_success(Kind::Window, at(7000), millis(500));
    stats.record_success(Kind::Pane, at(7100), millis(250));
    stats.in_flight_inc();
    stats.in_flight_inc();
    assert_eq!(
        stats.render(at(7200)),
        "uptime: 2h0m0s\ntotal generations: 3 (panes: 2, windows: 1)\nlast hour: 2\navg interval: 40m0s\navg generation time: 750ms\nin flight: 2"
    );
}

#[test]
fn an_entry_exactly_an_hour_old_still_counts() {
    let mut stats = Stats::new(at(0));
    stats.record_success(Kind::Pane, at(400), millis(1));
    assert!(stats.render(at(4000)).contains("last hour: 1\n"));
    assert!(stats.render(Instant::new(4000, 1)).contains("last hour: 0\n"));
}

#[test]
fn the_start_stands_in_for_a_point_that_cannot_be_represented() {
    let mut stats = Stats::new(at(i64::MIN + 10));
    stats.record_success(Kind::Pane, at(i64::MIN + 5), millis(1));
    stats.record_success(Kind::Pane, at(i64::MIN + 20), millis(1));
    assert!(stats.render(at(i64::MIN + 30)).contains("last hour: 1\n"));
}

#[test]
fn a_report_before_the_start_shows_no_uptime() {
    let stats = Stats::new(at(50));
    assert!(stats.render(at(40)).starts_with("uptime: 0s\n"));
}

#[test]
fn the_ring_keeps_the_latest() {
    let mut ring = Ring::new();
    assert_eq!(ring.count_since(at(0)), 0);
    for i in 0..RING_CAP as i64 + 10 {
        ring.push(at(i));
    }
    assert_eq!(ring.count_since(at(0)), RING_CAP);
    assert_eq!(ring.count_since(at(10)), RING_CAP);
    assert_eq!(ring.count_since(at(11)), RING_CAP - 1);
    assert_eq!(ring.count_since(at(RING_CAP as i64 + 9)), 1);
    assert_eq!(ring.count_since(at(RING_CAP as i64 + 10)), 0);
}

#[test]
fn totals_stay_accurate_when_the_ring_overflows() {
    let mut stats = Stats::new(at(0));
    for i in 0..1100 {
        stats.record_success(Kind::Window, at(i), millis(2000));
    }
    let report = stats.render(at(1100));
    assert!(report.contains("total generations: 1100 (panes: 0, windows: 1100)\n"));
    assert!(report.contains("last hour: 1024\n"));
    assert!(report.contains("avg generation time: 2.00s\n"));
}

#[test]
fn a_success_is_counted_once_and_lands() {
    let mut stats = Stats::new(at(0));
    let flight = InFlight::new(&mut stats, at(5));
    assert!(stats.render(at(5)).ends_with("in flight: 1"));
    flight.success(&mut stats, Kind::Pane, Instant::new(8, 250_000_000));
    assert_eq!(
        stats.render(at(65)),
        "uptime: 1m5s\ntotal generations: 1 (panes: 1, windows: 0)\nlast hour: 1\navg interval: 1m5s\navg generation time: 3.25s\nin flight: 0"
    );
}

#[test]
fn an_abandoned_generation_leaves_no_trace() {
    let mut stats = Stats::new(at(0));
    let before = stats.render(at(9));
    let flight = InFlight::new(&mut stats, at(5));
    flight.abandon(&mut stats);
    assert_eq!(stats.render(at(9)), before);
}

#[test]
fn the_in_flight_count_stops_at_zero() {
    let mut stats = Stats::new(at(0));
    stats.in_flight_dec();
    assert!(stats.render(at(1)).ends_with("in flight: 0"));
}

#[test]
fn limits_can_be_asked_for() {
    let mut stats = Stats::new(at(0));
    assert!(stats.can_start() && stats.can_render());
    let longest = Duration::new(u64::MAX, 999_999_999);
    assert!(stats.can_record(Kind::Pane, longest));
    stats.record_success(Kind::Pane, at(1), longest);
    assert!(!stats.can_record(Kind::Window, millis(1)));
    assert!(stats.can_record(Kind::Window, Duration::from_secs(0)));
}

#[test]
fn durations_start_at_the_largest_unit() {
    assert_eq!(format_duration(millis(999)), "0s");
    assert_eq!(format_duration(Duration::from_secs(59)), "59s");
    assert_eq!(format_duration(Duration::from_secs(60)), "1m0s");
    assert_eq!(format_duration(Duration::from_secs(3599)), "59m59s");
    assert_eq!(format_duration(Duration::from_secs(3600)), "1h0m0s");
    assert_eq!(format_duration(Duration::from_secs(90061)), "25h1m1s");
}

#[test]
fn short_durations_show_milliseconds() {
    assert_eq!(format_duration_ms(millis(0)), "0ms");
    assert_eq!(format_duration_ms(Duration::new(0, 999_999_999)), "999ms");
    assert_eq!(format_duration_ms(millis(1000)), "1.00s");
    assert_eq!(format_duration_ms(millis(1234)), "1.23s");
    assert_eq!(format_duration_ms(millis(59_996)), "60.00s");
    assert_eq!(format_duration_ms_with(millis(7), "x"), "7ms");
    assert_eq!(format_duration_ms_with(millis(7000), "x"), "xs");
}

#[test]
fn long_durations_follow_the_standard_library() {
    for (secs, nanos) in [(1, 5_000_000), (2, 675_000_000), (12, 345_678_901), (1 << 60, 1)] {
        let std = std::time::Duration::new(secs, nanos);
        assert_eq!(
            format_duration_ms(Duration::new(secs, nanos)),
            format!("{:.2}s", std.as_secs_f64())
        );
    }
}

#[test]
fn interleaved_generations_are_all_counted() {
    let mut stats = Stats::new(at(0));
    let a = InFlight::new(&mut stats, at(0));
    let b = InFlight::new(&mut stats, at(10));
    let c = InFlight::new(&mut stats, at(20));
    b.success(&mut stats, Kind::Window, at(30));
    a.abandon(&mut stats);
    assert!(stats.render(at(40)).ends_with("in flight: 1"));
    c.success(&mut stats, Kind::Pane, at(3700));
    assert_eq!(
        stats.render(at(3720)),
        "uptime: 1h2m0s\ntotal generations: 2 (panes: 1, windows: 1)\nlast hour: 1\navg interval: 31m0s\navg generation time: 1850.00s\nin flight: 0"
    );
}
