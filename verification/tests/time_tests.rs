use alibaba_graph::time::callgraph_file_range_fits;
use alibaba_graph::time::{
    breakdown_seconds_checked, callgraph_file_range, get_callgraph_minute_value,
    get_start_end_time_given_breakdown, get_time_breakdown, TimeBreakdown,
};

fn bd(day: u32, hour: u32, minute: u32, second: u32) -> TimeBreakdown {
    TimeBreakdown { day, hour, minute, second }
}

#[test]
fn time_breakdown_of_one_of_each() {
    assert_eq!(get_time_breakdown(90061), bd(1, 1, 1, 1));
}

#[test]
fn time_breakdown_of_zero() {
    assert_eq!(get_time_breakdown(0), bd(0, 0, 0, 0));
}

#[test]
fn time_breakdown_of_largest_time() {
    assert_eq!(get_time_breakdown(u32::MAX), bd(49710, 6, 28, 15));
}

#[test]
fn breakdown_round_trip() {
    for t in [0u32, 1, 59, 60, 3599, 3600, 86399, 86400, 123456, 4_000_000_000, u32::MAX] {
        let b = get_time_breakdown(t);
        assert_eq!(get_start_end_time_given_breakdown(&b, &b), (t, t));
        assert!(b.hour < 24 && b.minute < 60 && b.second < 60);
    }
}

#[test]
fn start_end_time_from_breakdowns() {
    assert_eq!(
        get_start_end_time_given_breakdown(&bd(1, 9, 0, 0), &bd(2, 0, 9, 0)),
        (118800, 173340)
    );
}

#[test]
fn breakdown_seconds_checked_reports_overflow() {
    assert_eq!(breakdown_seconds_checked(&bd(1, 2, 3, 4)), Some(93784));
    assert_eq!(breakdown_seconds_checked(&bd(49710, 6, 28, 15)), Some(u32::MAX));
    assert_eq!(breakdown_seconds_checked(&bd(49710, 6, 28, 16)), None);
    assert_eq!(breakdown_seconds_checked(&bd(u32::MAX, 0, 0, 0)), None);
}

#[test]
fn callgraph_minute_value() {
    assert_eq!(get_callgraph_minute_value(&bd(1, 2, 3, 4)), 1563);
}

#[test]
fn callgraph_range_of_whole_minutes() {
    assert_eq!(callgraph_file_range(&bd(0, 0, 3, 0), &bd(0, 0, 9, 0)), (1, 2));
    assert_eq!(callgraph_file_range(&bd(0, 0, 0, 0), &bd(0, 0, 1, 0)), (0, 0));
}

#[test]
fn callgraph_range_rounds_up_leftover_seconds() {
    assert_eq!(callgraph_file_range(&bd(0, 0, 0, 0), &bd(0, 0, 9, 1)), (0, 3));
    assert_eq!(callgraph_file_range(&bd(1, 0, 0, 0), &bd(2, 0, 0, 0)), (480, 959));
}

#[test]
fn callgraph_range_fit_checks() {
    assert!(callgraph_file_range_fits(&bd(0, 0, 0, 0), &bd(0, 0, 1, 0)));
    assert!(callgraph_file_range_fits(&bd(0, 0, 0, 0), &bd(0, 0, 0, 1)));
    assert!(!callgraph_file_range_fits(&bd(0, 0, 0, 0), &bd(0, 0, 0, 0)));
    assert!(!callgraph_file_range_fits(&bd(u32::MAX, 0, 0, 0), &bd(0, 0, 1, 0)));
}
