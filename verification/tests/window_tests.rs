use alibaba_graph::windows::{plan_fits_exec, starting_window_idx_fits_exec, windows_fit_exec};
use alibaba_graph::request::WindowIndexingType;
use alibaba_graph::windows::{
    get_file_bounds, get_starting_window_idx, get_window_count, get_windows, plan_event_files,
    window_bounds_ms, window_index, FileWindowPlan,
};

#[test]
fn windows_of_a_span() {
    assert_eq!(
        get_windows(180, 540, 60),
        vec![(180, 240), (240, 300), (300, 360), (360, 420), (420, 480), (480, 540)]
    );
}

#[test]
fn windows_leave_a_short_rest() {
    assert_eq!(get_windows(0, 100, 30), vec![(0, 30), (30, 60), (60, 90)]);
}

#[test]
fn windows_of_an_empty_or_reversed_span() {
    assert_eq!(get_windows(10, 5, 3), vec![]);
    assert_eq!(get_windows(10, 10, 3), vec![]);
    assert_eq!(get_windows(10, 12, 3), vec![]);
}

#[test]
fn windows_up_to_the_largest_time() {
    let w = get_windows(u32::MAX - 10, u32::MAX - 1, 5);
    assert_eq!(w, vec![(u32::MAX - 10, u32::MAX - 5)]);
}

#[test]
fn windows_tile_the_span() {
    for (start, end, window) in [(0u32, 100u32, 30u32), (7, 1000, 13), (180, 540, 60)] {
        let ws = get_windows(start, end, window);
        assert_eq!(ws.len() as u32, get_window_count(start, end, window));
        assert_eq!(ws[0].0, start);
        for i in 0..ws.len() {
            assert_eq!(ws[i].1 - ws[i].0, window);
            if i + 1 < ws.len() {
                assert_eq!(ws[i].1, ws[i + 1].0);
            }
        }
        let last = ws[ws.len() - 1].1;
        assert!(last <= end && end - last < window);
    }
}

#[test]
fn window_count() {
    assert_eq!(get_window_count(180, 540, 60), 6);
    assert_eq!(get_window_count(0, 180, 60), 3);
    assert_eq!(get_window_count(200, 360, 60), 2);
}

#[test]
fn file_bounds_are_aligned() {
    assert_eq!(get_file_bounds(200, 700, 180), vec![(180, 360), (360, 540)]);
    assert_eq!(get_file_bounds(0, 540, 180), vec![(0, 180), (180, 360), (360, 540)]);
    for (s, e) in get_file_bounds(1000, 5000, 180) {
        assert_eq!(s % 180, 0);
        assert_eq!(e % 180, 0);
    }
    assert_eq!(get_file_bounds(1000, 5000, 180)[0], (900, 1080));
}

#[test]
fn starting_window_idx_from_zero() {
    assert_eq!(get_starting_window_idx(0, 2, 3, 3600, &WindowIndexingType::FromZero, 60), 0);
    assert_eq!(get_starting_window_idx(1, 2, 3, 3600, &WindowIndexingType::FromZero, 60), 2);
    assert_eq!(get_starting_window_idx(3, 2, 3, 3600, &WindowIndexingType::FromZero, 60), 8);
}

#[test]
fn starting_window_idx_from_start() {
    // importing from hour one with one-minute windows numbers the first window 60
    assert_eq!(get_starting_window_idx(0, 2, 3, 3600, &WindowIndexingType::SeqFromStart, 60), 60);
    assert_eq!(get_starting_window_idx(3, 2, 3, 3600, &WindowIndexingType::SeqFromStart, 60), 68);
}

#[test]
fn window_numbering_runs_on_between_files() {
    let ix = |i: usize| get_starting_window_idx(i, 5, 3, 600, &WindowIndexingType::SeqFromStart, 60);
    assert_eq!(ix(0), 10);
    assert_eq!(ix(1), ix(0) + 5);
    for i in 1..10 {
        assert_eq!(ix(i + 1), ix(i) + 3);
    }
}

#[test]
fn plan_of_two_files() {
    let plans = plan_event_files(2, 60, 200, 700, 180, &WindowIndexingType::FromZero);
    assert_eq!(
        plans,
        vec![
            FileWindowPlan { start: 200, end: 360, starting_idx: 0 },
            FileWindowPlan { start: 360, end: 540, starting_idx: 2 },
        ]
    );
}

#[test]
fn plan_numbered_from_start() {
    let plans = plan_event_files(3, 60, 3600, 4140, 180, &WindowIndexingType::SeqFromStart);
    assert_eq!(
        plans,
        vec![
            FileWindowPlan { start: 3600, end: 3780, starting_idx: 60 },
            FileWindowPlan { start: 3780, end: 3960, starting_idx: 63 },
            FileWindowPlan { start: 3960, end: 4140, starting_idx: 66 },
        ]
    );
}

#[test]
fn plan_of_no_files() {
    assert_eq!(plan_event_files(0, 60, 200, 700, 180, &WindowIndexingType::FromZero), vec![]);
}

#[test]
fn window_index_and_bounds() {
    assert_eq!(window_index(5, 3), 8);
    assert_eq!(window_bounds_ms(60, 120), (60000, 120000));
}

#[test]
fn windows_fit_checks() {
    assert!(windows_fit_exec(180, 540, 60));
    assert!(!windows_fit_exec(0, 10, 0));
    assert!(!windows_fit_exec(0, u32::MAX, u32::MAX));
    assert!(windows_fit_exec(u32::MAX - 10, u32::MAX - 1, 5));
    assert!(!windows_fit_exec(u32::MAX - 10, u32::MAX, 5));
}

#[test]
fn plan_fits_checks() {
    assert!(plan_fits_exec(2, 60, 200, 700, 180, &WindowIndexingType::FromZero));
    assert!(!plan_fits_exec(3, 60, 200, 700, 180, &WindowIndexingType::FromZero));
    assert!(!plan_fits_exec(1, 0, 200, 700, 180, &WindowIndexingType::FromZero));
    assert!(!plan_fits_exec(1, 60, 200, 700, 0, &WindowIndexingType::FromZero));
    assert!(!plan_fits_exec(0, 60, u32::MAX - 5, u32::MAX, 180, &WindowIndexingType::FromZero));
}

#[test]
fn starting_window_idx_fit_checks() {
    assert!(starting_window_idx_fits_exec(3, 2, 3, 3600, &WindowIndexingType::SeqFromStart, 60));
    assert!(!starting_window_idx_fits_exec(0, 2, 3, 3600, &WindowIndexingType::SeqFromStart, 0));
    assert!(starting_window_idx_fits_exec(0, 2, 3, 3600, &WindowIndexingType::FromZero, 0));
    assert!(!starting_window_idx_fits_exec(3, u32::MAX, 1, 0, &WindowIndexingType::FromZero, 1));
}

#[test]
fn reversed_span_with_empty_window() {
    assert_eq!(get_windows(10, 5, 0), vec![]);
    assert!(windows_fit_exec(10, 5, 0));
    assert!(!windows_fit_exec(5, 10, 0));
}

#[test]
fn downloads_match_file_bounds() {
    use_range(180, 540);
    use_range(0, 3600);
    use_range(1000, 5040);
}

fn use_range(start: u32, end: u32) {
    let (first, last) = alibaba_graph::time::callgraph_file_range(
        &alibaba_graph::time::get_time_breakdown(start),
        &alibaba_graph::time::get_time_breakdown(end),
    );
    let bounds = get_file_bounds(start, end, 180);
    assert_eq!(bounds.len() as u32, last - first + 1);
    for (k, (s, _)) in bounds.iter().enumerate() {
        assert_eq!(*s, 180 * (first + k as u32));
    }
}

#[test]
fn plan_windows_start_at_the_span_and_never_share_numbers() {
    let plans = plan_event_files(3, 60, 200, 740, 180, &WindowIndexingType::SeqFromStart);
    let mut numbers = Vec::new();
    for plan in &plans {
        let windows = get_windows(plan.start, plan.end, 60);
        for (k, (s, e)) in windows.iter().enumerate() {
            assert!(200 <= *s && *e <= 740);
            numbers.push(plan.starting_idx + k as u32);
        }
    }
    assert_eq!(numbers, vec![3, 4, 5, 6, 7, 8, 9, 10]);
}
