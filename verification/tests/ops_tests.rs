use alibaba_graph::ops::{
    get_window_info, sort_by_window_index, window_info_is_defined, OpType, WindowInfo,
    WindowInfoError,
};

#[test]
fn op_types_by_name() {
    assert_eq!(OpType::from_str("average_degree"), Some(OpType::AverageDegree));
    assert_eq!(OpType::from_str("number_of_vertices"), Some(OpType::NumberOfVertices));
    assert_eq!(OpType::from_str("average"), None);
    assert_eq!(OpType::from_str(""), None);
}

#[test]
fn window_info_of_a_path() {
    assert_eq!(
        get_window_info("/d/window_3_180_240"),
        Ok(WindowInfo { stored_window_number: 3, start: 180, end: 240 })
    );
}

#[test]
fn window_info_errors() {
    assert_eq!(get_window_info("window_x_1_2"), Err(WindowInfoError::InvalidWindowNumber));
    assert_eq!(get_window_info("window_x"), Err(WindowInfoError::InvalidWindowNumber));
    assert_eq!(get_window_info("window_1_y_2"), Err(WindowInfoError::InvalidStart));
    assert_eq!(get_window_info("window_1_2_z"), Err(WindowInfoError::InvalidEnd));
    assert_eq!(get_window_info("window_1_2_3_4"), Ok(WindowInfo { stored_window_number: 1, start: 2, end: 3 }));
}

#[test]
fn window_info_definedness() {
    assert!(!window_info_is_defined("window"));
    assert!(window_info_is_defined("window_x"));
    assert!(!window_info_is_defined("window_1"));
    assert!(window_info_is_defined("window_1_y"));
    assert!(!window_info_is_defined("window_1_2"));
    assert!(window_info_is_defined("window_1_2_3"));
}

#[test]
fn results_are_ordered_by_window_position() {
    let info = |n: u32| WindowInfo { stored_window_number: n, start: n, end: n + 1 };
    let items = vec![(info(2), 2usize, 0.5f64), (info(0), 0, 1.5), (info(1), 1, 2.5)];
    let sorted = sort_by_window_index(items);
    assert_eq!(sorted, vec![(info(0), 0, 1.5), (info(1), 1, 2.5), (info(2), 2, 0.5)]);
}

#[test]
fn results_with_equal_positions_keep_their_order() {
    let info = WindowInfo { stored_window_number: 0, start: 0, end: 1 };
    let items = vec![(info, 1usize, "b"), (info, 0, "a"), (info, 1, "c")];
    assert_eq!(sort_by_window_index(items), vec![(info, 0, "a"), (info, 1, "b"), (info, 1, "c")]);
}
