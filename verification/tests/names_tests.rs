use alibaba_graph::names::{
    callgraph_download_paths, callgraph_file_index, callgraph_file_name, callgraph_file_url, extracted_csv_path,
    extraction_dir, get_resolved_windows_dir, get_window_file_paths, raw_trace_dir,
    sort_downloaded_files, window_file_name,
};
use alibaba_graph::ops::{get_window_info, WindowInfo};

fn strings(v: &[&str]) -> Vec<String> {
    v.iter().map(|s| s.to_string()).collect()
}

#[test]
fn callgraph_names() {
    assert_eq!(callgraph_file_name(12), "CallGraph_12.tar.gz");
    assert_eq!(callgraph_file_name(0), "CallGraph_0.tar.gz");
    assert_eq!(
        callgraph_file_url(7),
        "https://aliopentrace.oss-cn-beijing.aliyuncs.com/v2022MicroservicesTraces/CallGraph/CallGraph_7.tar.gz"
    );
    assert_eq!(raw_trace_dir(None, "/p"), "/p/data/raw");
    assert_eq!(raw_trace_dir(Some("/r".to_string()), "/p"), "/r");
}

#[test]
fn callgraph_index_of_a_path() {
    assert_eq!(callgraph_file_index("/x/data/raw/CallGraph_12.tar.gz"), 12);
    assert_eq!(callgraph_file_index("a_b.c"), 0);
    assert_eq!(callgraph_file_index("a_"), 0);
    // the first underscore decides, wherever it is
    assert_eq!(callgraph_file_index("/my_dir/CallGraph_12.tar.gz"), 0);
}

#[test]
fn callgraph_name_round_trip() {
    for i in [0u32, 1, 9, 10, 479, 4_000_000_000, u32::MAX] {
        let path = format!("/srv/data/raw/{}", callgraph_file_name(i));
        assert_eq!(callgraph_file_index(&path), i);
    }
}

#[test]
fn downloaded_files_are_ordered_by_index() {
    let files = strings(&["d/CallGraph_10.tar.gz", "d/CallGraph_2.tar.gz", "d/CallGraph_x.tar.gz"]);
    assert_eq!(
        sort_downloaded_files(files),
        strings(&["d/CallGraph_x.tar.gz", "d/CallGraph_2.tar.gz", "d/CallGraph_10.tar.gz"])
    );
}

#[test]
fn downloaded_files_with_equal_index_keep_their_order() {
    let files = strings(&["b_3.x", "a_1.x", "c_3.y", "z_01.x"]);
    assert_eq!(sort_downloaded_files(files), strings(&["a_1.x", "z_01.x", "b_3.x", "c_3.y"]));
    assert_eq!(sort_downloaded_files(vec![]), Vec::<String>::new());
}

#[test]
fn window_names() {
    assert_eq!(window_file_name(3, 180, 240), "window_3_180_240");
    assert_eq!(window_file_name(0, 0, 4294967295), "window_0_0_4294967295");
}

#[test]
fn window_name_round_trip() {
    for (i, s, e) in [(0u32, 0u32, 0u32), (3, 180, 240), (u32::MAX, 12, 99)] {
        let path = format!("/data/windows/{}", window_file_name(i, s, e));
        assert_eq!(
            get_window_info(&path),
            Ok(WindowInfo { stored_window_number: i, start: s, end: e })
        );
    }
}

#[test]
fn window_file_paths_are_filtered_and_ordered() {
    let files = strings(&["window_10_1_2", "other", "window_2_3_4", "window_x", "window_2_0_0", "xwindow_1"]);
    assert_eq!(
        get_window_file_paths("/w", files),
        strings(&["/w/window_2_3_4", "/w/window_2_0_0", "/w/window_10_1_2", "/w/window_x"])
    );
    assert_eq!(get_window_file_paths("/w", vec![]), Vec::<String>::new());
}

#[test]
fn saved_windows_are_found_in_order() {
    let names = vec![window_file_name(12, 0, 1), window_file_name(3, 2, 3), window_file_name(7, 4, 5)];
    assert_eq!(
        get_window_file_paths("/d", names),
        strings(&["/d/window_3_2_3", "/d/window_7_4_5", "/d/window_12_0_1"])
    );
}

#[test]
fn extracted_csv_paths() {
    assert_eq!(extracted_csv_path("CallGraph_12.tar.gz"), "/tmp/CallGraph_12.csv");
    assert_eq!(extracted_csv_path("plain"), "/tmp/plain.csv");
    assert_eq!(extraction_dir(), "/tmp");
}

#[test]
fn resolved_windows_dir() {
    assert_eq!(get_resolved_windows_dir(Some("/a".to_string()), "/m"), "/a");
    assert_eq!(get_resolved_windows_dir(None, "/m"), "/m/data/windows");
}

#[test]
fn sorting_twice_changes_nothing() {
    let files = strings(&["q_5.a", "b_3.x", "a_1.x", "c_3.y", "z_01.x", "y_bad"]);
    let once = sort_downloaded_files(files);
    assert_eq!(sort_downloaded_files(once.clone()), once);
    let names = strings(&["window_5_0_0", "window_1_0_0", "window_1_9_9", "window_zz"]);
    let paths = get_window_file_paths("/d", names);
    assert_eq!(paths, strings(&["/d/window_1_0_0", "/d/window_1_9_9", "/d/window_5_0_0", "/d/window_zz"]));
}

#[test]
fn download_paths_arrive_in_archive_order() {
    let paths = callgraph_download_paths("/raw", 8, 11);
    assert_eq!(
        paths,
        strings(&["/raw/CallGraph_8.tar.gz", "/raw/CallGraph_9.tar.gz", "/raw/CallGraph_10.tar.gz", "/raw/CallGraph_11.tar.gz"])
    );
    assert_eq!(sort_downloaded_files(paths.clone()), paths);
    assert_eq!(callgraph_download_paths("/raw", 3, 2), Vec::<String>::new());
    assert_eq!(callgraph_download_paths("/raw", u32::MAX, u32::MAX), strings(&["/raw/CallGraph_4294967295.tar.gz"]));
}

#[test]
fn downloads_in_underscore_dir_keep_their_order() {
    let paths = callgraph_download_paths("/raw_traces", 8, 11);
    assert_eq!(sort_downloaded_files(paths.clone()), paths);
}
