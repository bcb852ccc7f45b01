use alibaba_graph::ops::OpType;
use alibaba_graph::options::{
    get_int_option_value, options_from_args, parse_command, parse_option_arg, resolve_process_op,
    run_get_data, Command, CommandError, GetDataError, Options, ProcessError,
};
use alibaba_graph::request::{ConnectionProp, LoadRequest, WindowIndexingType};

fn opts(args: &[&str]) -> Options {
    let args: Vec<String> = args.iter().map(|s| s.to_string()).collect();
    options_from_args(&args)
}

#[test]
fn load_with_start_and_end_time() {
    let o = opts(&["start_time=180", "end_time=540", "window_size=60", "connection_prop=instance_id", "window_indexing_type=seq_from_start"]);
    assert_eq!(
        run_get_data(&o),
        Ok(LoadRequest {
            start_time: 180,
            end_time: 540,
            window_size: 60,
            connection_prop: ConnectionProp::InstanceId,
            indexing_type: WindowIndexingType::SeqFromStart,
        })
    );
}

#[test]
fn load_with_days() {
    let o = opts(&["start_day=1", "end_day=2", "window_size=30", "window_indexing_type=from_zero"]);
    assert_eq!(
        run_get_data(&o),
        Ok(LoadRequest {
            start_time: 86400,
            end_time: 172800,
            window_size: 30,
            connection_prop: ConnectionProp::MicroserviceId,
            indexing_type: WindowIndexingType::FromZero,
        })
    );
}

#[test]
fn load_with_mixed_breakdown() {
    let o = opts(&["start_day=1", "start_hour=9", "end_day=2", "end_minute=9", "window_size=60"]);
    assert_eq!(
        run_get_data(&o),
        Ok(LoadRequest {
            start_time: 118800,
            end_time: 173340,
            window_size: 60,
            connection_prop: ConnectionProp::MicroserviceId,
            indexing_type: WindowIndexingType::SeqFromStart,
        })
    );
}

#[test]
fn explicit_span_ignores_breakdown() {
    let a = opts(&["start_time=180", "end_time=540", "window_size=60"]);
    let b = opts(&["start_time=180", "end_time=540", "window_size=60", "start_day=3", "end_hour=7"]);
    assert_eq!(run_get_data(&a), run_get_data(&b));
}

#[test]
fn start_time_alone_with_end_breakdown() {
    let o = opts(&["start_time=100", "end_minute=3", "window_size=10"]);
    assert_eq!(run_get_data(&o).map(|r| (r.start_time, r.end_time)), Ok((100, 180)));
}

#[test]
fn load_refused_when_end_not_after_start() {
    assert_eq!(run_get_data(&opts(&["window_size=60"])), Err(GetDataError::InvalidStartOrEnd));
    assert_eq!(
        run_get_data(&opts(&["start_time=540", "end_time=180", "window_size=60"])),
        Err(GetDataError::InvalidStartOrEnd)
    );
    assert_eq!(
        run_get_data(&opts(&["start_time=180", "end_time=180", "window_size=60"])),
        Err(GetDataError::InvalidStartOrEnd)
    );
}

#[test]
fn load_refused_without_window_size() {
    assert_eq!(
        run_get_data(&opts(&["start_time=180", "end_time=540"])),
        Err(GetDataError::MissingWindowSize)
    );
    assert_eq!(
        run_get_data(&opts(&["start_time=180", "end_time=540", "window_size=abc"])),
        Err(GetDataError::MissingWindowSize)
    );
}

#[test]
fn error_messages() {
    assert_eq!(GetDataError::InvalidStartOrEnd.message(), "Invalid start or end parameter passed");
    assert_eq!(GetDataError::MissingWindowSize.message(), "Window size is a required parameter");
    assert_eq!(CommandError::InvalidCommand.message(), "Invalid command");
    assert_eq!(CommandError::NoCommand.message(), "No command");
    assert_eq!(ProcessError::UnknownOp.message(), "Error parsing the op type.");
}

#[test]
fn option_arguments() {
    assert_eq!(parse_option_arg("a=b"), Some(("a".to_string(), "b".to_string())));
    assert_eq!(parse_option_arg("a="), Some(("a".to_string(), "".to_string())));
    assert_eq!(parse_option_arg("a=b=c"), None);
    assert_eq!(parse_option_arg("ab"), None);
}

#[test]
fn later_option_wins() {
    let o = opts(&["window_size=10", "bad", "window_size=20", "x=1=2"]);
    assert_eq!(get_int_option_value(&o, "window_size"), Some(20));
    assert_eq!(o.get("bad"), None);
    assert_eq!(o.get("x"), None);
}

#[test]
fn options_insert_and_get() {
    let mut o = Options::new();
    assert_eq!(o.get("k"), None);
    o.insert("k", "v");
    o.insert("j", "w");
    assert_eq!(o.get("k"), Some("v".to_string()));
    o.insert("k", "u");
    assert_eq!(o.get("k"), Some("u".to_string()));
    assert_eq!(o.get("j"), Some("w".to_string()));
}

#[test]
fn integer_options() {
    let o = opts(&["a=+5", "b=-5", "c=4294967296", "d=007", "e="]);
    assert_eq!(get_int_option_value(&o, "a"), Some(5));
    assert_eq!(get_int_option_value(&o, "b"), None);
    assert_eq!(get_int_option_value(&o, "c"), None);
    assert_eq!(get_int_option_value(&o, "d"), Some(7));
    assert_eq!(get_int_option_value(&o, "e"), None);
    assert_eq!(get_int_option_value(&o, "f"), None);
}

#[test]
fn commands() {
    assert_eq!(parse_command(Some("load")), Ok(Command::Load));
    assert_eq!(parse_command(Some("process")), Ok(Command::Process));
    assert_eq!(parse_command(Some("run")), Err(CommandError::InvalidCommand));
    assert_eq!(parse_command(None), Err(CommandError::NoCommand));
}

#[test]
fn process_op() {
    assert_eq!(resolve_process_op(&opts(&["op=average_degree"])), Ok(OpType::AverageDegree));
    assert_eq!(resolve_process_op(&opts(&["op=number_of_vertices"])), Ok(OpType::NumberOfVertices));
    assert_eq!(resolve_process_op(&opts(&["op=median"])), Err(ProcessError::UnknownOp));
    assert_eq!(resolve_process_op(&opts(&[])), Err(ProcessError::UnknownOp));
}

#[test]
fn zero_start_time_is_given() {
    let o = opts(&["start_time=0", "end_time=540", "start_day=1", "window_size=60"]);
    assert_eq!(
        run_get_data(&o),
        Ok(LoadRequest {
            start_time: 0,
            end_time: 540,
            window_size: 60,
            connection_prop: ConnectionProp::MicroserviceId,
            indexing_type: WindowIndexingType::SeqFromStart,
        })
    );
}

#[test]
fn breakdowns_only_checked_where_used() {
    use_fit(&["start_time=0", "end_time=1", "start_day=4294967295"], true);
    use_fit(&["end_time=1", "start_day=4294967295"], false);
    use_fit(&["start_time=0", "end_day=4294967295"], false);
}

fn use_fit(args: &[&str], expected: bool) {
    assert_eq!(alibaba_graph::options::breakdowns_fit_exec(&opts(args)), expected);
}
