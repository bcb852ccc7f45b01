//! Command-line options (`key=value` arguments), the command, and what a load
//! or a processing run asks for.
use vstd::prelude::*;
use crate::ops::{op_type_spec, OpType};
use crate::request::{ConnectionProp, LoadRequest, WindowIndexingType};
use crate::text::{parse_u32, parse_u32_spec, split_char, split_on, str_eq, views};
use crate::time::{breakdown_seconds, breakdown_seconds_checked, TimeBreakdown};

verus! {

/// Option names and values; a later value for a name replaces an earlier one.
pub struct Options {
    entries: Vec<(String, String)>,
}

/// The map that setting `entries` one after the other gives.
pub open spec fn entries_map(entries: Seq<(Seq<char>, Seq<char>)>) -> Map<Seq<char>, Seq<char>>
    decreases entries.len(),
{
    if entries.len() == 0 {
        Map::empty()
    } else {
        entries_map(entries.drop_last()).insert(entries.last().0, entries.last().1)
    }
}

/// The views of option entries.
pub open spec fn entry_views(entries: Seq<(String, String)>) -> Seq<(Seq<char>, Seq<char>)> {
    entries.map_values(|e: (String, String)| (e.0@, e.1@))
}

impl View for Options {
    type V = Map<Seq<char>, Seq<char>>;

    closed spec fn view(&self) -> Map<Seq<char>, Seq<char>> {
        entries_map(entry_views(self.entries@))
    }
}

/// Entries after position `j` that set other names leave the value of `key`
/// as the first `j` entries set it.
proof fn lemma_entries_suffix(ents: Seq<(Seq<char>, Seq<char>)>, j: int, key: Seq<char>)
    requires
        0 <= j <= ents.len(),
        forall|k: int| j <= k < ents.len() ==> (#[trigger] ents[k]).0 != key,
    ensures
        entries_map(ents).dom().contains(key) == entries_map(ents.take(j)).dom().contains(key),
        entries_map(ents).dom().contains(key) ==> entries_map(ents)[key] == entries_map(
            ents.take(j),
        )[key],
    decreases ents.len() - j,
{
    if j == ents.len() {
        assert(ents.take(j) =~= ents);
    } else {
        let init = ents.drop_last();
        assert(ents[ents.len() - 1] == ents.last());
        assert forall|k: int| j <= k < init.len() implies (#[trigger] init[k]).0 != key by {
            assert(init[k] == ents[k]);
        }
        lemma_entries_suffix(init, j, key);
        assert(init.take(j) =~= ents.take(j));
    }
}

impl Options {
    /// No options.
    pub fn new() -> (r: Options)
        ensures
            r@ == Map::<Seq<char>, Seq<char>>::empty(),
    {
        let r = Options { entries: Vec::new() };
        assert(entry_views(r.entries@) =~= Seq::<(Seq<char>, Seq<char>)>::empty());
        r
    }

    /// Sets option `key` to `value`.
    pub fn insert(&mut self, key: &str, value: &str)
        ensures
            final(self)@ == old(self)@.insert(key@, value@),
    {
        let ghost before = entry_views(self.entries@);
        self.entries.push((String::from_str(key), String::from_str(value)));
        proof {
            let after = entry_views(self.entries@);
            assert(after.drop_last() =~= before);
            assert(after.last() == (key@, value@));
        }
    }

    /// The value of option `key`, where it is set.
    pub fn get(&self, key: &str) -> (r: Option<String>)
        ensures
            r is Some <==> self@.dom().contains(key@),
            r matches Some(v) ==> v@ == self@[key@],
    {
        let ghost ents = entry_views(self.entries@);
        let mut j: usize = self.entries.len();
        while j > 0
            invariant
                ents == entry_views(self.entries@),
                j <= ents.len(),
                forall|k: int| j <= k < ents.len() ==> (#[trigger] ents[k]).0 != key@,
            decreases j,
        {
            let ghost pos = j - 1;
            assert(ents[pos] == (self.entries@[pos].0@, self.entries@[pos].1@));
            if str_eq(self.entries[j - 1].0.as_str(), key) {
                proof {
                    lemma_entries_suffix(ents, j as int, key@);
                    assert(ents.take(j as int).drop_last() =~= ents.take(pos));
                    assert(ents.take(j as int).last() == ents[pos]);
                }
                return Some(self.entries[j - 1].1.clone());
            }
            j = j - 1;
        }
        proof {
            lemma_entries_suffix(ents, 0, key@);
            assert(ents.take(0) =~= Seq::<(Seq<char>, Seq<char>)>::empty());
        }
        None
    }
}

/// The value of `key` in `m`, where it is set.
pub open spec fn lookup(m: Map<Seq<char>, Seq<char>>, key: Seq<char>) -> Option<Seq<char>> {
    if m.dom().contains(key) {
        Some(m[key])
    } else {
        None
    }
}

/// The name and value of a `name=value` argument: the argument must split at
/// `=` into exactly two parts.
pub open spec fn option_arg_spec(arg: Seq<char>) -> Option<(Seq<char>, Seq<char>)> {
    let parts = split_on(arg, '=');
    if parts.len() == 2 {
        Some((parts[0], parts[1]))
    } else {
        None
    }
}

/// Reads a `name=value` argument.
pub fn parse_option_arg(arg: &str) -> (r: Option<(String, String)>)
    ensures
        r is Some <==> option_arg_spec(arg@) is Some,
        r matches Some((k, v)) ==> option_arg_spec(arg@) == Some((k@, v@)),
{
    let parts = split_char(arg, '=');
    if parts.len() != 2 {
        return None;
    }
    proof {
        assert(views(parts@)[0] == parts@[0]@);
        assert(views(parts@)[1] == parts@[1]@);
    }
    Some((parts[0].clone(), parts[1].clone()))
}

/// The options that the arguments `args` set, one after the other; arguments
/// that are not `name=value` are passed over.
pub open spec fn args_map(args: Seq<Seq<char>>) -> Map<Seq<char>, Seq<char>>
    decreases args.len(),
{
    if args.len() == 0 {
        Map::empty()
    } else {
        let m = args_map(args.drop_last());
        match option_arg_spec(args.last()) {
            Some((k, v)) => m.insert(k, v),
            None => m,
        }
    }
}

/// The options that the arguments `args` set: the command-line arguments
/// that follow the command.
pub fn options_from_args(args: &Vec<String>) -> (r: Options)
    ensures
        r@ == args_map(views(args@)),
{
    let mut options = Options::new();
    let mut i: usize = 0;
    let ghost all = views(args@);
    assert(all.take(0) =~= Seq::<Seq<char>>::empty());
    while i < args.len()
        invariant
            all == views(args@),
            i <= args@.len(),
            options@ == args_map(all.take(i as int)),
        decreases args@.len() - i,
    {
        assert(all.take(i + 1).drop_last() =~= all.take(i as int));
        assert(all.take(i + 1).last() == args@[i as int]@);
        match parse_option_arg(args[i].as_str()) {
            Some((k, v)) => {
                options.insert(k.as_str(), v.as_str());
            },
            None => {},
        }
        i = i + 1;
    }
    assert(all.take(args@.len() as int) =~= all);
    options
}

/// The number that option `key` holds: none where it is not set or its value
/// is no number.
pub open spec fn int_option_spec(m: Map<Seq<char>, Seq<char>>, key: Seq<char>) -> Option<u32> {
    match lookup(m, key) {
        Some(v) => parse_u32_spec(v),
        None => None,
    }
}

/// The number that option `k` holds.
pub fn get_int_option_value(options: &Options, k: &str) -> (r: Option<u32>)
    ensures
        r == int_option_spec(options@, k@),
{
    match options.get(k) {
        Some(str_value) => parse_u32(str_value.as_str()),
        None => None,
    }
}

/// The number that option `key` holds, or zero.
pub open spec fn int_option_or_zero(m: Map<Seq<char>, Seq<char>>, key: Seq<char>) -> u32 {
    match int_option_spec(m, key) {
        Some(v) => v,
        None => 0,
    }
}

fn int_option_or_zero_exec(options: &Options, k: &str) -> (r: u32)
    ensures
        r == int_option_or_zero(options@, k@),
{
    match get_int_option_value(options, k) {
        Some(v) => v,
        None => 0,
    }
}

/// Whether `value` is what option `key` gives a part of a time breakdown: the
/// number it holds, or zero where it holds none.
pub open spec fn part_given(m: Map<Seq<char>, Seq<char>>, key: Seq<char>, value: u32) -> bool {
    match int_option_spec(m, key) {
        Some(v) => value == v,
        None => value == 0,
    }
}

/// The start that the options `start_day`, `start_hour`, `start_minute` and
/// `start_second` give, zero for each one that is not set.
pub open spec fn start_breakdown_spec(m: Map<Seq<char>, Seq<char>>) -> TimeBreakdown {
    TimeBreakdown {
        day: int_option_or_zero(m, "start_day"@),
        hour: int_option_or_zero(m, "start_hour"@),
        minute: int_option_or_zero(m, "start_minute"@),
        second: int_option_or_zero(m, "start_second"@),
    }
}

/// The end that the options `end_day`, `end_hour`, `end_minute` and
/// `end_second` give, zero for each one that is not set.
pub open spec fn end_breakdown_spec(m: Map<Seq<char>, Seq<char>>) -> TimeBreakdown {
    TimeBreakdown {
        day: int_option_or_zero(m, "end_day"@),
        hour: int_option_or_zero(m, "end_hour"@),
        minute: int_option_or_zero(m, "end_minute"@),
        second: int_option_or_zero(m, "end_second"@),
    }
}

/// The start breakdown that the options give.
pub fn start_breakdown(options: &Options) -> (r: TimeBreakdown)
    ensures
        r == start_breakdown_spec(options@),
        part_given(options@, "start_day"@, r.day),
        part_given(options@, "start_hour"@, r.hour),
        part_given(options@, "start_minute"@, r.minute),
        part_given(options@, "start_second"@, r.second),
{
    TimeBreakdown {
        day: int_option_or_zero_exec(options, "start_day"),
        hour: int_option_or_zero_exec(options, "start_hour"),
        minute: int_option_or_zero_exec(options, "start_minute"),
        second: int_option_or_zero_exec(options, "start_second"),
    }
}

/// The end breakdown that the options give.
pub fn end_breakdown(options: &Options) -> (r: TimeBreakdown)
    ensures
        r == end_breakdown_spec(options@),
        part_given(options@, "end_day"@, r.day),
        part_given(options@, "end_hour"@, r.hour),
        part_given(options@, "end_minute"@, r.minute),
        part_given(options@, "end_second"@, r.second),
{
    TimeBreakdown {
        day: int_option_or_zero_exec(options, "end_day"),
        hour: int_option_or_zero_exec(options, "end_hour"),
        minute: int_option_or_zero_exec(options, "end_minute"),
        second: int_option_or_zero_exec(options, "end_second"),
    }
}

/// How edges connect: by instance where `connection_prop` is `instance_id`,
/// else by microservice.
pub open spec fn connection_prop_spec(m: Map<Seq<char>, Seq<char>>) -> ConnectionProp {
    if lookup(m, "connection_prop"@) == Some("instance_id"@) {
        ConnectionProp::InstanceId
    } else {
        ConnectionProp::MicroserviceId
    }
}

/// How windows are numbered: from zero where `window_indexing_type` is
/// `from_zero`, else from the start.
pub open spec fn indexing_type_spec(m: Map<Seq<char>, Seq<char>>) -> WindowIndexingType {
    if lookup(m, "window_indexing_type"@) == Some("from_zero"@) {
        WindowIndexingType::FromZero
    } else {
        WindowIndexingType::SeqFromStart
    }
}

/// Whether option `key` is set to `value`.
fn option_is(options: &Options, key: &str, value: &str) -> (r: bool)
    ensures
        r == (lookup(options@, key@) == Some(value@)),
{
    match options.get(key) {
        Some(v) => str_eq(v.as_str(), value),
        None => false,
    }
}

/// How the options say edges connect.
pub fn connection_prop_from_options(options: &Options) -> (r: ConnectionProp)
    ensures
        r == connection_prop_spec(options@),
        r == ConnectionProp::InstanceId <==> lookup(options@, "connection_prop"@) == Some(
            "instance_id"@,
        ),
{
    if option_is(options, "connection_prop", "instance_id") {
        ConnectionProp::InstanceId
    } else {
        ConnectionProp::MicroserviceId
    }
}

/// How the options say windows are numbered.
pub fn indexing_type_from_options(options: &Options) -> (r: WindowIndexingType)
    ensures
        r == indexing_type_spec(options@),
        r == WindowIndexingType::FromZero <==> lookup(options@, "window_indexing_type"@) == Some(
            "from_zero"@,
        ),
{
    if option_is(options, "window_indexing_type", "from_zero") {
        WindowIndexingType::FromZero
    } else {
        WindowIndexingType::SeqFromStart
    }
}

/// Why a load was refused.
#[derive(Clone, Copy, Debug, PartialEq, Eq, Structural)]
pub enum GetDataError {
    InvalidStartOrEnd,
    MissingWindowSize,
}

impl GetDataError {
    /// The message that reports the error.
    pub fn message(&self) -> (r: &'static str)
        ensures
            r@ == match self {
                GetDataError::InvalidStartOrEnd => "Invalid start or end parameter passed"@,
                GetDataError::MissingWindowSize => "Window size is a required parameter"@,
            },
    {
        match self {
            GetDataError::InvalidStartOrEnd => "Invalid start or end parameter passed",
            GetDataError::MissingWindowSize => "Window size is a required parameter",
        }
    }
}

/// The span start, in seconds: `start_time` where it is given as a number,
/// else the start breakdown.
pub open spec fn load_start_spec(m: Map<Seq<char>, Seq<char>>) -> int {
    match int_option_spec(m, "start_time"@) {
        Some(v) => v as int,
        None => breakdown_seconds(start_breakdown_spec(m)),
    }
}

/// The span end, in seconds: `end_time` where it is given as a number, else
/// the end breakdown.
pub open spec fn load_end_spec(m: Map<Seq<char>, Seq<char>>) -> int {
    match int_option_spec(m, "end_time"@) {
        Some(v) => v as int,
        None => breakdown_seconds(end_breakdown_spec(m)),
    }
}

/// What the options ask a load for: refused where the end is not after the
/// start, or where no window size is given.
pub open spec fn load_request_spec(m: Map<Seq<char>, Seq<char>>) -> Result<
    LoadRequest,
    GetDataError,
> {
    let start = load_start_spec(m);
    let end = load_end_spec(m);
    if end <= start {
        Err(GetDataError::InvalidStartOrEnd)
    } else {
        match int_option_spec(m, "window_size"@) {
            Some(window_size) => Ok(
                LoadRequest {
                    start_time: start as u32,
                    end_time: end as u32,
                    window_size,
                    connection_prop: connection_prop_spec(m),
                    indexing_type: indexing_type_spec(m),
                },
            ),
            None => Err(GetDataError::MissingWindowSize),
        }
    }
}

/// Whether the breakdowns that a load's span is worked out from fit in 32
/// bits: the start breakdown where `start_time` is not given, the end
/// breakdown where `end_time` is not.
pub open spec fn breakdowns_fit(m: Map<Seq<char>, Seq<char>>) -> bool {
    &&& int_option_spec(m, "start_time"@) is None ==> breakdown_seconds(start_breakdown_spec(m))
        <= u32::MAX
    &&& int_option_spec(m, "end_time"@) is None ==> breakdown_seconds(end_breakdown_spec(m))
        <= u32::MAX
}

/// Whether the breakdowns that a load's span is worked out from fit in 32
/// bits (see `breakdowns_fit`).
pub fn breakdowns_fit_exec(options: &Options) -> (r: bool)
    ensures
        r == breakdowns_fit(options@),
{
    let start_ok = match get_int_option_value(options, "start_time") {
        Some(_) => true,
        None => breakdown_seconds_checked(&start_breakdown(options)).is_some(),
    };
    let end_ok = match get_int_option_value(options, "end_time") {
        Some(_) => true,
        None => breakdown_seconds_checked(&end_breakdown(options)).is_some(),
    };
    start_ok && end_ok
}

/// Works out the load that the options ask for.
pub fn run_get_data(options: &Options) -> (r: Result<LoadRequest, GetDataError>)
    requires
        breakdowns_fit(options@),
    ensures
        r == load_request_spec(options@),
{
    let connection_prop = connection_prop_from_options(options);
    let indexing_type = indexing_type_from_options(options);
    let start_time = match get_int_option_value(options, "start_time") {
        Some(v) => v,
        None => match breakdown_seconds_checked(&start_breakdown(options)) {
            Some(v) => v,
            None => 0,
        },
    };
    let end_time = match get_int_option_value(options, "end_time") {
        Some(v) => v,
        None => match breakdown_seconds_checked(&end_breakdown(options)) {
            Some(v) => v,
            None => 0,
        },
    };
    if end_time <= start_time {
        return Err(GetDataError::InvalidStartOrEnd);
    }
    match get_int_option_value(options, "window_size") {
        Some(window_size) => Ok(
            LoadRequest { start_time, end_time, window_size, connection_prop, indexing_type },
        ),
        None => Err(GetDataError::MissingWindowSize),
    }
}

/// The two commands.
#[derive(Clone, Copy, Debug, PartialEq, Eq, Structural)]
pub enum Command {
    Load,
    Process,
}

/// Why no command could be run.
#[derive(Clone, Copy, Debug, PartialEq, Eq, Structural)]
pub enum CommandError {
    InvalidCommand,
    NoCommand,
}

impl CommandError {
    /// The message that reports the error.
    pub fn message(&self) -> (r: &'static str)
        ensures
            r@ == match self {
                CommandError::InvalidCommand => "Invalid command"@,
                CommandError::NoCommand => "No command"@,
            },
    {
        match self {
            CommandError::InvalidCommand => "Invalid command",
            CommandError::NoCommand => "No command",
        }
    }
}

/// The command that the first argument names: `load` or `process`.
pub fn parse_command(command: Option<&str>) -> (r: Result<Command, CommandError>)
    ensures
        r == match command {
            None => Err(CommandError::NoCommand),
            Some(c) => if c@ == "load"@ {
                Ok(Command::Load)
            } else if c@ == "process"@ {
                Ok(Command::Process)
            } else {
                Err(CommandError::InvalidCommand)
            },
        },
{
    match command {
        None => Err(CommandError::NoCommand),
        Some(c) => {
            if str_eq(c, "load") {
                Ok(Command::Load)
            } else if str_eq(c, "process") {
                Ok(Command::Process)
            } else {
                Err(CommandError::InvalidCommand)
            }
        },
    }
}

/// Why a processing run was refused.
#[derive(Clone, Copy, Debug, PartialEq, Eq, Structural)]
pub enum ProcessError {
    UnknownOp,
}

impl ProcessError {
    /// The message that reports the error.
    pub fn message(&self) -> (r: &'static str)
        ensures
            r@ == "Error parsing the op type."@,
    {
        "Error parsing the op type."
    }
}

/// The operation that option `op` asks a processing run for: any operation
/// name that `OpType::from_str` accepts.
pub fn resolve_process_op(options: &Options) -> (r: Result<OpType, ProcessError>)
    ensures
        r == match lookup(options@, "op"@) {
            Some(name) => match op_type_spec(name) {
                Some(op) => Ok::<OpType, ProcessError>(op),
                None => Err(ProcessError::UnknownOp),
            },
            None => Err(ProcessError::UnknownOp),
        },
{
    match options.get("op") {
        Some(name) => match OpType::from_str(name.as_str()) {
            Some(op) => Ok(op),
            None => Err(ProcessError::UnknownOp),
        },
        None => Err(ProcessError::UnknownOp),
    }
}

/// Where `start_time` and `end_time` are given (as numbers, zero included),
/// the day, hour, minute and second options do not matter: two option sets
/// that agree on the span, the window size, the connection and the indexing
/// ask for the same load.
pub proof fn law_explicit_span_ignores_breakdown(
    m1: Map<Seq<char>, Seq<char>>,
    m2: Map<Seq<char>, Seq<char>>,
)
    requires
        lookup(m1, "start_time"@) == lookup(m2, "start_time"@),
        lookup(m1, "end_time"@) == lookup(m2, "end_time"@),
        lookup(m1, "window_size"@) == lookup(m2, "window_size"@),
        lookup(m1, "connection_prop"@) == lookup(m2, "connection_prop"@),
        lookup(m1, "window_indexing_type"@) == lookup(m2, "window_indexing_type"@),
        int_option_spec(m1, "start_time"@) is Some,
        int_option_spec(m1, "end_time"@) is Some,
    ensures
        load_request_spec(m1) == load_request_spec(m2),
{
}

/// An option given again later replaces the earlier value.
pub proof fn law_later_option_wins(args: Seq<Seq<char>>, arg: Seq<char>)
    requires
        option_arg_spec(arg) is Some,
    ensures
        match option_arg_spec(arg) {
            Some((k, v)) => args_map(args.push(arg)).dom().contains(k) && args_map(args.push(arg))[k]
                == v,
            None => false,
        },
{
    assert(args.push(arg).drop_last() =~= args);
}

/// Edges connect by instance exactly where `connection_prop` is
/// `instance_id`; `microservice_id`, any other value, or no value at all
/// connects them by microservice. A load that the options ask for carries
/// that choice.
pub proof fn law_connection_choice(m: Map<Seq<char>, Seq<char>>)
    ensures
        connection_prop_spec(m) == ConnectionProp::InstanceId <==> lookup(m, "connection_prop"@)
            == Some("instance_id"@),
        lookup(m, "connection_prop"@) == Some("microservice_id"@) ==> connection_prop_spec(m)
            == ConnectionProp::MicroserviceId,
        lookup(m, "connection_prop"@) is None ==> connection_prop_spec(m)
            == ConnectionProp::MicroserviceId,
        load_request_spec(m) matches Ok(req) ==> req.connection_prop == connection_prop_spec(m),
{
    assert("microservice_id"@ != "instance_id"@) by {
        reveal_strlit("microservice_id");
        reveal_strlit("instance_id");
        assert("microservice_id"@.len() != "instance_id"@.len());
    }
}

/// Windows are numbered from zero exactly where `window_indexing_type` is
/// `from_zero`; `seq_from_start`, any other value, or no value at all numbers
/// them from the start. A load that the options ask for carries that choice.
pub proof fn law_indexing_choice(m: Map<Seq<char>, Seq<char>>)
    ensures
        indexing_type_spec(m) == WindowIndexingType::FromZero <==> lookup(
            m,
            "window_indexing_type"@,
        ) == Some("from_zero"@),
        lookup(m, "window_indexing_type"@) == Some("seq_from_start"@) ==> indexing_type_spec(m)
            == WindowIndexingType::SeqFromStart,
        lookup(m, "window_indexing_type"@) is None ==> indexing_type_spec(m)
            == WindowIndexingType::SeqFromStart,
        load_request_spec(m) matches Ok(req) ==> req.indexing_type == indexing_type_spec(m),
{
    assert("seq_from_start"@ != "from_zero"@) by {
        reveal_strlit("seq_from_start");
        reveal_strlit("from_zero");
        assert("seq_from_start"@.len() != "from_zero"@.len());
    }
}

/// Where `start_time` is not given as a number, the span starts at the time
/// that `start_day`, `start_hour`, `start_minute` and `start_second` add up
/// to, each one that is not given counting as zero.
pub proof fn law_start_from_parts(
    m: Map<Seq<char>, Seq<char>>,
    day: u32,
    hour: u32,
    minute: u32,
    second: u32,
)
    requires
        int_option_spec(m, "start_time"@) is None,
        part_given(m, "start_day"@, day),
        part_given(m, "start_hour"@, hour),
        part_given(m, "start_minute"@, minute),
        part_given(m, "start_second"@, second),
    ensures
        load_start_spec(m) == day * 86400 + hour * 3600 + minute * 60 + second,
{
}

/// Where `end_time` is not given as a number, the span ends at the time that
/// `end_day`, `end_hour`, `end_minute` and `end_second` add up to, each one
/// that is not given counting as zero.
pub proof fn law_end_from_parts(
    m: Map<Seq<char>, Seq<char>>,
    day: u32,
    hour: u32,
    minute: u32,
    second: u32,
)
    requires
        int_option_spec(m, "end_time"@) is None,
        part_given(m, "end_day"@, day),
        part_given(m, "end_hour"@, hour),
        part_given(m, "end_minute"@, minute),
        part_given(m, "end_second"@, second),
    ensures
        load_end_spec(m) == day * 86400 + hour * 3600 + minute * 60 + second,
{
}

/// A load is asked for exactly where the span's end comes after its start and
/// a window size is given: it then runs from that start to that end with that
/// window size. A span that does not end after its start is refused first; a
/// missing window size is refused only for a span that does.
pub proof fn law_load_request_outcome(m: Map<Seq<char>, Seq<char>>)
    requires
        breakdowns_fit(m),
    ensures
        load_request_spec(m) matches Ok(req) ==> {
            &&& req.start_time == load_start_spec(m)
            &&& req.end_time == load_end_spec(m)
            &&& req.start_time < req.end_time
            &&& int_option_spec(m, "window_size"@) == Some(req.window_size)
        },
        load_request_spec(m) is Ok <==> load_start_spec(m) < load_end_spec(m) && int_option_spec(
            m,
            "window_size"@,
        ) is Some,
        load_request_spec(m) == Err::<LoadRequest, GetDataError>(GetDataError::InvalidStartOrEnd)
            <==> load_end_spec(m) <= load_start_spec(m),
        load_request_spec(m) == Err::<LoadRequest, GetDataError>(GetDataError::MissingWindowSize)
            <==> load_start_spec(m) < load_end_spec(m) && int_option_spec(m, "window_size"@) is None,
{
}

} // verus!
