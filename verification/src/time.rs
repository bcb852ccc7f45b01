//! Time stamps in seconds from the start of the trace, their day / hour /
//! minute / second breakdown, and the trace files that cover a time span.
use vstd::prelude::*;

verus! {

/// A point in the trace, as days, hours, minutes and seconds from its start.
#[derive(Clone, Copy, Debug, PartialEq, Eq, Structural)]
pub struct TimeBreakdown {
    pub day: u32,
    pub hour: u32,
    pub minute: u32,
    pub second: u32,
}

/// The number of seconds that a breakdown denotes.
pub open spec fn breakdown_seconds(b: TimeBreakdown) -> int {
    b.day * 86400 + b.hour * 3600 + b.minute * 60 + b.second
}

/// The number of whole minutes that a breakdown denotes, seconds left out.
pub open spec fn breakdown_minutes(b: TimeBreakdown) -> int {
    b.day * 1440 + b.hour * 60 + b.minute
}

/// The breakdown of `time` (in seconds): whole days, then the hours, minutes
/// and seconds left.
pub open spec fn time_breakdown_spec(time: u32) -> TimeBreakdown {
    TimeBreakdown {
        day: time / 86400,
        hour: (time % 86400) / 3600,
        minute: (time % 3600) / 60,
        second: time % 60,
    }
}

/// Splits `time` (in seconds) into days, hours, minutes and seconds.
pub fn get_time_breakdown(time: u32) -> (r: TimeBreakdown)
    ensures
        r == time_breakdown_spec(time),
        r.hour < 24,
        r.minute < 60,
        r.second < 60,
        breakdown_seconds(r) == time,
{
    let day = time / (24 * 60 * 60);
    assert(day * 86400 <= time) by (nonlinear_arith)
        requires
            day == time / 86400,
    ;
    let hour = (time - day * 24 * 60 * 60) / (60 * 60);
    assert(hour * 3600 <= time - day * 86400) by (nonlinear_arith)
        requires
            hour == (time - day * 86400) / 3600,
            time - day * 86400 >= 0,
    ;
    let minute = (time - day * 24 * 60 * 60 - hour * 60 * 60) / 60;
    assert(minute * 60 <= time - day * 86400 - hour * 3600) by (nonlinear_arith)
        requires
            minute == (time - day * 86400 - hour * 3600) / 60,
            time - day * 86400 - hour * 3600 >= 0,
    ;
    let second = time - day * 24 * 60 * 60 - hour * 60 * 60 - minute * 60;
    proof {
        let t = time as int;
        lemma_breakdown_parts(t);
        law_breakdown_round_trip(time);
        assert(t - day * 86400 == t % 86400);
        assert(hour == (t % 86400) / 3600);
        assert(t - day * 86400 - hour * 3600 == t % 3600);
    }
    TimeBreakdown { day, hour, minute, second }
}

/// The start and end times, in seconds, that two breakdowns denote.
pub fn get_start_end_time_given_breakdown(start: &TimeBreakdown, end: &TimeBreakdown) -> (r: (
    u32,
    u32,
))
    requires
        breakdown_seconds(*start) <= u32::MAX,
        breakdown_seconds(*end) <= u32::MAX,
    ensures
        r.0 == breakdown_seconds(*start),
        r.1 == breakdown_seconds(*end),
{
    (breakdown_total(start), breakdown_total(end))
}

/// The number of seconds that `b` denotes.
fn breakdown_total(b: &TimeBreakdown) -> (r: u32)
    requires
        breakdown_seconds(*b) <= u32::MAX,
    ensures
        r == breakdown_seconds(*b),
{
    b.day * 24 * 60 * 60 + b.hour * 60 * 60 + b.minute * 60 + b.second
}

/// The number of seconds that `b` denotes, or `None` where that does not fit
/// in 32 bits.
pub fn breakdown_seconds_checked(b: &TimeBreakdown) -> (r: Option<u32>)
    ensures
        r matches Some(v) ==> v == breakdown_seconds(*b),
        r is None <==> breakdown_seconds(*b) > u32::MAX,
{
    let total: u64 = b.day as u64 * 86400 + b.hour as u64 * 3600 + b.minute as u64 * 60
        + b.second as u64;
    if total > 0xffff_ffffu64 {
        None
    } else {
        Some(total as u32)
    }
}

/// The number of whole minutes that `time_breakdown` denotes.
pub fn get_callgraph_minute_value(time_breakdown: &TimeBreakdown) -> (r: u32)
    requires
        breakdown_minutes(*time_breakdown) <= u32::MAX,
    ensures
        r == breakdown_minutes(*time_breakdown),
{
    let mut minute_value: u32 = 0;
    minute_value += time_breakdown.day * 24 * 60;
    minute_value += time_breakdown.hour * 60;
    minute_value += time_breakdown.minute;
    minute_value
}

/// The minute count up to which the trace files must reach for a span that
/// ends at `end`: one more than its whole minutes where it has seconds left.
pub open spec fn end_minute(end: TimeBreakdown) -> int {
    if end.second > 0 {
        breakdown_minutes(end) + 1
    } else {
        breakdown_minutes(end)
    }
}

/// The first and last index of the three-minute call-graph files that cover
/// the span from `start` to `end`: the file holding the start minute, and the
/// one before the file that starts at or after the end minute, rounded up.
pub fn callgraph_file_range(start: &TimeBreakdown, end: &TimeBreakdown) -> (r: (u32, u32))
    requires
        breakdown_minutes(*start) <= u32::MAX,
        1 <= end_minute(*end) <= u32::MAX,
    ensures
        r.0 == breakdown_minutes(*start) / 3,
        r.1 == (end_minute(*end) + 2) / 3 - 1,
        start.second < 60 ==> 180 * r.0 <= breakdown_seconds(*start) < 180 * (r.0 + 1),
        end.second < 60 ==> 180 * r.1 <= breakdown_seconds(*end) - 1 < 180 * (r.1 + 1),
{
    proof {
        law_callgraph_range_covers_span(*start, *end);
    }
    let start_minute = get_callgraph_minute_value(start);
    let mut end_minute = get_callgraph_minute_value(end);
    if end.second > 0 {
        end_minute += 1;
    }
    let start_idx = start_minute / 3;
    let ceil_third = if end_minute % 3 == 0 {
        end_minute / 3
    } else {
        end_minute / 3 + 1
    };
    let end_idx = ceil_third - 1;
    (start_idx, end_idx)
}

/// Whether the file range of the span from `start` to `end` can be worked
/// out: the minute counts fit in 32 bits and the end minute is not zero.
pub fn callgraph_file_range_fits(start: &TimeBreakdown, end: &TimeBreakdown) -> (r: bool)
    ensures
        r == (breakdown_minutes(*start) <= u32::MAX && 1 <= end_minute(*end) <= u32::MAX),
{
    let start_minutes: u64 = start.day as u64 * 1440 + start.hour as u64 * 60 + start.minute as u64;
    let end_minutes: u64 = end.day as u64 * 1440 + end.hour as u64 * 60 + end.minute as u64 + if end.second
        > 0 {
        1
    } else {
        0
    };
    start_minutes <= 0xffff_ffffu64 && 1 <= end_minutes && end_minutes <= 0xffff_ffffu64
}

/// How a time splits into days, hours, minutes and seconds.
proof fn lemma_breakdown_parts(t: int)
    requires
        t >= 0,
    ensures
        t == 86400 * (t / 86400) + t % 86400,
        t % 86400 == 3600 * ((t % 86400) / 3600) + t % 3600,
        t % 3600 == 60 * ((t % 3600) / 60) + t % 60,
{
    assert(t % 86400 == 3600 * ((t % 86400) / 3600) + (t % 86400) % 3600);
    assert((t % 86400) % 3600 == t % 3600) by (nonlinear_arith)
        requires
            t >= 0,
    ;
    assert(t % 3600 == 60 * ((t % 3600) / 60) + (t % 3600) % 60);
    assert((t % 3600) % 60 == t % 60) by (nonlinear_arith)
        requires
            t >= 0,
    ;
}

/// Splitting a time into its breakdown and adding the breakdown up again
/// gives the time back.
pub proof fn law_breakdown_round_trip(time: u32)
    ensures
        breakdown_seconds(time_breakdown_spec(time)) == time,
        breakdown_minutes(time_breakdown_spec(time)) == time / 60,
{
    let t = time as int;
    lemma_breakdown_parts(t);
    let b = time_breakdown_spec(time);
    assert(breakdown_minutes(b) * 60 + t % 60 == t);
    assert(t == 60 * (t / 60) + t % 60);
}

/// The three-minute call-graph archive `i` holds the seconds from `180 * i`
/// up to `180 * (i + 1)`. The first archive of a span is the one that holds
/// its start, and the last is the one that holds its last second, the one
/// before the end: no archive wholly after the end is taken, and none that the
/// span reaches is left out.
pub proof fn law_callgraph_range_covers_span(start: TimeBreakdown, end: TimeBreakdown)
    requires
        end_minute(end) >= 1,
    ensures
        start.second < 60 ==> ({
            let first = breakdown_minutes(start) / 3;
            180 * first <= breakdown_seconds(start) < 180 * (first + 1)
        }),
        end.second < 60 ==> ({
            let last = (end_minute(end) + 2) / 3 - 1;
            180 * last <= breakdown_seconds(end) - 1 < 180 * (last + 1)
        }),
{
    let ms = breakdown_minutes(start);
    let ss = breakdown_seconds(start);
    assert(ss == 60 * ms + start.second);
    let first = ms / 3;
    assert(3 * first <= ms < 3 * first + 3);
    let me = breakdown_minutes(end);
    let se = breakdown_seconds(end);
    assert(se == 60 * me + end.second);
    let last = (end_minute(end) + 2) / 3 - 1;
    if end.second > 0 {
        assert(last == me / 3);
        assert(3 * last <= me < 3 * last + 3);
    } else {
        assert(last == (me - 1) / 3);
        assert(3 * last <= me - 1 < 3 * last + 3);
    }
}

} // verus!
