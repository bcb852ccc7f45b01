//! Cutting a time span into windows, the trace files that a span touches, and
//! the numbering of the windows cut from each file.
use vstd::prelude::*;
use crate::request::WindowIndexingType;
use crate::time::{breakdown_minutes, end_minute, law_breakdown_round_trip, time_breakdown_spec};

verus! {

/// How many whole windows of `window` seconds fit from `start` to `end`.
pub open spec fn window_count_spec(start: int, end: int, window: int) -> int {
    if start <= end {
        (end - start) / window
    } else {
        0
    }
}

/// The windows that `get_windows` cuts: `[start + i * window, start + (i + 1) * window)`
/// for every `i` below the window count.
pub open spec fn windows_spec(start: u32, end: u32, window: u32) -> Seq<(u32, u32)> {
    Seq::new(
        window_count_spec(start as int, end as int, window as int) as nat,
        |i: int| ((start + i * window) as u32, (start + (i + 1) * window) as u32),
    )
}

/// Whether cutting windows from `start` to `end` ends, within 32 bits: the
/// window is not empty (or the span is, being reversed), and the bound that
/// ends the cutting, one window past the last one, fits.
pub open spec fn windows_fit(start: u32, end: u32, window: u32) -> bool {
    &&& (window > 0 || start > end)
    &&& start + (window_count_spec(start as int, end as int, window as int) + 1) * window
        <= u32::MAX
}

proof fn lemma_mul_le_iff_le_div(m: int, w: int, x: int)
    requires
        w > 0,
        x >= 0,
        m >= 0,
    ensures
        (m * w <= x) == (m <= x / w),
{
    assert((x / w) * w <= x && x < (x / w + 1) * w) by (nonlinear_arith)
        requires
            w > 0,
            x >= 0,
    ;
    if m <= x / w {
        assert(m * w <= (x / w) * w) by (nonlinear_arith)
            requires
                m <= x / w,
                w > 0,
        ;
    } else {
        assert(m * w >= (x / w + 1) * w) by (nonlinear_arith)
            requires
                m >= x / w + 1,
                w > 0,
        ;
    }
}

proof fn lemma_mul_le(a: int, b: int, w: int)
    requires
        0 <= a <= b,
        w > 0,
    ensures
        0 <= a * w <= b * w,
{
    assert(0 <= a * w <= b * w) by (nonlinear_arith)
        requires
            0 <= a <= b,
            w > 0,
    ;
}

proof fn lemma_count_nonneg(start: int, end: int, window: int)
    requires
        window > 0,
    ensures
        window_count_spec(start, end, window) >= 0,
{
    if start <= end {
        assert((end - start) / window >= 0) by (nonlinear_arith)
            requires
                end - start >= 0,
                window > 0,
        ;
    }
}

/// Cuts the span from `start` to `end` into consecutive windows of `window`
/// seconds, as long as a whole window still fits.
pub fn get_windows(start: u32, end: u32, window: u32) -> (windows: Vec<(u32, u32)>)
    requires
        windows_fit(start, end, window),
    ensures
        windows@ == windows_spec(start, end, window),
{
    let ghost count = window_count_spec(start as int, end as int, window as int);
    let ghost target = windows_spec(start, end, window);
    proof {
        if window > 0 {
            lemma_count_nonneg(start as int, end as int, window as int);
        }
    }
    let mut windows: Vec<(u32, u32)> = Vec::new();
    let mut current = start;
    assert(target.take(0) =~= windows@);
    while current as u64 + window as u64 <= end as u64
        invariant
            windows_fit(start, end, window),
            count == window_count_spec(start as int, end as int, window as int),
            target == windows_spec(start, end, window),
            count >= 0,
            windows@.len() <= count,
            current == start + windows@.len() * window,
            windows@ == target.take(windows@.len() as int),
        decreases count - windows@.len(),
    {
        let ghost len = windows@.len() as int;
        proof {
            if window == 0 {
                assert(len * window == 0) by (nonlinear_arith)
                    requires
                        window == 0,
                ;
            }
            assert(window > 0);
            assert((len + 1) * window == len * window + window) by (nonlinear_arith);
            lemma_mul_le_iff_le_div(len + 1, window as int, end - start);
            assert(len + 1 <= count);
            assert((len + 2) * window <= (count + 1) * window) by (nonlinear_arith)
                requires
                    len + 1 <= count,
                    window > 0,
            ;
            assert((len + 2) * window == (len + 1) * window + window) by (nonlinear_arith);
        }
        let next = current + window;
        windows.push((current, next));
        proof {
            assert(target[len] == ((start + len * window) as u32, (start + (len + 1) * window) as u32));
            assert(windows@ =~= target.take(len + 1));
        }
        current = next;
    }
    proof {
        let len = windows@.len() as int;
        if len < count {
            assert((len + 1) * window == len * window + window) by (nonlinear_arith);
            lemma_mul_le_iff_le_div(len + 1, window as int, end - start);
        }
        assert(windows@ =~= target);
    }
    windows
}

/// Whether cutting windows from `start` to `end` stays within 32 bits (see
/// `windows_fit`).
pub fn windows_fit_exec(start: u32, end: u32, window: u32) -> (r: bool)
    ensures
        r == windows_fit(start, end, window),
{
    if window == 0 {
        return start > end;
    }
    let count: u32 = if start <= end {
        (end - start) / window
    } else {
        0
    };
    proof {
        lemma_count_nonneg(start as int, end as int, window as int);
        assert((count as u128 + 1) * (window as u128) <= 0x1_0000_0000u128 * 0x1_0000_0000u128)
            by (nonlinear_arith)
            requires
                count < 0x1_0000_0000u128,
                window < 0x1_0000_0000u128,
        ;
    }
    let bound: u128 = start as u128 + (count as u128 + 1) * (window as u128);
    bound <= 0xffff_ffffu128
}

/// How many windows of `window` seconds fit from `start` to `end`.
pub fn get_window_count(start: u32, end: u32, window: u32) -> (r: u32)
    requires
        start <= end,
        window > 0,
    ensures
        r == (end - start) / (window as int),
{
    (end - start) / window
}

/// `x` rounded down to a multiple of `step`.
pub open spec fn align_down(x: u32, step: u32) -> u32 {
    ((x / step) * step) as u32
}

proof fn lemma_align_down(x: u32, step: u32)
    requires
        step > 0,
    ensures
        (x / step) * step <= x,
        align_down(x, step) == (x / step) * step,
{
    assert((x / step) * step <= x) by (nonlinear_arith)
        requires
            step > 0,
    ;
    assert(0 <= (x / step) * step) by (nonlinear_arith)
        requires
            step > 0,
    ;
}

/// Whether the file bounds of the span from `start` to `end` can be cut
/// within 32 bits.
pub open spec fn file_bounds_fit(start: u32, end: u32, file_duration: u32) -> bool {
    file_duration > 0 && windows_fit(
        align_down(start, file_duration),
        align_down(end, file_duration),
        file_duration,
    )
}

/// The trace files of `file_duration` seconds that lie between the file that
/// holds `start` and the file that holds `end`: consecutive spans, starting at
/// `start` rounded down to a file boundary, up to `end` rounded down.
pub fn get_file_bounds(start: u32, end: u32, file_duration: u32) -> (bounds: Vec<(u32, u32)>)
    requires
        file_bounds_fit(start, end, file_duration),
    ensures
        bounds@ == windows_spec(
            align_down(start, file_duration),
            align_down(end, file_duration),
            file_duration,
        ),
{
    proof {
        lemma_align_down(start, file_duration);
        lemma_align_down(end, file_duration);
    }
    let file_start = (start / file_duration) * file_duration;
    let file_end = (end / file_duration) * file_duration;
    get_windows(file_start, file_end, file_duration)
}

/// The number that windows are counted from.
pub open spec fn index_offset(
    indexing_type: WindowIndexingType,
    import_start_time: u32,
    window_size: u32,
) -> int {
    match indexing_type {
        WindowIndexingType::FromZero => 0,
        WindowIndexingType::SeqFromStart => (import_start_time / window_size) as int,
    }
}

/// Numbered from zero, the first window is window 0; numbered from the
/// start, its number is how many whole windows of `window_size` seconds lie
/// before the import start: that many windows end at or before the start, and
/// one more would pass it.
pub proof fn law_first_window_number(import_start_time: u32, window_size: u32)
    requires
        window_size > 0,
    ensures
        index_offset(WindowIndexingType::FromZero, import_start_time, window_size) == 0,
        ({
            let n = index_offset(WindowIndexingType::SeqFromStart, import_start_time, window_size);
            n * window_size <= import_start_time < (n + 1) * window_size
        }),
{
    let t = import_start_time as int;
    let w = window_size as int;
    let n = t / w;
    assert(n * w <= t < (n + 1) * w) by (nonlinear_arith)
        requires
            w > 0,
            t >= 0,
            n == t / w,
    ;
}

/// The number of the first window cut from the file at position `idx`: the
/// offset, then for a later file the windows of the first file and of every
/// file between them. The position is taken modulo 2^32.
pub open spec fn starting_window_idx_spec(
    idx: usize,
    first_file_window_count: u32,
    window_count: u32,
    import_start_time: u32,
    indexing_type: WindowIndexingType,
    window_size: u32,
) -> int {
    let offset = index_offset(indexing_type, import_start_time, window_size);
    if idx == 0 {
        offset
    } else {
        offset + first_file_window_count + ((idx - 1) as u32) * window_count
    }
}

/// Whether the number of the first window of a file can be computed: the
/// division is defined and the result fits in 32 bits.
pub open spec fn starting_window_idx_fits(
    idx: usize,
    first_file_window_count: u32,
    window_count: u32,
    import_start_time: u32,
    indexing_type: WindowIndexingType,
    window_size: u32,
) -> bool {
    &&& (indexing_type == WindowIndexingType::SeqFromStart ==> window_size > 0)
    &&& starting_window_idx_spec(
        idx,
        first_file_window_count,
        window_count,
        import_start_time,
        indexing_type,
        window_size,
    ) <= u32::MAX
}

/// Whether the number of the first window of a file can be computed (see
/// `starting_window_idx_fits`).
pub fn starting_window_idx_fits_exec(
    idx: usize,
    first_file_window_count: u32,
    window_count: u32,
    import_start_time: u32,
    indexing_type: &WindowIndexingType,
    window_size: u32,
) -> (r: bool)
    ensures
        r == starting_window_idx_fits(
            idx,
            first_file_window_count,
            window_count,
            import_start_time,
            *indexing_type,
            window_size,
        ),
{
    let offset: u32 = match indexing_type {
        WindowIndexingType::FromZero => 0,
        WindowIndexingType::SeqFromStart => {
            if window_size == 0 {
                return false;
            }
            import_start_time / window_size
        },
    };
    if idx == 0 {
        return true;
    }
    let position = (idx - 1) as u32;
    proof {
        assert((position as u128) * (window_count as u128) <= 0xffff_ffffu128 * 0xffff_ffffu128)
            by (nonlinear_arith)
            requires
                position <= 0xffff_ffffu128,
                window_count <= 0xffff_ffffu128,
        ;
    }
    let total: u128 = offset as u128 + first_file_window_count as u128 + (position as u128) * (
    window_count as u128);
    total <= 0xffff_ffffu128
}

/// The number of the first window cut from the file at position `idx`.
pub fn get_starting_window_idx(
    idx: usize,
    first_file_window_count: u32,
    window_count: u32,
    import_start_time: u32,
    indexing_type: &WindowIndexingType,
    window_size: u32,
) -> (r: u32)
    requires
        starting_window_idx_fits(
            idx,
            first_file_window_count,
            window_count,
            import_start_time,
            *indexing_type,
            window_size,
        ),
    ensures
        r == starting_window_idx_spec(
            idx,
            first_file_window_count,
            window_count,
            import_start_time,
            *indexing_type,
            window_size,
        ),
        idx == 0 ==> match *indexing_type {
            WindowIndexingType::FromZero => r == 0,
            WindowIndexingType::SeqFromStart => r * window_size <= import_start_time < (r + 1)
                * window_size,
        },
{
    let offset_index = match indexing_type {
        WindowIndexingType::FromZero => 0,
        WindowIndexingType::SeqFromStart => import_start_time / window_size,
    };
    if idx == 0 {
        proof {
            if window_size > 0 {
                law_first_window_number(import_start_time, window_size);
            }
        }
        offset_index
    } else {
        let position = (idx - 1) as u32;
        assert(position * window_count >= 0) by (nonlinear_arith);
        offset_index + first_file_window_count + position * window_count
    }
}

/// The part of one trace file that a load works on, and the number of its
/// first window.
#[derive(Clone, Copy, Debug, PartialEq, Eq, Structural)]
pub struct FileWindowPlan {
    pub start: u32,
    pub end: u32,
    pub starting_idx: u32,
}

/// The windows of the first file: those from `start` to the end of the file
/// that holds it.
pub open spec fn first_file_window_count_spec(start: u32, window_size: u32) -> int {
    ((start / 180) * 180 + 180 - start) / (window_size as int)
}

/// The windows of every later file.
pub open spec fn file_window_count_spec(window_size: u32) -> int {
    180int / (window_size as int)
}

/// Whether a plan for `file_count` files can be made: the windows are not
/// empty, the file bounds can be cut and there is one for every file, the end
/// of the first file fits, and every file's first window number fits.
pub open spec fn plan_fits(
    file_count: usize,
    window_size: u32,
    start: u32,
    end: u32,
    file_duration: u32,
    indexing_type: WindowIndexingType,
) -> bool {
    &&& window_size > 0
    &&& file_bounds_fit(start, end, file_duration)
    &&& file_count <= windows_spec(
        align_down(start, file_duration),
        align_down(end, file_duration),
        file_duration,
    ).len()
    &&& (start / 180) * 180 + 180 <= u32::MAX
    &&& forall|i: int|
        0 <= i < file_count ==> #[trigger] starting_window_idx_fits(
            i as usize,
            first_file_window_count_spec(start, window_size) as u32,
            file_window_count_spec(window_size) as u32,
            start,
            indexing_type,
            window_size,
        )
}

/// Whether a plan for `file_count` files can be made (see `plan_fits`).
pub fn plan_fits_exec(
    file_count: usize,
    window_size: u32,
    start: u32,
    end: u32,
    file_duration: u32,
    indexing_type: &WindowIndexingType,
) -> (r: bool)
    ensures
        r == plan_fits(file_count, window_size, start, end, file_duration, *indexing_type),
{
    if window_size == 0 || file_duration == 0 {
        return false;
    }
    proof {
        lemma_align_down(start, file_duration);
        lemma_align_down(end, file_duration);
    }
    let file_start = (start / file_duration) * file_duration;
    let file_end = (end / file_duration) * file_duration;
    if !windows_fit_exec(file_start, file_end, file_duration) {
        return false;
    }
    let file_total: u32 = if file_start <= file_end {
        (file_end - file_start) / file_duration
    } else {
        0
    };
    if file_count as u64 > file_total as u64 {
        return false;
    }
    if start / 180 * 180 > 0xffff_ffffu32 - 180 {
        return false;
    }
    let first_end = (start / 180) * 180 + 180;
    assert(start <= first_end) by (nonlinear_arith)
        requires
            first_end == (start / 180) * 180 + 180,
    ;
    let first_file_window_count = get_window_count(start, first_end, window_size);
    let window_count = get_window_count(0, 180, window_size);
    let mut i: usize = 0;
    while i < file_count
        invariant
            i <= file_count,
            first_file_window_count == first_file_window_count_spec(start, window_size),
            window_count == file_window_count_spec(window_size),
            forall|j: int|
                0 <= j < i ==> #[trigger] starting_window_idx_fits(
                    j as usize,
                    first_file_window_count_spec(start, window_size) as u32,
                    file_window_count_spec(window_size) as u32,
                    start,
                    *indexing_type,
                    window_size,
                ),
        decreases file_count - i,
    {
        let fits = starting_window_idx_fits_exec(
            i,
            first_file_window_count,
            window_count,
            start,
            indexing_type,
            window_size,
        );
        proof {
            let fs = first_file_window_count_spec(start, window_size);
            let ws = file_window_count_spec(window_size);
            assert(fs as u32 == first_file_window_count);
            assert(ws as u32 == window_count);
            assert((i as int) as usize == i);
        }
        if !fits {
            assert(!starting_window_idx_fits(
                (i as int) as usize,
                first_file_window_count_spec(start, window_size) as u32,
                file_window_count_spec(window_size) as u32,
                start,
                *indexing_type,
                window_size,
            ));
            return false;
        }
        i = i + 1;
    }
    true
}

/// What a load does with the file at position `i` of `file_count`: its span
/// (the file's bounds, the first file starting no earlier than the load's
/// start and the last file ending no later than the load's end) and the
/// number of its first window.
pub open spec fn file_plan_spec(
    i: int,
    file_count: usize,
    window_size: u32,
    start: u32,
    end: u32,
    file_duration: u32,
    indexing_type: WindowIndexingType,
) -> FileWindowPlan {
    let bounds = windows_spec(
        align_down(start, file_duration),
        align_down(end, file_duration),
        file_duration,
    );
    let (file_start, file_end) = bounds[i];
    FileWindowPlan {
        start: if i == 0 && file_start < start {
            start
        } else {
            file_start
        },
        end: if i == file_count - 1 && end < file_end {
            end
        } else {
            file_end
        },
        starting_idx: starting_window_idx_spec(
            i as usize,
            first_file_window_count_spec(start, window_size) as u32,
            file_window_count_spec(window_size) as u32,
            start,
            indexing_type,
            window_size,
        ) as u32,
    }
}

/// Plans the load of `file_count` trace files, in the order of the files:
/// which part of each file is windowed and the number its windows start at.
pub fn plan_event_files(
    file_count: usize,
    window_size: u32,
    start: u32,
    end: u32,
    file_duration: u32,
    indexing_type: &WindowIndexingType,
) -> (plans: Vec<FileWindowPlan>)
    requires
        plan_fits(file_count, window_size, start, end, file_duration, *indexing_type),
    ensures
        plans@.len() == file_count,
        forall|i: int|
            0 <= i < file_count ==> #[trigger] plans@[i] == file_plan_spec(
                i,
                file_count,
                window_size,
                start,
                end,
                file_duration,
                *indexing_type,
            ),
{
    let file_bounds = get_file_bounds(start, end, file_duration);
    assert(start <= (start / 180) * 180 + 180) by (nonlinear_arith);
    let first_file_window_count = get_window_count(start, (start / 180) * 180 + 180, window_size);
    let window_count = get_window_count(0, 180, window_size);
    let mut plans: Vec<FileWindowPlan> = Vec::new();
    let mut idx: usize = 0;
    while idx < file_count
        invariant
            plan_fits(file_count, window_size, start, end, file_duration, *indexing_type),
            file_bounds@ == windows_spec(
                align_down(start, file_duration),
                align_down(end, file_duration),
                file_duration,
            ),
            first_file_window_count == first_file_window_count_spec(start, window_size),
            window_count == file_window_count_spec(window_size),
            idx <= file_count,
            plans@.len() == idx,
            forall|i: int|
                0 <= i < idx ==> #[trigger] plans@[i] == file_plan_spec(
                    i,
                    file_count,
                    window_size,
                    start,
                    end,
                    file_duration,
                    *indexing_type,
                ),
        decreases file_count - idx,
    {
        let (file_start, file_end) = file_bounds[idx];
        let current_file_start = if idx == 0 && file_start < start {
            start
        } else {
            file_start
        };
        let current_file_end = if idx == file_count - 1 && end < file_end {
            end
        } else {
            file_end
        };
        proof {
            let fs = first_file_window_count_spec(start, window_size);
            let ws = file_window_count_spec(window_size);
            assert(fs as u32 == first_file_window_count);
            assert(ws as u32 == window_count);
            assert((idx as int) as usize == idx);
            assert(starting_window_idx_fits(
                (idx as int) as usize,
                fs as u32,
                ws as u32,
                start,
                *indexing_type,
                window_size,
            ));
        }
        let starting_idx = get_starting_window_idx(
            idx,
            first_file_window_count,
            window_count,
            start,
            indexing_type,
            window_size,
        );
        plans.push(
            FileWindowPlan { start: current_file_start, end: current_file_end, starting_idx },
        );
        idx = idx + 1;
    }
    plans
}

/// The number of a window: the number of its file's first window plus its
/// position in the file (taken modulo 2^32).
pub fn window_index(start_idx: u32, position: usize) -> (r: u32)
    requires
        start_idx + (position as u32) <= u32::MAX,
    ensures
        r == start_idx + (position as u32),
{
    start_idx + (position as u32)
}

/// The bounds of a window in milliseconds, as the graph's time axis counts.
pub fn window_bounds_ms(start: u32, end: u32) -> (r: (i64, i64))
    requires
        start * 1000 <= u32::MAX,
        end * 1000 <= u32::MAX,
    ensures
        r.0 == start * 1000,
        r.1 == end * 1000,
{
    ((start * 1000) as i64, (end * 1000) as i64)
}

/// The windows of a span follow one another without gap or overlap, each one
/// `window` seconds long, from the span's start; they cover the span up to a
/// rest shorter than one window, and there are as many as `get_window_count`
/// counts.
pub proof fn law_windows_tile(start: u32, end: u32, window: u32)
    requires
        windows_fit(start, end, window),
    ensures
        ({
            let ws = windows_spec(start, end, window);
            &&& forall|i: int| 0 <= i < ws.len() ==> #[trigger] ws[i].1 - ws[i].0 == window
            &&& forall|i: int| 0 <= i < ws.len() - 1 ==> #[trigger] ws[i].1 == ws[i + 1].0
            &&& ws.len() > 0 ==> ws[0].0 == start
            &&& start <= end ==> ws.len() == (end - start) / (window as int)
            &&& start <= end ==> start + ws.len() * window <= end < start + (ws.len() + 1) * window
            &&& start > end ==> ws.len() == 0
        }),
{
    let ws = windows_spec(start, end, window);
    let count = window_count_spec(start as int, end as int, window as int);
    if window == 0 {
        return;
    }
    lemma_count_nonneg(start as int, end as int, window as int);
    assert forall|i: int| 0 <= i < ws.len() implies #[trigger] ws[i].1 - ws[i].0 == window by {
        lemma_mul_le(i, count + 1, window as int);
        lemma_mul_le(i + 1, count + 1, window as int);
        assert((i + 1) * window == i * window + window) by (nonlinear_arith);
    }
    assert forall|i: int| 0 <= i < ws.len() - 1 implies #[trigger] ws[i].1 == ws[i + 1].0 by {
        lemma_mul_le(i + 1, count + 1, window as int);
    }
    if start <= end {
        let x = end - start;
        assert(count * window <= x && x < (count + 1) * window) by (nonlinear_arith)
            requires
                count == x / (window as int),
                window > 0,
                x >= 0,
        ;
    }
}

/// Every trace-file span starts and ends on a multiple of the file length,
/// the first one at the start of the file that holds the span's start.
pub proof fn law_file_bounds_aligned(start: u32, end: u32, file_duration: u32)
    requires
        file_bounds_fit(start, end, file_duration),
    ensures
        ({
            let bounds = windows_spec(
                align_down(start, file_duration),
                align_down(end, file_duration),
                file_duration,
            );
            &&& forall|i: int| 0 <= i < bounds.len() ==> #[trigger] bounds[i].0 % file_duration == 0
            &&& forall|i: int| 0 <= i < bounds.len() ==> bounds[i].1 % file_duration == 0
            &&& bounds.len() > 0 ==> bounds[0].0 <= start && start < bounds[0].0 + file_duration
        }),
{
    let d = file_duration;
    lemma_align_down(start, d);
    lemma_align_down(end, d);
    let fs = align_down(start, d);
    let fe = align_down(end, d);
    law_windows_tile(fs, fe, d);
    let bounds = windows_spec(fs, fe, d);
    let count = window_count_spec(fs as int, fe as int, d as int);
    lemma_count_nonneg(fs as int, fe as int, d as int);
    assert forall|i: int| 0 <= i < bounds.len() implies #[trigger] bounds[i].0 % d == 0 && bounds[i].1
        % d == 0 by {
        lemma_mul_le(i, count + 1, d as int);
        lemma_mul_le(i + 1, count + 1, d as int);
        let q = start / d;
        assert(q * d + i * d == (q + i) * d) by (nonlinear_arith);
        assert(q * d + (i + 1) * d == (q + i + 1) * d) by (nonlinear_arith);
        vstd::arithmetic::div_mod::lemma_mod_multiples_basic(q + i, d as int);
        vstd::arithmetic::div_mod::lemma_mod_multiples_basic(q + i + 1, d as int);
    }
    assert(start < fs + d) by (nonlinear_arith)
        requires
            fs == (start / d) * d,
            d > 0,
    ;
}

/// Windows are numbered on from file to file: the first file's windows start
/// at the offset, the second file's after the first file's windows, and each
/// later file's after the windows of one whole file.
pub proof fn law_window_numbering(
    idx: usize,
    first_file_window_count: u32,
    window_count: u32,
    import_start_time: u32,
    indexing_type: WindowIndexingType,
    window_size: u32,
)
    requires
        idx < u32::MAX,
    ensures
        starting_window_idx_spec(
            0,
            first_file_window_count,
            window_count,
            import_start_time,
            indexing_type,
            window_size,
        ) == index_offset(indexing_type, import_start_time, window_size),
        starting_window_idx_spec(
            (idx + 1) as usize,
            first_file_window_count,
            window_count,
            import_start_time,
            indexing_type,
            window_size,
        ) == starting_window_idx_spec(
            idx,
            first_file_window_count,
            window_count,
            import_start_time,
            indexing_type,
            window_size,
        ) + if idx == 0 {
            first_file_window_count as int
        } else {
            window_count as int
        },
{
    assert(((idx + 1) as usize) - 1 == idx);
    assert((idx as int) as u32 == idx);
    if idx > 0 {
        assert(((idx - 1) as int) as u32 == idx - 1);
        assert((idx as int) * window_count == (idx - 1) * window_count + window_count)
            by (nonlinear_arith);
    }
}

/// For a span that ends on a three-minute file boundary, the call-graph
/// archives that are downloaded for it are exactly the files whose bounds the
/// loader cuts: as many, in the same order, archive `k` of the range starting
/// where bound `k` starts.
pub proof fn law_downloads_match_file_bounds(start: u32, end: u32)
    requires
        start < end,
        end % 180 == 0,
        end <= u32::MAX - 180,
    ensures
        ({
            let first = breakdown_minutes(time_breakdown_spec(start)) / 3;
            let last = (end_minute(time_breakdown_spec(end)) + 2) / 3 - 1;
            let bounds = windows_spec(align_down(start, 180), align_down(end, 180), 180);
            &&& file_bounds_fit(start, end, 180)
            &&& bounds.len() == last - first + 1
            &&& forall|k: int| 0 <= k < bounds.len() ==> #[trigger] bounds[k].0 == 180 * (first + k)
        }),
{
    law_breakdown_round_trip(start);
    law_breakdown_round_trip(end);
    lemma_align_down(start, 180);
    lemma_align_down(end, 180);
    let s = start as int;
    let e = end as int;
    assert(time_breakdown_spec(end).second == end % 60);
    assert(e % 60 == 0);
    assert(end_minute(time_breakdown_spec(end)) == e / 60);
    assert((e / 60 + 2) / 3 - 1 == e / 180 - 1);
    assert((s / 60) / 3 == s / 180);
    assert(align_down(end, 180) == end);
    let fs = align_down(start, 180) as int;
    assert(fs == 180 * (s / 180));
    assert(fs <= s);
    assert((e - fs) / 180 == e / 180 - s / 180);
    let count = window_count_spec(fs, e, 180);
    assert(count == e / 180 - s / 180);
    assert(fs + (count + 1) * 180 == e + 180);
    let bounds = windows_spec(align_down(start, 180), align_down(end, 180), 180);
    assert forall|k: int| 0 <= k < bounds.len() implies #[trigger] bounds[k].0 == 180 * (s / 180 + k) by {
        assert(fs + k * 180 <= e);
    }
}

/// With three-minute trace files, the windows that a plan cuts from each file
/// lie within the load's span, those of the first file from the load's start
/// on, and their numbers run on from file to file without repeating: the
/// windows of file `i` are numbered from its first window number up to, not
/// including, the first window number of the next file.
pub proof fn law_plan_windows(
    file_count: usize,
    window_size: u32,
    start: u32,
    end: u32,
    indexing_type: WindowIndexingType,
    i: int,
)
    requires
        plan_fits(file_count, window_size, start, end, 180, indexing_type),
        0 <= i < file_count,
    ensures
        ({
            let p = file_plan_spec(i, file_count, window_size, start, end, 180, indexing_type);
            &&& start <= p.start <= p.end <= end
            &&& i == 0 ==> p.start == start
            &&& i == 0 ==> match indexing_type {
                WindowIndexingType::FromZero => p.starting_idx == 0,
                WindowIndexingType::SeqFromStart => p.starting_idx * window_size <= start < (
                p.starting_idx + 1) * window_size,
            }
            &&& i + 1 < file_count ==> file_plan_spec(
                i + 1,
                file_count,
                window_size,
                start,
                end,
                180,
                indexing_type,
            ).starting_idx == p.starting_idx + window_count_spec(
                p.start as int,
                p.end as int,
                window_size as int,
            )
        }),
{
    let fs = align_down(start, 180);
    let fe = align_down(end, 180);
    lemma_align_down(start, 180);
    lemma_align_down(end, 180);
    let bounds = windows_spec(fs, fe, 180);
    let count = window_count_spec(fs as int, fe as int, 180);
    assert(bounds.len() == count);
    assert(count >= 1);
    assert(fs <= fe);
    let s = start as int;
    let e = end as int;
    assert(fs == 180 * (s / 180));
    assert(fe == 180 * (e / 180));
    assert(count == e / 180 - s / 180);
    assert(s < fs + 180);
    assert(count <= 0xffff_ffff);
    law_windows_tile(fs, fe, 180);
    let fb = bounds[i];
    assert(fb.0 == fs + 180 * i && fb.1 == fs + 180 * (i + 1)) by {
        lemma_mul_le(i + 1, count, 180);
        assert(fs + count * 180 <= fe);
    }
    let p = file_plan_spec(i, file_count, window_size, start, end, 180, indexing_type);
    assert(fb.1 <= fe) by {
        lemma_mul_le(i + 1, count, 180);
    }
    if i == 0 {
        assert(p.start == start);
        law_first_window_number(start, window_size);
    } else {
        assert(p.start == fb.0);
    }
    assert(p.end == fb.1);
    let first = first_file_window_count_spec(start, window_size);
    let wc = file_window_count_spec(window_size);
    assert(0 <= first <= 180) by (nonlinear_arith)
        requires
            first == ((s / 180) * 180 + 180 - s) / (window_size as int),
            window_size > 0,
            0 <= (s / 180) * 180 + 180 - s <= 180,
    ;
    assert(0 <= wc <= 180) by (nonlinear_arith)
        requires
            wc == 180int / (window_size as int),
            window_size > 0,
    ;
    if i + 1 < file_count {
        let q = file_plan_spec(i + 1, file_count, window_size, start, end, 180, indexing_type);
        assert(i < 0xffff_ffff);
        law_window_numbering(i as usize, first as u32, wc as u32, start, indexing_type, window_size);
        assert(starting_window_idx_fits(
            (i as int) as usize,
            first as u32,
            wc as u32,
            start,
            indexing_type,
            window_size,
        ));
        assert(starting_window_idx_fits(
            (i + 1) as usize,
            first as u32,
            wc as u32,
            start,
            indexing_type,
            window_size,
        ));
        lemma_starting_idx_nonneg(i as usize, first as u32, wc as u32, start, indexing_type, window_size);
        lemma_starting_idx_nonneg(
            (i + 1) as usize,
            first as u32,
            wc as u32,
            start,
            indexing_type,
            window_size,
        );
        if i == 0 {
            assert(window_count_spec(p.start as int, p.end as int, window_size as int) == first);
        } else {
            assert(p.end - p.start == 180);
            assert(window_count_spec(p.start as int, p.end as int, window_size as int) == wc);
        }
    }
}

proof fn lemma_starting_idx_nonneg(
    idx: usize,
    first_file_window_count: u32,
    window_count: u32,
    import_start_time: u32,
    indexing_type: WindowIndexingType,
    window_size: u32,
)
    requires
        indexing_type == WindowIndexingType::SeqFromStart ==> window_size > 0,
    ensures
        starting_window_idx_spec(
            idx,
            first_file_window_count,
            window_count,
            import_start_time,
            indexing_type,
            window_size,
        ) >= 0,
{
    if idx > 0 {
        let position = ((idx - 1) as u32) as int;
        assert(position * window_count >= 0) by (nonlinear_arith)
            requires
                position >= 0,
        ;
    }
}

} // verus!
