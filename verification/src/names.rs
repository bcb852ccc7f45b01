//! The names of the files the library reads and writes: downloaded call-graph
//! archives, the CSV files extracted from them, and window graph files; and
//! the order in which they are processed.
use vstd::prelude::*;
use crate::sort::{first_key, is_stable_sort_by, sort_keyed, sorts_by};
use crate::ops::{window_info_defined, window_info_spec, WindowInfo, WindowInfoError};
use crate::text::{
    joined,
    decimal,
    lemma_decimal_has_no,
    lemma_parse_decimal,
    lemma_split_join,
    lemma_split_without_sep,
    format_u32,
    join_path,
    lemma_split_nonempty,
    lemma_split_with_sep,
    parse_u32,
    parse_u32_spec,
    split_char,
    split_on,
    starts_with,
    views,
};

verus! {

/// Where the call-graph archives are published.
pub open spec fn callgraph_base_url_spec() -> Seq<char> {
    "https://aliopentrace.oss-cn-beijing.aliyuncs.com/v2022MicroservicesTraces/CallGraph"@
}

/// The name of call-graph archive number `i`: `CallGraph_{i}.tar.gz`.
pub open spec fn callgraph_file_name_spec(i: u32) -> Seq<char> {
    "CallGraph_"@ + decimal(i as nat) + ".tar.gz"@
}

/// The name of call-graph archive number `i`.
pub fn callgraph_file_name(i: u32) -> (r: String)
    ensures
        r@ == callgraph_file_name_spec(i),
{
    let number = format_u32(i);
    let mut r = joined("CallGraph_", number.as_str());
    r.append(".tar.gz");
    r
}

/// The address that call-graph archive number `i` is downloaded from.
pub fn callgraph_file_url(i: u32) -> (r: String)
    ensures
        r@ == callgraph_base_url_spec() + seq!['/'] + callgraph_file_name_spec(i),
{
    let name = callgraph_file_name(i);
    join_path(
        "https://aliopentrace.oss-cn-beijing.aliyuncs.com/v2022MicroservicesTraces/CallGraph",
        name.as_str(),
    )
}

/// The directory that downloaded archives are kept in: the configured one
/// where there is one, else `data/raw` below the project directory.
pub fn raw_trace_dir(raw_dir: Option<String>, manifest_dir: &str) -> (r: String)
    ensures
        match raw_dir {
            Some(d) => r@ == d@,
            None => r@ == manifest_dir@ + "/data/raw"@,
        },
{
    match raw_dir {
        Some(d) => d,
        None => joined(manifest_dir, "/data/raw"),
    }
}

/// The path that call-graph archive number `i` is downloaded to in `dir`.
pub open spec fn callgraph_path_spec(dir: Seq<char>, i: int) -> Seq<char> {
    dir + seq!['/'] + callgraph_file_name_spec(i as u32)
}

/// The paths that the call-graph archives `first` to `last` (both included)
/// are downloaded to in `dir`, in the order of their numbers.
pub fn callgraph_download_paths(dir: &str, first: u32, last: u32) -> (r: Vec<String>)
    ensures
        r@.len() == if first <= last {
            last - first + 1
        } else {
            0
        },
        forall|i: int| 0 <= i < r@.len() ==> (#[trigger] r@[i])@ == callgraph_path_spec(dir@, first + i),
{
    let mut r: Vec<String> = Vec::new();
    if first > last {
        return r;
    }
    let mut k: u32 = first;
    loop
        invariant_except_break
            r@.len() == k - first,
        invariant
            first <= k <= last,
            forall|i: int| 0 <= i < r@.len() ==> (#[trigger] r@[i])@ == callgraph_path_spec(dir@, first + i),
        ensures
            r@.len() == last - first + 1,
        decreases last - k,
    {
        let name = callgraph_file_name(k);
        r.push(join_path(dir, name.as_str()));
        if k == last {
            break;
        }
        k = k + 1;
    }
    r
}

/// The directory that window graph files are kept in: the configured one
/// where there is one, else `data/windows` below the project directory.
pub fn get_resolved_windows_dir(windows_dir: Option<String>, manifest_dir: &str) -> (r: String)
    ensures
        match windows_dir {
            Some(d) => r@ == d@,
            None => r@ == manifest_dir@ + "/data/windows"@,
        },
{
    match windows_dir {
        Some(d) => d,
        None => joined(manifest_dir, "/data/windows"),
    }
}

/// The index that orders a downloaded archive: the number between the first
/// `_` and the following `.` of its path, or 0 where that is no number.
pub open spec fn callgraph_index_spec(name: Seq<char>) -> u32 {
    match parse_u32_spec(split_on(split_on(name, '_')[1], '.')[0]) {
        Some(v) => v,
        None => 0,
    }
}

/// Downloaded archives are ordered by `callgraph_index_spec`.
pub open spec fn callgraph_sort_key() -> spec_fn(Seq<char>) -> int {
    |s: Seq<char>| callgraph_index_spec(s) as int
}

/// The index that orders the downloaded archive at `path`.
pub fn callgraph_file_index(path: &str) -> (r: u32)
    requires
        path@.contains('_'),
    ensures
        r == callgraph_index_spec(path@),
{
    let parts = split_char(path, '_');
    proof {
        lemma_split_with_sep(path@, '_');
    }
    let after = split_char(parts[1].as_str(), '.');
    proof {
        lemma_split_nonempty(parts@[1]@, '.');
        assert(views(parts@)[1] == parts@[1]@);
        assert(views(after@)[0] == after@[0]@);
    }
    match parse_u32(after[0].as_str()) {
        Some(v) => v,
        None => 0,
    }
}

/// Moves a stable sort of keyed strings over to the strings' views.
proof fn lemma_sorted_views(
    p: Seq<int>,
    sorted: Seq<(u64, String)>,
    pairs: Seq<(u64, String)>,
    out: Seq<Seq<char>>,
    inp: Seq<Seq<char>>,
    key: spec_fn(Seq<char>) -> int,
)
    requires
        sorts_by(p, sorted, pairs, first_key()),
        pairs.len() == inp.len(),
        forall|j: int|
            0 <= j < inp.len() ==> #[trigger] pairs[j].1@ == inp[j] && pairs[j].0 as int == key(
                inp[j],
            ),
        out.len() == sorted.len(),
        forall|i: int| 0 <= i < out.len() ==> #[trigger] out[i] == sorted[i].1@,
    ensures
        sorts_by(p, out, inp, key),
{
    assert forall|i: int| 0 <= i < out.len() implies #[trigger] out[i] == inp[p[i]] && key(out[i])
        == sorted[i].0 as int by {
        assert(sorted[i] == pairs[p[i]]);
        assert(0 <= p[i] < inp.len());
        assert(pairs[p[i]].1@ == inp[p[i]]);
    }
    assert forall|i: int| 0 <= i < out.len() implies 0 <= #[trigger] p[i] < inp.len() by {
        assert(sorted[i] == pairs[p[i]]);
    }
    assert forall|i: int, j: int| 0 <= i < j < out.len() implies key(#[trigger] out[i]) <= key(
        #[trigger] out[j],
    ) by {
        assert(first_key()(sorted[i]) <= first_key()(sorted[j]));
        assert(out[i] == inp[p[i]] && key(out[i]) == sorted[i].0 as int);
        assert(out[j] == inp[p[j]] && key(out[j]) == sorted[j].0 as int);
    }
    assert forall|i: int, j: int|
        #![trigger out[i], out[j]]
        0 <= i < j < out.len() && key(out[i]) == key(out[j]) implies p[i] < p[j] by {
        assert(out[i] == inp[p[i]] && key(out[i]) == sorted[i].0 as int);
        assert(out[j] == inp[p[j]] && key(out[j]) == sorted[j].0 as int);
        assert(first_key()(sorted[i]) == first_key()(sorted[j]));
        assert(sorted[i] == sorted[i]);
    }
}

/// Orders downloaded archives by their index, keeping the order of archives
/// with equal indexes.
pub fn sort_downloaded_files(files: Vec<String>) -> (r: Vec<String>)
    requires
        forall|i: int| 0 <= i < files@.len() ==> (#[trigger] files@[i])@.contains('_'),
    ensures
        is_stable_sort_by(views(r@), views(files@), callgraph_sort_key()),
{
    let ghost inp = views(files@);
    let mut pairs: Vec<(u64, String)> = Vec::new();
    let mut i: usize = 0;
    while i < files.len()
        invariant
            inp == views(files@),
            i <= files@.len(),
            pairs@.len() == i,
            forall|j: int|
                0 <= j < i ==> #[trigger] pairs@[j].1@ == inp[j] && pairs@[j].0 as int
                    == callgraph_sort_key()(inp[j]),
            forall|j: int| 0 <= j < files@.len() ==> (#[trigger] files@[j])@.contains('_'),
        decreases files@.len() - i,
    {
        let key = callgraph_file_index(files[i].as_str());
        pairs.push((key as u64, files[i].clone()));
        i = i + 1;
    }
    let (sorted, Ghost(p)) = sort_keyed(pairs);
    let mut out: Vec<String> = Vec::new();
    let mut j: usize = 0;
    while j < sorted.len()
        invariant
            j <= sorted@.len(),
            out@.len() == j,
            forall|k: int| 0 <= k < j ==> (#[trigger] out@[k])@ == sorted@[k].1@,
        decreases sorted@.len() - j,
    {
        out.push(sorted[j].1.clone());
        j = j + 1;
    }
    proof {
        assert forall|k: int| 0 <= k < views(out@).len() implies #[trigger] views(out@)[k]
            == sorted@[k].1@ by {
            assert(views(out@)[k] == out@[k]@);
        }
        lemma_sorted_views(p, sorted@, pairs@, views(out@), inp, callgraph_sort_key());
    }
    out
}

/// The name of the graph file of window `idx`, spanning `start` to `end`:
/// `window_{idx}_{start}_{end}`.
pub open spec fn window_file_name_spec(idx: u32, start: u32, end: u32) -> Seq<char> {
    "window_"@ + decimal(idx as nat) + seq!['_'] + decimal(start as nat) + seq!['_'] + decimal(
        end as nat,
    )
}

/// The name of the graph file of window `idx`, spanning `start` to `end`.
pub fn window_file_name(idx: u32, start: u32, end: u32) -> (r: String)
    ensures
        r@ == window_file_name_spec(idx, start, end),
{
    let underscore = "_";
    proof {
        reveal_strlit("_");
    }
    let mut r = String::from_str("window_");
    r.append(format_u32(idx).as_str());
    r.append(underscore);
    r.append(format_u32(start).as_str());
    r.append(underscore);
    r.append(format_u32(end).as_str());
    r
}

/// Whether a file name marks a window graph file: it starts with `window_`.
pub open spec fn has_window_prefix(s: Seq<char>) -> bool {
    "window_"@.len() <= s.len() && s.take("window_"@.len() as int) == "window_"@
}

/// The names among `files` that mark window graph files, in their order.
pub open spec fn window_names(files: Seq<Seq<char>>) -> Seq<Seq<char>>
    decreases files.len(),
{
    if files.len() == 0 {
        Seq::empty()
    } else {
        let init = window_names(files.drop_last());
        if has_window_prefix(files.last()) {
            init.push(files.last())
        } else {
            init
        }
    }
}

/// The number that orders window graph files: the part between the first and
/// second `_` of the name, or the largest number where that is no number.
pub open spec fn window_key_spec(name: Seq<char>) -> u32 {
    match parse_u32_spec(split_on(name, '_')[1]) {
        Some(v) => v,
        None => u32::MAX,
    }
}

/// Window graph files are ordered by `window_key_spec`.
pub open spec fn window_sort_key() -> spec_fn(Seq<char>) -> int {
    |s: Seq<char>| window_key_spec(s) as int
}

/// A name that starts with `window_` holds an underscore.
proof fn lemma_window_prefix_underscore(s: Seq<char>)
    requires
        has_window_prefix(s),
    ensures
        s.contains('_'),
{
    reveal_strlit("window_");
    assert(s.take(7)[6] == '_');
    assert(s[6] == '_');
}

/// The number that orders the window graph file `name`.
fn window_file_key(name: &str) -> (r: u32)
    requires
        name@.contains('_'),
    ensures
        r == window_key_spec(name@),
{
    let parts = split_char(name, '_');
    proof {
        lemma_split_with_sep(name@, '_');
        assert(views(parts@)[1] == parts@[1]@);
    }
    match parse_u32(parts[1].as_str()) {
        Some(v) => v,
        None => 0xffff_ffffu32,
    }
}

/// The paths of the window graph files among the file names `files` of the
/// directory `windows_dir`: names that start with `window_`, ordered by their
/// window number (names without one last), names with equal numbers in the
/// order given, each joined to the directory.
pub fn get_window_file_paths(windows_dir: &str, files: Vec<String>) -> (r: Vec<String>)
    ensures
        exists|names: Seq<Seq<char>>|
            {
                &&& is_stable_sort_by(names, window_names(views(files@)), window_sort_key())
                &&& r@.len() == names.len()
                &&& forall|i: int|
                    0 <= i < names.len() ==> (#[trigger] r@[i])@ == windows_dir@ + seq!['/']
                        + names[i]
            },
{
    let ghost all = views(files@);
    let mut pairs: Vec<(u64, String)> = Vec::new();
    let mut i: usize = 0;
    assert(all.take(0) =~= Seq::<Seq<char>>::empty());
    while i < files.len()
        invariant
            all == views(files@),
            i <= files@.len(),
            pairs@.len() == window_names(all.take(i as int)).len(),
            forall|j: int|
                0 <= j < pairs@.len() ==> #[trigger] pairs@[j].1@ == window_names(
                    all.take(i as int),
                )[j] && pairs@[j].0 as int == window_sort_key()(
                    window_names(all.take(i as int))[j],
                ),
        decreases files@.len() - i,
    {
        let ghost before = window_names(all.take(i as int));
        assert(all.take(i + 1).drop_last() =~= all.take(i as int));
        assert(all.take(i + 1).last() == files@[i as int]@);
        if starts_with(files[i].as_str(), "window_") {
            proof {
                lemma_window_prefix_underscore(files@[i as int]@);
            }
            let key = window_file_key(files[i].as_str());
            pairs.push((key as u64, files[i].clone()));
            assert(window_names(all.take(i + 1)) == before.push(files@[i as int]@));
        } else {
            assert(window_names(all.take(i + 1)) == before);
        }
        i = i + 1;
    }
    assert(all.take(files@.len() as int) =~= all);
    let ghost inp = window_names(all);
    let (sorted, Ghost(p)) = sort_keyed(pairs);
    let mut out: Vec<String> = Vec::new();
    let mut j: usize = 0;
    while j < sorted.len()
        invariant
            j <= sorted@.len(),
            out@.len() == j,
            forall|k: int|
                0 <= k < j ==> (#[trigger] out@[k])@ == windows_dir@ + seq!['/'] + sorted@[k].1@,
        decreases sorted@.len() - j,
    {
        out.push(join_path(windows_dir, sorted[j].1.as_str()));
        j = j + 1;
    }
    let ghost names = Seq::new(sorted@.len(), |k: int| sorted@[k].1@);
    proof {
        lemma_sorted_views(p, sorted@, pairs@, names, inp, window_sort_key());
        assert(is_stable_sort_by(names, inp, window_sort_key()));
    }
    out
}

/// The place where extracting the archive called `file_name` leaves its CSV
/// file: `/tmp`, then the part of the name before its first `.`, then `.csv`.
pub fn extracted_csv_path(file_name: &str) -> (r: String)
    ensures
        r@ == extraction_dir_spec() + seq!['/'] + split_on(file_name@, '.')[0] + ".csv"@,
{
    let parts = split_char(file_name, '.');
    proof {
        lemma_split_nonempty(file_name@, '.');
        assert(views(parts@)[0] == parts@[0]@);
    }
    let mut r = join_path(extraction_dir(), parts[0].as_str());
    r.append(".csv");
    r
}

/// The directory that archives are extracted into.
pub open spec fn extraction_dir_spec() -> Seq<char> {
    "/tmp"@
}

/// The directory that archives are extracted into.
pub fn extraction_dir() -> (r: &'static str)
    ensures
        r@ == extraction_dir_spec(),
{
    "/tmp"
}

/// The index read back from the path of a downloaded archive, in a directory
/// whose path holds no `_`, is the number the archive was named with.
pub proof fn law_callgraph_name_round_trip(dir: Seq<char>, i: u32)
    requires
        !dir.contains('_'),
    ensures
        callgraph_index_spec(dir + seq!['/'] + callgraph_file_name_spec(i)) == i,
{
    reveal_strlit("CallGraph_");
    reveal_strlit(".tar.gz");
    let number = decimal(i as nat);
    let head = dir + seq!['/'] + "CallGraph_"@.take(9);
    let tail = number + ".tar.gz"@;
    let path = dir + seq!['/'] + callgraph_file_name_spec(i);
    assert(path =~= head + seq!['_'] + tail);
    assert forall|k: int| 0 <= k < head.len() implies head[k] != '_' by {
        if k < dir.len() {
            assert(head[k] == dir[k]);
        }
    }
    lemma_decimal_has_no(i as nat, '_');
    lemma_decimal_has_no(i as nat, '.');
    assert forall|k: int| 0 <= k < tail.len() implies tail[k] != '_' by {
        if k < number.len() {
            assert(tail[k] == number[k]);
        }
    }
    lemma_split_join(head, tail, '_');
    lemma_split_without_sep(head, '_');
    lemma_split_without_sep(tail, '_');
    let parts = split_on(path, '_');
    assert(parts =~= seq![head, tail]);
    let rest = ".tar.gz"@.drop_first();
    assert(tail =~= number + seq!['.'] + rest);
    lemma_split_join(number, rest, '.');
    lemma_split_without_sep(number, '.');
    assert(split_on(tail, '.')[0] == number);
    lemma_parse_decimal(i);
}

/// The name of a window graph file, in a directory whose path holds no `_`,
/// gives back the window number, start and end it was named with.
pub proof fn law_window_name_round_trip(dir: Seq<char>, idx: u32, start: u32, end: u32)
    requires
        !dir.contains('_'),
    ensures
        window_info_defined(dir + seq!['/'] + window_file_name_spec(idx, start, end)),
        window_info_spec(dir + seq!['/'] + window_file_name_spec(idx, start, end)) == Ok::<
            WindowInfo,
            WindowInfoError,
        >(WindowInfo { stored_window_number: idx, start, end }),
{
    reveal_strlit("window_");
    let a = decimal(idx as nat);
    let b = decimal(start as nat);
    let c = decimal(end as nat);
    let head = dir + seq!['/'] + "window_"@.take(6);
    let path = dir + seq!['/'] + window_file_name_spec(idx, start, end);
    assert(path =~= head + seq!['_'] + (a + seq!['_'] + (b + seq!['_'] + c)));
    assert forall|k: int| 0 <= k < head.len() implies head[k] != '_' by {
        if k < dir.len() {
            assert(head[k] == dir[k]);
        }
    }
    lemma_decimal_has_no(idx as nat, '_');
    lemma_decimal_has_no(start as nat, '_');
    lemma_decimal_has_no(end as nat, '_');
    lemma_split_join(b, c, '_');
    lemma_split_join(a, b + seq!['_'] + c, '_');
    lemma_split_join(head, a + seq!['_'] + (b + seq!['_'] + c), '_');
    lemma_split_without_sep(head, '_');
    lemma_split_without_sep(a, '_');
    lemma_split_without_sep(b, '_');
    lemma_split_without_sep(c, '_');
    let parts = split_on(path, '_');
    assert(parts =~= seq![head, a, b, c]);
    lemma_parse_decimal(idx);
    lemma_parse_decimal(start);
    lemma_parse_decimal(end);
}

/// A window graph file that the library names is found among the files of
/// its directory, and ordered by the window number it was named with.
pub proof fn law_window_name_is_found(idx: u32, start: u32, end: u32)
    ensures
        has_window_prefix(window_file_name_spec(idx, start, end)),
        window_key_spec(window_file_name_spec(idx, start, end)) == idx,
{
    reveal_strlit("window_");
    let name = window_file_name_spec(idx, start, end);
    assert(name.take(7) =~= "window_"@);
    let a = decimal(idx as nat);
    let b = decimal(start as nat);
    let c = decimal(end as nat);
    let head = "window_"@.take(6);
    assert(name =~= head + seq!['_'] + (a + seq!['_'] + (b + seq!['_'] + c)));
    lemma_decimal_has_no(idx as nat, '_');
    lemma_decimal_has_no(start as nat, '_');
    lemma_decimal_has_no(end as nat, '_');
    lemma_split_join(b, c, '_');
    lemma_split_join(a, b + seq!['_'] + c, '_');
    lemma_split_join(head, a + seq!['_'] + (b + seq!['_'] + c), '_');
    lemma_split_without_sep(head, '_');
    lemma_split_without_sep(a, '_');
    lemma_split_without_sep(b, '_');
    lemma_split_without_sep(c, '_');
    assert(split_on(name, '_') =~= seq![head, a, b, c]);
    lemma_parse_decimal(idx);
}

/// The first position of `c` in `s`, where `s` holds it.
proof fn lemma_first_occurrence(s: Seq<char>, c: char) -> (k: int)
    requires
        s.contains(c),
    ensures
        0 <= k < s.len(),
        s[k] == c,
        !s.take(k).contains(c),
    decreases s.len(),
{
    if s[0] == c {
        assert(s.take(0) =~= Seq::<char>::empty());
        0
    } else {
        let w = choose|w: int| 0 <= w < s.len() && s[w] == c;
        let rest = s.drop_first();
        assert(rest[w - 1] == c);
        let k = lemma_first_occurrence(rest, c);
        assert(s[k + 1] == c);
        let pre = s.take(k + 1);
        assert forall|j: int| 0 <= j < pre.len() implies #[trigger] pre[j] != c by {
            if j > 0 {
                assert(pre[j] == rest.take(k)[j - 1]);
            }
        }
        k + 1
    }
}

/// The first piece of a text that holds the separator does not depend on
/// what follows it.
proof fn lemma_split_first_piece(u: Seq<char>, v: Seq<char>, sep: char)
    requires
        u.contains(sep),
    ensures
        split_on(u + v, sep)[0] == split_on(u, sep)[0],
{
    let k = choose|k: int| 0 <= k < u.len() && u[k] == sep;
    let a = u.take(k);
    let b = u.skip(k + 1);
    assert(a + seq![sep] + b =~= u);
    assert(a + seq![sep] + (b + v) =~= u + v);
    lemma_split_join(a, b, sep);
    lemma_split_join(a, b + v, sep);
    lemma_split_nonempty(a, sep);
}

/// Where the directory's path holds a `_`, every archive path in it has the
/// same sort index: the one read from the directory's own path.
proof fn lemma_callgraph_index_in_underscore_dir(dir: Seq<char>, i: u32, j: u32)
    requires
        dir.contains('_'),
    ensures
        callgraph_index_spec(callgraph_path_spec(dir, i as int)) == callgraph_index_spec(
            callgraph_path_spec(dir, j as int),
        ),
{
    reveal_strlit("CallGraph_");
    let k = lemma_first_occurrence(dir, '_');
    let a = dir.take(k);
    let b = dir.skip(k + 1);
    let u = b + seq!['/'] + "CallGraph_"@;
    assert(u[u.len() - 1] == '_');
    assert(u.contains('_'));
    assert forall|n: u32| #[trigger] split_on(callgraph_path_spec(dir, n as int), '_')[1] == split_on(
        u,
        '_',
    )[0] by {
        let rest = decimal(n as nat) + ".tar.gz"@;
        let path = callgraph_path_spec(dir, n as int);
        assert((n as int) as u32 == n);
        assert(dir =~= a + seq!['_'] + b);
        assert(path =~= a + seq!['_'] + (u + rest));
        lemma_split_join(a, u + rest, '_');
        lemma_split_without_sep(a, '_');
        lemma_split_nonempty(u + rest, '_');
        lemma_split_first_piece(u, rest, '_');
        assert(split_on(path, '_') == seq![a] + split_on(u + rest, '_'));
        assert(split_on(path, '_')[1] == split_on(u + rest, '_')[0]);
    }
    assert(split_on(callgraph_path_spec(dir, i as int), '_')[1] == split_on(u, '_')[0]);
    assert(split_on(callgraph_path_spec(dir, j as int), '_')[1] == split_on(u, '_')[0]);
}

/// The archives of a range, downloaded into any directory, are already in
/// order: sorting them keeps them as they are. Where the directory's path
/// holds no `_`, archive `first + i` is at position `i` and that is its sort
/// index; where it holds one, all archives share one sort index, and the sort
/// keeps their order.
pub proof fn law_downloads_sorted_ascending(
    dir: Seq<char>,
    first: u32,
    paths: Seq<Seq<char>>,
    sorted: Seq<Seq<char>>,
)
    requires
        first + paths.len() <= u32::MAX + 1,
        forall|i: int| 0 <= i < paths.len() ==> #[trigger] paths[i] == callgraph_path_spec(dir, first + i),
        is_stable_sort_by(sorted, paths, callgraph_sort_key()),
    ensures
        sorted == paths,
        !dir.contains('_') ==> forall|i: int|
            0 <= i < sorted.len() ==> callgraph_index_spec(#[trigger] sorted[i]) == first + i,
{
    let key = callgraph_sort_key();
    let id = Seq::new(paths.len(), |i: int| i);
    if dir.contains('_') {
        assert(sorts_by(id, paths, paths, key)) by {
            assert forall|i: int, j: int| 0 <= i < j < paths.len() implies key(#[trigger] paths[i])
                <= key(#[trigger] paths[j]) by {
                lemma_callgraph_index_in_underscore_dir(dir, (first + i) as u32, (first + j) as u32);
                assert((first + i) as u32 as int == first + i);
                assert((first + j) as u32 as int == first + j);
            }
        }
    } else {
        assert forall|i: int| 0 <= i < paths.len() implies key(#[trigger] paths[i]) == first + i by {
            law_callgraph_name_round_trip(dir, (first + i) as u32);
        }
        assert(sorts_by(id, paths, paths, key)) by {
            assert forall|i: int, j: int| 0 <= i < j < paths.len() implies key(#[trigger] paths[i])
                <= key(#[trigger] paths[j]) by {
                assert(key(paths[i]) == first + i);
                assert(key(paths[j]) == first + j);
            }
        }
    }
    crate::sort::law_stable_sort_unique(sorted, paths, paths, key);
}

} // verus!
