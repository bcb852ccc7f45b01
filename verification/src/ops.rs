//! The operations run over window graph files, the window facts read from a
//! file's name, and the order of the results.
use vstd::prelude::*;
use crate::sort::{is_stable_sort_by, lemma_sorted_payload, sort_keyed};
use crate::text::{
    lemma_split_nonempty,
    parse_u32,
    parse_u32_spec,
    split_char,
    split_on,
    str_eq,
    views,
};

verus! {

/// An operation over window graphs.
#[derive(Clone, Copy, Debug, PartialEq, Eq, Structural)]
pub enum OpType {
    AverageDegree,
    NumberOfVertices,
}

/// The operation that `s` names: `average_degree` or `number_of_vertices`.
pub open spec fn op_type_spec(s: Seq<char>) -> Option<OpType> {
    if s == "average_degree"@ {
        Some(OpType::AverageDegree)
    } else if s == "number_of_vertices"@ {
        Some(OpType::NumberOfVertices)
    } else {
        None
    }
}

impl OpType {
    /// The operation that `s` names: `average_degree` or `number_of_vertices`.
    pub fn from_str(s: &str) -> (r: Option<OpType>)
        ensures
            r == op_type_spec(s@),
    {
        if str_eq(s, "average_degree") {
            Some(OpType::AverageDegree)
        } else if str_eq(s, "number_of_vertices") {
            Some(OpType::NumberOfVertices)
        } else {
            None
        }
    }
}

/// The average-degree operation over the window graph files at the given
/// paths.
pub struct AverageDegree<'a> {
    pub window_file_paths: &'a Vec<String>,
}

/// The vertex-count operation over the window graph files at the given paths.
pub struct NumberOfVertices<'a> {
    pub window_file_paths: &'a Vec<String>,
}

/// What the name of a window graph file tells: the window's number and its
/// span.
#[derive(Clone, Copy, Debug, PartialEq, Eq, Structural)]
pub struct WindowInfo {
    pub stored_window_number: u32,
    pub start: u32,
    pub end: u32,
}

/// Which number of a window file name could not be read.
#[derive(Clone, Copy, Debug, PartialEq, Eq, Structural)]
pub enum WindowInfoError {
    InvalidWindowNumber,
    InvalidStart,
    InvalidEnd,
}

/// Whether reading the window facts of `name` reaches every part it reads:
/// the name has a second `_`-separated part, a third where the second is a
/// number, and a fourth where the third is one too.
pub open spec fn window_info_defined(name: Seq<char>) -> bool {
    let parts = split_on(name, '_');
    &&& parts.len() >= 2
    &&& (parse_u32_spec(parts[1]) is Some ==> parts.len() >= 3)
    &&& (parse_u32_spec(parts[1]) is Some && parse_u32_spec(parts[2]) is Some ==> parts.len() >= 4)
}

/// The window facts of `name`: its second, third and fourth `_`-separated
/// parts read as numbers, or the first of them that is no number.
pub open spec fn window_info_spec(name: Seq<char>) -> Result<WindowInfo, WindowInfoError> {
    let parts = split_on(name, '_');
    match parse_u32_spec(parts[1]) {
        None => Err(WindowInfoError::InvalidWindowNumber),
        Some(number) => match parse_u32_spec(parts[2]) {
            None => Err(WindowInfoError::InvalidStart),
            Some(start) => match parse_u32_spec(parts[3]) {
                None => Err(WindowInfoError::InvalidEnd),
                Some(end) => Ok(WindowInfo { stored_window_number: number, start, end }),
            },
        },
    }
}

/// Whether the window facts of `name` can be read (see `window_info_defined`).
pub fn window_info_is_defined(name: &str) -> (r: bool)
    ensures
        r == window_info_defined(name@),
{
    let parts = split_char(name, '_');
    proof {
        assert forall|k: int| 0 <= k < parts@.len() implies #[trigger] views(parts@)[k]
            == parts@[k]@ by {}
    }
    if parts.len() < 2 {
        return false;
    }
    let number = parse_u32(parts[1].as_str());
    if number.is_none() {
        return true;
    }
    if parts.len() < 3 {
        return false;
    }
    let start = parse_u32(parts[2].as_str());
    if start.is_none() {
        return true;
    }
    parts.len() >= 4
}

/// Reads the window number, start and end from the path of a window graph
/// file.
pub fn get_window_info(window_file_name: &str) -> (r: Result<WindowInfo, WindowInfoError>)
    requires
        window_info_defined(window_file_name@),
    ensures
        r == window_info_spec(window_file_name@),
{
    let parts = split_char(window_file_name, '_');
    proof {
        assert forall|k: int| 0 <= k < parts@.len() implies #[trigger] views(parts@)[k]
            == parts@[k]@ by {}
    }
    let stored_window_number = match parse_u32(parts[1].as_str()) {
        Some(v) => v,
        None => {
            return Err(WindowInfoError::InvalidWindowNumber);
        },
    };
    let start = match parse_u32(parts[2].as_str()) {
        Some(v) => v,
        None => {
            return Err(WindowInfoError::InvalidStart);
        },
    };
    let end = match parse_u32(parts[3].as_str()) {
        Some(v) => v,
        None => {
            return Err(WindowInfoError::InvalidEnd);
        },
    };
    Ok(WindowInfo { stored_window_number, start, end })
}

/// Results of an operation are ordered by the position of their window file.
pub open spec fn window_result_key<R>() -> spec_fn((WindowInfo, usize, R)) -> int {
    |x: (WindowInfo, usize, R)| x.1 as int
}

/// Orders the results of an operation by the position of their window file,
/// keeping the order of results with equal positions.
pub fn sort_by_window_index<R>(items: Vec<(WindowInfo, usize, R)>) -> (r: Vec<(WindowInfo, usize, R)>)
    ensures
        is_stable_sort_by(r@, items@, window_result_key()),
{
    let ghost inp = items@;
    let mut rest = items;
    let mut pairs: Vec<(u64, (WindowInfo, usize, R))> = Vec::new();
    assert(inp.skip(0) =~= inp);
    while rest.len() > 0
        invariant
            pairs@.len() <= inp.len(),
            rest@ == inp.skip(pairs@.len() as int),
            forall|j: int|
                0 <= j < pairs@.len() ==> #[trigger] pairs@[j].1 == inp[j] && pairs@[j].0 as int
                    == window_result_key()(inp[j]),
        decreases rest.len(),
    {
        let ghost k = pairs@.len() as int;
        let x = rest.remove(0);
        assert(x == inp[k]);
        assert(rest@ =~= inp.skip(k + 1));
        let key = x.1 as u64;
        pairs.push((key, x));
    }
    let (sorted, Ghost(p)) = sort_keyed(pairs);
    let ghost sorted_view = sorted@;
    let mut sorted = sorted;
    let mut out: Vec<(WindowInfo, usize, R)> = Vec::new();
    assert(sorted_view.skip(0) =~= sorted_view);
    while sorted.len() > 0
        invariant
            out@.len() <= sorted_view.len(),
            sorted@ == sorted_view.skip(out@.len() as int),
            forall|j: int| 0 <= j < out@.len() ==> #[trigger] out@[j] == sorted_view[j].1,
        decreases sorted.len(),
    {
        let ghost k = out@.len() as int;
        let x = sorted.remove(0);
        assert(x == sorted_view[k]);
        assert(sorted@ =~= sorted_view.skip(k + 1));
        out.push(x.1);
    }
    proof {
        lemma_sorted_payload(p, sorted_view, pairs@, out@, inp, window_result_key());
    }
    out
}

} // verus!
