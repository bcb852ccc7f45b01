//! Stable sorting by an integer key, as `slice::sort_by` on a key comparison
//! does.
use vstd::prelude::*;

verus! {

/// `p` shows that `out` is `inp` stably sorted by `key`: `out[i]` is
/// `inp[p[i]]`, every element of `inp` is used once, keys never decrease along
/// `out`, and elements with equal keys keep their order.
pub open spec fn sorts_by<A>(p: Seq<int>, out: Seq<A>, inp: Seq<A>, key: spec_fn(A) -> int) -> bool {
    &&& p.len() == inp.len()
    &&& out.len() == inp.len()
    &&& forall|i: int| 0 <= i < out.len() ==> 0 <= #[trigger] p[i] < inp.len()
    &&& forall|i: int| 0 <= i < out.len() ==> #[trigger] out[i] == inp[p[i]]
    &&& forall|i: int, j: int| 0 <= i < j < out.len() ==> #[trigger] p[i] != #[trigger] p[j]
    &&& forall|i: int, j: int|
        0 <= i < j < out.len() ==> key(#[trigger] out[i]) <= key(#[trigger] out[j])
    &&& forall|i: int, j: int|
        #![trigger out[i], out[j]]
        0 <= i < j < out.len() && key(out[i]) == key(out[j]) ==> p[i] < p[j]
}

/// `out` is `inp` stably sorted by `key`.
pub open spec fn is_stable_sort_by<A>(out: Seq<A>, inp: Seq<A>, key: spec_fn(A) -> int) -> bool {
    exists|p: Seq<int>| sorts_by(p, out, inp, key)
}

/// The key of a pair: its first component.
pub open spec fn first_key<T>() -> spec_fn((u64, T)) -> int {
    |x: (u64, T)| x.0 as int
}

/// Sorts pairs stably by their first component, and gives the permutation
/// that was applied.
pub(crate) fn sort_keyed<T>(items: Vec<(u64, T)>) -> (res: (Vec<(u64, T)>, Ghost<Seq<int>>))
    ensures
        sorts_by(res.1@, res.0@, items@, first_key()),
{
    let ghost inp = items@;
    let ghost key = first_key::<T>();
    let mut rest = items;
    let mut out: Vec<(u64, T)> = Vec::new();
    let ghost mut p: Seq<int> = Seq::empty();
    let ghost mut k: int = 0;
    assert(inp.skip(0) =~= inp);
    while rest.len() > 0
        invariant
            key == first_key::<T>(),
            0 <= k <= inp.len(),
            rest@ == inp.skip(k),
            sorts_by(p, out@, inp.take(k), key),
        decreases rest.len(),
    {
        let x = rest.remove(0);
        assert(x == inp[k]);
        assert(rest@ =~= inp.skip(k + 1));
        let mut pos: usize = 0;
        while pos < out.len() && out[pos].0 <= x.0
            invariant
                pos <= out.len(),
                forall|j: int| 0 <= j < pos ==> out@[j].0 <= x.0,
            decreases out.len() - pos,
        {
            pos = pos + 1;
        }
        let ghost old_out = out@;
        let ghost old_p = p;
        proof {
            // everything from `pos` on has a larger key than `x`
            assert forall|j: int| pos <= j < old_out.len() implies old_out[j].0 > x.0 by {
                assert(old_out[pos as int].0 > x.0);
                if j > pos {
                    assert(key(old_out[pos as int]) <= key(old_out[j]));
                }
            }
        }
        out.insert(pos, x);
        proof {
            p = old_p.take(pos as int) + seq![k] + old_p.skip(pos as int);
            let ti = inp.take(k + 1);
            let n = out@.len();
            assert(n == k + 1);
            assert forall|i: int| 0 <= i < n implies #[trigger] out@[i] == ti[p[i]] && 0 <= p[i]
                < ti.len() by {
                if i < pos {
                    assert(out@[i] == old_out[i]);
                    assert(p[i] == old_p[i]);
                } else if i == pos {
                } else {
                    assert(out@[i] == old_out[i - 1]);
                    assert(p[i] == old_p[i - 1]);
                }
            }
            assert forall|i: int| 0 <= i < n implies 0 <= #[trigger] p[i] < ti.len() by {
                assert(out@[i] == ti[p[i]]);
            }
            assert forall|i: int| 0 <= i < n implies #[trigger] out@[i] == ti[p[i]] by {}
            assert forall|i: int, j: int| 0 <= i < j < n implies #[trigger] p[i] != #[trigger] p[j] by {
                assert(out@[i] == ti[p[i]]);
                assert(out@[j] == ti[p[j]]);
                if i < pos && j < pos {
                } else if i < pos && j == pos {
                } else if i < pos {
                    assert(p[j] == old_p[j - 1]);
                } else if i == pos {
                    assert(p[j] == old_p[j - 1]);
                } else {
                    assert(p[i] == old_p[i - 1]);
                    assert(p[j] == old_p[j - 1]);
                }
            }
            assert forall|i: int, j: int| 0 <= i < j < n implies key(#[trigger] out@[i]) <= key(
                #[trigger] out@[j],
            ) by {
                if j < pos {
                    assert(out@[i] == old_out[i] && out@[j] == old_out[j]);
                } else if j == pos {
                    assert(out@[i] == old_out[i]);
                } else if i < pos {
                    assert(out@[i] == old_out[i] && out@[j] == old_out[j - 1]);
                    assert(old_out[j - 1].0 > x.0);
                } else if i == pos {
                    assert(out@[j] == old_out[j - 1]);
                } else {
                    assert(out@[i] == old_out[i - 1] && out@[j] == old_out[j - 1]);
                }
            }
            assert forall|i: int, j: int|
                #![trigger out@[i], out@[j]]
                0 <= i < j < n && key(out@[i]) == key(out@[j]) implies p[i] < p[j] by {
                if j < pos {
                    assert(out@[i] == old_out[i] && out@[j] == old_out[j]);
                    assert(p[i] == old_p[i] && p[j] == old_p[j]);
                } else if j == pos {
                    assert(out@[i] == old_out[i]);
                    assert(p[i] == old_p[i]);
                } else if i < pos {
                    assert(out@[i] == old_out[i] && out@[j] == old_out[j - 1]);
                    assert(old_out[j - 1].0 > x.0);
                } else if i == pos {
                    assert(out@[j] == old_out[j - 1]);
                    assert(old_out[j - 1].0 > x.0);
                } else {
                    assert(out@[i] == old_out[i - 1] && out@[j] == old_out[j - 1]);
                    assert(p[i] == old_p[i - 1] && p[j] == old_p[j - 1]);
                }
            }
            k = k + 1;
        }
    }
    assert(inp.take(k) =~= inp);
    (out, Ghost(p))
}

/// Moves a stable sort of keyed items over to the items themselves: where
/// `pairs` holds each element of `inp` with its key and `out` takes the items
/// of `sorted` in order, `out` is `inp` sorted by `key` with the same
/// permutation.
pub proof fn lemma_sorted_payload<A>(
    p: Seq<int>,
    sorted: Seq<(u64, A)>,
    pairs: Seq<(u64, A)>,
    out: Seq<A>,
    inp: Seq<A>,
    key: spec_fn(A) -> int,
)
    requires
        sorts_by(p, sorted, pairs, first_key()),
        pairs.len() == inp.len(),
        forall|j: int|
            0 <= j < inp.len() ==> #[trigger] pairs[j].1 == inp[j] && pairs[j].0 as int == key(
                inp[j],
            ),
        out.len() == sorted.len(),
        forall|i: int| 0 <= i < out.len() ==> #[trigger] out[i] == sorted[i].1,
    ensures
        sorts_by(p, out, inp, key),
{
    assert forall|i: int| 0 <= i < out.len() implies #[trigger] out[i] == inp[p[i]] && key(out[i])
        == sorted[i].0 as int by {
        assert(sorted[i] == pairs[p[i]]);
        assert(0 <= p[i] < inp.len());
        assert(pairs[p[i]].1 == inp[p[i]]);
    }
    assert forall|i: int| 0 <= i < out.len() implies 0 <= #[trigger] p[i] < inp.len() by {
        assert(sorted[i] == pairs[p[i]]);
    }
    assert forall|i: int, j: int| 0 <= i < j < out.len() implies key(#[trigger] out[i]) <= key(
        #[trigger] out[j],
    ) by {
        assert(first_key()(sorted[i]) <= first_key()(sorted[j]));
        assert(out[i] == inp[p[i]] && key(out[i]) == sorted[i].0 as int);
        assert(out[j] == inp[p[j]] && key(out[j]) == sorted[j].0 as int);
    }
    assert forall|i: int, j: int|
        #![trigger out[i], out[j]]
        0 <= i < j < out.len() && key(out[i]) == key(out[j]) implies p[i] < p[j] by {
        assert(out[i] == inp[p[i]] && key(out[i]) == sorted[i].0 as int);
        assert(out[j] == inp[p[j]] && key(out[j]) == sorted[j].0 as int);
        assert(first_key()(sorted[i]) == first_key()(sorted[j]));
        assert(sorted[i] == sorted[i]);
    }
}

/// Whether element `a` of `inp` comes before element `b` in a stable sort by
/// `key`: it has the smaller key, or the same key and the smaller position.
pub open spec fn sorted_before<A>(inp: Seq<A>, key: spec_fn(A) -> int, a: int, b: int) -> bool {
    key(inp[a]) < key(inp[b]) || (key(inp[a]) == key(inp[b]) && a < b)
}

/// A sorting permutation uses every position of the input.
proof fn lemma_sorting_permutation_onto<A>(
    p: Seq<int>,
    out: Seq<A>,
    inp: Seq<A>,
    key: spec_fn(A) -> int,
    a: int,
)
    requires
        sorts_by(p, out, inp, key),
        0 <= a < inp.len(),
    ensures
        exists|i: int| 0 <= i < p.len() && p[i] == a,
{
    assert(p.no_duplicates()) by {
        assert forall|i: int, j: int| 0 <= i < p.len() && 0 <= j < p.len() && i != j implies p[i]
            != p[j] by {
            if i < j {
                assert(p[i] != p[j]);
            } else {
                assert(p[j] != p[i]);
            }
        }
    }
    p.unique_seq_to_set();
    vstd::set_lib::lemma_int_range(0, inp.len() as int);
    let range = vstd::set_lib::set_int_range(0, inp.len() as int);
    assert(p.to_set().subset_of(range)) by {
        assert forall|x: int| p.to_set().contains(x) implies range.contains(x) by {
            let i = choose|i: int| 0 <= i < p.len() && p[i] == x;
            assert(0 <= p[i] < inp.len());
        }
    }
    vstd::seq_lib::seq_to_set_is_finite(p);
    vstd::set_lib::lemma_subset_equality(p.to_set(), range);
    assert(range.contains(a));
    assert(p.to_set().contains(a));
}

/// Along a sorting permutation, positions come in `sorted_before` order.
proof fn lemma_sorting_permutation_order<A>(
    p: Seq<int>,
    out: Seq<A>,
    inp: Seq<A>,
    key: spec_fn(A) -> int,
    i: int,
    j: int,
)
    requires
        sorts_by(p, out, inp, key),
        0 <= i < j < out.len(),
    ensures
        sorted_before(inp, key, p[i], p[j]),
{
    assert(out[i] == inp[p[i]]);
    assert(out[j] == inp[p[j]]);
    assert(key(out[i]) <= key(out[j]));
    assert(p[i] != p[j]);
}

proof fn lemma_stable_sorts_agree<A>(
    p1: Seq<int>,
    o1: Seq<A>,
    p2: Seq<int>,
    o2: Seq<A>,
    inp: Seq<A>,
    key: spec_fn(A) -> int,
    i: int,
)
    requires
        sorts_by(p1, o1, inp, key),
        sorts_by(p2, o2, inp, key),
        0 <= i < inp.len(),
    ensures
        forall|j: int| 0 <= j <= i ==> p1[j] == p2[j],
    decreases i,
{
    if i > 0 {
        lemma_stable_sorts_agree(p1, o1, p2, o2, inp, key, i - 1);
    }
    let a = p1[i];
    let b = p2[i];
    if a != b {
        lemma_sorting_permutation_onto(p2, o2, inp, key, a);
        let j = choose|j: int| 0 <= j < p2.len() && p2[j] == a;
        lemma_sorting_permutation_onto(p1, o1, inp, key, b);
        let k = choose|k: int| 0 <= k < p1.len() && p1[k] == b;
        if j < i {
            assert(p1[j] == p2[j]);
            assert(p1[j] != p1[i]);
        }
        if k < i {
            assert(p1[k] == p2[k]);
            assert(p2[k] != p2[i]);
        }
        lemma_sorting_permutation_order(p2, o2, inp, key, i, j);
        lemma_sorting_permutation_order(p1, o1, inp, key, i, k);
        assert(false);
    }
}

/// A stable sort is unique: two stable sorts of the same sequence by the same
/// key are the same sequence.
pub proof fn law_stable_sort_unique<A>(o1: Seq<A>, o2: Seq<A>, inp: Seq<A>, key: spec_fn(A) -> int)
    requires
        is_stable_sort_by(o1, inp, key),
        is_stable_sort_by(o2, inp, key),
    ensures
        o1 == o2,
{
    let p1 = choose|p: Seq<int>| sorts_by(p, o1, inp, key);
    let p2 = choose|p: Seq<int>| sorts_by(p, o2, inp, key);
    if inp.len() > 0 {
        lemma_stable_sorts_agree(p1, o1, p2, o2, inp, key, inp.len() - 1);
    }
    assert forall|i: int| 0 <= i < o1.len() implies o1[i] == o2[i] by {
        assert(o1[i] == inp[p1[i]]);
        assert(o2[i] == inp[p2[i]]);
    }
    assert(o1 =~= o2);
}

/// Sorting what is already stably sorted changes nothing.
pub proof fn law_stable_sort_idempotent<A>(o: Seq<A>, inp: Seq<A>, o2: Seq<A>, key: spec_fn(A) -> int)
    requires
        is_stable_sort_by(o, inp, key),
        is_stable_sort_by(o2, o, key),
    ensures
        o2 == o,
{
    let id = Seq::new(o.len(), |i: int| i);
    assert(sorts_by(id, o, o, key));
    law_stable_sort_unique(o2, o, o, key);
}

} // verus!
