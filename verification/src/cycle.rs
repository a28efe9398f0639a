//! Cycle detection over the use graph, node by node or aggregated at a module
//! level.
//!
//! The detector works on an adjacency representation: one row per node, each
//! entry carrying the target index and the use relation that witnesses the
//! edge. Self-edges are removed when the adjacency is built, so a reported
//! cycle never rests on one. A returned witness is a closed chain of real
//! edges; `None` is returned exactly when the graph is acyclic.

use vstd::prelude::*;
use vstd::seq_lib::*;
use vstd::set_lib::*;
use crate::node::{SpecNode, node_wf_at, tree_wf};
use crate::objects::{SpecRelation, UseRelation};
use crate::resolve::{lemma_object_uses_valid, relation_valid, spec_object_uses};
use crate::tree::ModuleTree;

verus! {

/// Adjacency rows: `g[i]` lists the outgoing edges of node `i` as pairs of
/// target index and witnessing relation.
pub open spec fn g_wf(g: Seq<Seq<(usize, SpecRelation)>>) -> bool {
    forall|i: int, j: int|
        0 <= i < g.len() && 0 <= j < g[i].len() ==> (#[trigger] g[i][j]).0 < g.len() && g[i][j].0
            != i
}

/// The graph has an edge from `a` to `b` witnessed by `rel`.
pub open spec fn w_edge(g: Seq<Seq<(usize, SpecRelation)>>, a: usize, rel: SpecRelation, b: usize) -> bool {
    a < g.len() && exists|j: int| 0 <= j < g[a as int].len() && #[trigger] g[a as int][j] == (b, rel)
}

/// The graph has some edge from `a` to `b`.
pub open spec fn g_step(g: Seq<Seq<(usize, SpecRelation)>>, a: usize, b: usize) -> bool {
    a < g.len() && exists|j: int| 0 <= j < g[a as int].len() && (#[trigger] g[a as int][j]).0 == b
}

/// `b` can be reached from `a` in at most `fuel` steps.
pub open spec fn g_reaches_fuel(
    g: Seq<Seq<(usize, SpecRelation)>>,
    a: usize,
    b: usize,
    fuel: nat,
) -> bool
    decreases fuel,
{
    a == b || (fuel > 0 && exists|t: usize|
        #[trigger] g_step(g, a, t) && g_reaches_fuel(g, t, b, (fuel - 1) as nat))
}

/// `b` can be reached from `a` along the graph's edges.
pub open spec fn g_reaches(g: Seq<Seq<(usize, SpecRelation)>>, a: usize, b: usize) -> bool {
    exists|fuel: nat| g_reaches_fuel(g, a, b, fuel)
}

/// The graph has a cycle: an edge whose target reaches back to its source.
pub open spec fn g_has_cycle(g: Seq<Seq<(usize, SpecRelation)>>) -> bool {
    exists|a: usize, b: usize| #[trigger] g_step(g, a, b) && g_reaches(g, b, a)
}

/// `w` is a simple closed cycle of the graph: its nodes are pairwise
/// distinct, each element's relation is an edge to the next element's node,
/// and the last edge returns to the first node.
pub open spec fn cycle_witness_ok(
    g: Seq<Seq<(usize, SpecRelation)>>,
    w: Seq<(usize, SpecRelation)>,
) -> bool {
    &&& w.len() >= 1
    &&& w_distinct(w)
    &&& forall|k: int| 0 <= k < w.len() - 1 ==> w_edge(g, (#[trigger] w[k]).0, w[k].1, w[k + 1].0)
    &&& w_edge(g, w.last().0, w.last().1, w[0].0)
}

/// Chain shape of a search path: every node is in range, and consecutive
/// elements are joined by the recorded edges.
pub open spec fn wchain(g: Seq<Seq<(usize, SpecRelation)>>, w: Seq<(usize, SpecRelation)>) -> bool {
    &&& forall|k: int| 0 <= k < w.len() ==> (#[trigger] w[k]).0 < g.len()
    &&& forall|k: int| 0 <= k < w.len() - 1 ==> w_edge(g, (#[trigger] w[k]).0, w[k].1, w[k + 1].0)
}

/// No node index occurs twice on the path.
pub open spec fn w_distinct(w: Seq<(usize, SpecRelation)>) -> bool {
    forall|k1: int, k2: int| 0 <= k1 < k2 < w.len() ==> (#[trigger] w[k1]).0 != (#[trigger] w[k2]).0
}

/// `x` is one of the path's node indices.
pub open spec fn idx_in(w: Seq<(usize, SpecRelation)>, x: usize) -> bool {
    exists|k: int| 0 <= k < w.len() && (#[trigger] w[k]).0 == x
}

/// The tail of a cycle witness reaches back to the witness's first node.
proof fn lemma_witness_tail_reaches(
    g: Seq<Seq<(usize, SpecRelation)>>,
    w: Seq<(usize, SpecRelation)>,
    k: int,
)
    requires
        cycle_witness_ok(g, w),
        0 <= k < w.len(),
    ensures
        g_reaches(g, w[k].0, w[0].0),
    decreases w.len() - k,
{
    if k == w.len() - 1 {
        assert(w_edge(g, w.last().0, w.last().1, w[0].0));
        assert(g_step(g, w[k].0, w[0].0));
        assert(g_reaches_fuel(g, w[0].0, w[0].0, 0));
        assert(g_reaches_fuel(g, w[k].0, w[0].0, 1));
    } else {
        lemma_witness_tail_reaches(g, w, k + 1);
        assert(w_edge(g, w[k].0, w[k].1, w[k + 1].0));
        assert(g_step(g, w[k].0, w[k + 1].0));
        let fuel = choose|fuel: nat| #[trigger] g_reaches_fuel(g, w[k + 1].0, w[0].0, fuel);
        assert(g_reaches_fuel(g, w[k].0, w[0].0, fuel + 1));
    }
}

/// A well-shaped cycle witness proves that the graph has a cycle.
pub proof fn lemma_witness_implies_cycle(
    g: Seq<Seq<(usize, SpecRelation)>>,
    w: Seq<(usize, SpecRelation)>,
)
    requires
        cycle_witness_ok(g, w),
    ensures
        g_has_cycle(g),
{
    if w.len() == 1 {
        assert(w_edge(g, w.last().0, w.last().1, w[0].0));
        assert(g_step(g, w[0].0, w[0].0));
        assert(g_reaches_fuel(g, w[0].0, w[0].0, 0));
        assert(g_reaches(g, w[0].0, w[0].0));
    } else {
        assert(w_edge(g, w[0].0, w[0].1, w[1].0));
        assert(g_step(g, w[0].0, w[1].0));
        lemma_witness_tail_reaches(g, w, 1);
    }
}

/// A path of distinct in-range nodes avoiding `current` leaves room for one
/// more node.
proof fn lemma_visited_bound(
    g: Seq<Seq<(usize, SpecRelation)>>,
    w: Seq<(usize, SpecRelation)>,
    current: usize,
)
    requires
        w_distinct(w),
        forall|k: int| 0 <= k < w.len() ==> (#[trigger] w[k]).0 < g.len(),
        current < g.len(),
        !idx_in(w, current),
    ensures
        w.len() < g.len(),
{
    let idxs = w.map_values(|p: (usize, SpecRelation)| p.0 as int).push(current as int);
    assert(idxs.no_duplicates()) by {
        assert forall|k1: int, k2: int| 0 <= k1 < idxs.len() && 0 <= k2 < idxs.len() && k1 != k2
            implies idxs[k1] != idxs[k2] by {
            if k1 < k2 < idxs.len() - 1 {
                assert(w[k1].0 != w[k2].0);
            } else if k2 < k1 < idxs.len() - 1 {
                assert(w[k2].0 != w[k1].0);
            } else if k1 == idxs.len() - 1 {
                assert(idxs[k1] == current as int);
                assert(w[k2].0 != current);
            } else {
                assert(idxs[k2] == current as int);
                assert(w[k1].0 != current);
            }
        }
    }
    idxs.unique_seq_to_set();
    assert(idxs.to_set().subset_of(set_int_range(0, g.len() as int))) by {
        assert forall|x: int| idxs.to_set().contains(x) implies set_int_range(
            0,
            g.len() as int,
        ).contains(x) by {
            let k = choose|k: int| 0 <= k < idxs.len() && idxs[k] == x;
            if k < idxs.len() - 1 {
                assert(w[k].0 < g.len());
            }
        }
    }
    lemma_int_range(0, g.len() as int);
    lemma_len_subset(idxs.to_set(), set_int_range(0, g.len() as int));
    assert(idxs.len() == w.len() + 1);
}

/// Whether `x` occurs among the path's node indices.
fn contains_idx(visited: &Vec<(usize, UseRelation)>, x: usize) -> (res: bool)
    ensures
        res == idx_in(visited.deep_view(), x),
{
    let mut k: usize = 0;
    proof {
        assert(visited.deep_view().len() == visited@.len());
    }
    while k < visited.len()
        invariant
            k <= visited@.len(),
            visited.deep_view().len() == visited@.len(),
            forall|k2: int| 0 <= k2 < k ==> (#[trigger] visited.deep_view()[k2]).0 != x,
        decreases visited@.len() - k,
    {
        proof {
            assert(visited.deep_view()[k as int].0 == visited@[k as int].0);
        }
        if visited[k].0 == x {
            return true;
        }
        k = k + 1;
    }
    false
}

/// Depth-first search from `current` along the graph's edges, extending the
/// path in `visited`. Returns the re-entered node when the search closes a
/// cycle; otherwise restores `visited` and guarantees that no node of the
/// path can be reached from `current`.
fn g_find_traverse(
    g: &Vec<Vec<(usize, UseRelation)>>,
    visited: &mut Vec<(usize, UseRelation)>,
    current: usize,
) -> (res: Option<usize>)
    requires
        g_wf(g.deep_view()),
        current < g@.len(),
        old(visited)@.len() >= 1,
        wchain(g.deep_view(), old(visited).deep_view()),
        w_distinct(old(visited).deep_view()),
        w_edge(
            g.deep_view(),
            old(visited).deep_view().last().0,
            old(visited).deep_view().last().1,
            current,
        ),
    ensures
        match res {
            Some(r) => wchain(g.deep_view(), final(visited).deep_view())
                && final(visited).deep_view().len() >= 1
                && w_distinct(final(visited).deep_view())
                && old(visited).deep_view().is_prefix_of(final(visited).deep_view())
                && idx_in(final(visited).deep_view(), r)
                && w_edge(
                    g.deep_view(),
                    final(visited).deep_view().last().0,
                    final(visited).deep_view().last().1,
                    r,
                ),
            None => final(visited)@ == old(visited)@ && (forall|b: usize|
                idx_in(old(visited).deep_view(), b) ==> !g_reaches(g.deep_view(), current, b)),
        },
    decreases g@.len() - old(visited)@.len(),
{
    let ghost gg = g.deep_view();
    let ghost w0 = visited.deep_view();
    proof {
        assert(visited.deep_view().len() == visited@.len());
        assert(gg.len() == g@.len());
    }
    if contains_idx(visited, current) {
        proof {
            assert(w0 =~= visited.deep_view().subrange(0, w0.len() as int));
            assert(w0.is_prefix_of(visited.deep_view()));
        }
        return Some(current);
    }
    proof {
        lemma_visited_bound(gg, w0, current);
    }
    let row_len = g[current].len();
    let mut j: usize = 0;
    while j < row_len
        invariant
            g_wf(gg),
            gg == g.deep_view(),
            current < g@.len(),
            row_len == gg[current as int].len(),
            j <= row_len,
            visited.deep_view() == w0,
            w0 == old(visited).deep_view(),
            visited@ == old(visited)@,
            w0.len() >= 1,
            w0.len() < gg.len(),
            wchain(gg, w0),
            w_distinct(w0),
            !idx_in(w0, current),
            w_edge(gg, w0.last().0, w0.last().1, current),
            forall|jj: int|
                0 <= jj < j ==> forall|b: usize|
                    (idx_in(w0, b) || b == current) ==> !g_reaches(
                        gg,
                        (#[trigger] gg[current as int][jj]).0,
                        b,
                    ),
        decreases row_len - j,
    {
        let e_tgt = g[current][j].0;
        let e_rel = g[current][j].1.clone();
        proof {
            assert(gg[current as int][j as int] == (e_tgt, e_rel@));
            assert(e_tgt < gg.len());
            assert(e_tgt != current);
        }
        let ghost pre = visited.deep_view();
        visited.push((current, e_rel));
        proof {
            assert(visited.deep_view() =~= pre.push((current, gg[current as int][j as int].1)));
            let w1 = visited.deep_view();
            assert(w1.last() == (current, gg[current as int][j as int].1));
            assert forall|k: int| 0 <= k < w1.len() - 1 implies w_edge(
                gg,
                (#[trigger] w1[k]).0,
                w1[k].1,
                w1[k + 1].0,
            ) by {
                if k < w1.len() - 2 {
                    assert(w1[k] == w0[k]);
                    assert(w1[k + 1] == w0[k + 1]);
                } else {
                    assert(w1[k] == w0.last());
                    assert(w1[k + 1].0 == current);
                }
            }
            assert(w_edge(gg, current, gg[current as int][j as int].1, e_tgt));
        }
        match g_find_traverse(g, visited, e_tgt) {
            Some(r) => {
                proof {
                    let pushed = pre.push((current, gg[current as int][j as int].1));
                    let fin = visited.deep_view();
                    assert(pushed.is_prefix_of(fin));
                    assert(pushed =~= fin.subrange(0, pushed.len() as int));
                    assert(w0 =~= pushed.subrange(0, w0.len() as int));
                    assert(w0 =~= fin.subrange(0, w0.len() as int));
                    assert(w0.is_prefix_of(fin));
                }
                return Some(r);
            },
            None => {
                let _dropped = visited.pop();
                proof {
                    assert(visited.deep_view() =~= pre);
                    assert(visited@ == old(visited)@);
                    assert forall|b: usize| (idx_in(w0, b) || b == current) implies !g_reaches(
                        gg,
                        gg[current as int][j as int].0,
                        b,
                    ) by {
                        let pushed = pre.push((current, gg[current as int][j as int].1));
                        if b == current {
                            assert(pushed[pushed.len() - 1].0 == current);
                            assert(idx_in(pushed, b));
                        } else {
                            let kk = choose|kk: int| 0 <= kk < w0.len() && (#[trigger] w0[kk]).0 == b;
                            assert(pushed[kk] == w0[kk]);
                            assert(idx_in(pushed, b));
                        }
                    }
                }
            },
        }
        j = j + 1;
    }
    proof {
        assert forall|b: usize| idx_in(w0, b) implies !g_reaches(gg, current, b) by {
            if g_reaches(gg, current, b) {
                let fuel = choose|fuel: nat| #[trigger] g_reaches_fuel(gg, current, b, fuel);
                assert(current != b);
                assert(fuel > 0);
                let t = choose|t: usize|
                    #[trigger] g_step(gg, current, t) && g_reaches_fuel(gg, t, b, (fuel - 1) as nat);
                let jj = choose|jj: int|
                    0 <= jj < gg[current as int].len() && (#[trigger] gg[current as int][jj]).0 == t;
                assert(!g_reaches(gg, t, b));
                assert(g_reaches_fuel(gg, t, b, (fuel - 1) as nat));
            }
        }
    }
    None
}

/// Clones the suffix of the path that starts at the first occurrence of node
/// `r`.
fn truncate_witness(visited: &Vec<(usize, UseRelation)>, r: usize) -> (res: Vec<
    (usize, UseRelation),
>)
    requires
        idx_in(visited.deep_view(), r),
    ensures
        exists|k: int|
            0 <= k < visited.deep_view().len() && (#[trigger] visited.deep_view()[k]).0 == r
                && res.deep_view() == visited.deep_view().skip(k),
{
    let ghost wv = visited.deep_view();
    let mut k: usize = 0;
    proof {
        assert(wv.len() == visited@.len());
        let kk = choose|kk: int| 0 <= kk < wv.len() && wv[kk].0 == r;
    }
    while k < visited.len() && visited[k].0 != r
        invariant
            wv == visited.deep_view(),
            wv.len() == visited@.len(),
            k <= wv.len(),
            forall|k2: int| 0 <= k2 < k ==> (#[trigger] wv[k2]).0 != r,
            idx_in(wv, r),
        decreases visited@.len() - k,
    {
        proof {
            assert(wv[k as int].0 == visited@[k as int].0);
        }
        k = k + 1;
    }
    proof {
        let kk = choose|kk: int| 0 <= kk < wv.len() && wv[kk].0 == r;
        assert(k < wv.len());
        assert(wv[k as int].0 == visited@[k as int].0);
        assert(wv[k as int].0 == r);
    }
    let ghost kstart = k as int;
    let mut res: Vec<(usize, UseRelation)> = Vec::new();
    let mut m: usize = k;
    proof {
        assert(res.deep_view() =~= wv.subrange(kstart, kstart));
    }
    while m < visited.len()
        invariant
            wv == visited.deep_view(),
            wv.len() == visited@.len(),
            0 <= kstart <= m <= wv.len(),
            res.deep_view() == wv.subrange(kstart, m as int),
        decreases visited@.len() - m,
    {
        let ghost pre = res.deep_view();
        let pair = (visited[m].0, visited[m].1.clone());
        proof {
            assert(wv[m as int] == (visited@[m as int].0, visited@[m as int].1@));
        }
        res.push(pair);
        proof {
            assert(res.deep_view() =~= pre.push(wv[m as int]));
            assert(res.deep_view() =~= wv.subrange(kstart, m as int + 1));
        }
        m = m + 1;
    }
    proof {
        assert(res.deep_view() =~= wv.skip(kstart));
        assert(wv[kstart].0 == r);
    }
    res
}

/// Finds a cycle in the adjacency graph: tries every node in index order and
/// every outgoing edge in row order, and returns the first closed cycle,
/// truncated to begin at the re-entered node. Returns `None` exactly when the
/// graph is acyclic.
pub fn g_find_cycle(g: &Vec<Vec<(usize, UseRelation)>>) -> (res: Option<Vec<(usize, UseRelation)>>)
    requires
        g_wf(g.deep_view()),
    ensures
        match res {
            Some(w) => cycle_witness_ok(g.deep_view(), w.deep_view()) && w.deep_view().len() >= 2,
            None => !g_has_cycle(g.deep_view()),
        },
{
    let ghost gg = g.deep_view();
    proof {
        assert(gg.len() == g@.len());
    }
    let mut i: usize = 0;
    while i < g.len()
        invariant
            g_wf(gg),
            gg == g.deep_view(),
            i <= g@.len(),
            gg.len() == g@.len(),
            forall|a: int, jj: int|
                0 <= a < i && 0 <= jj < gg[a].len() ==> !g_reaches(
                    gg,
                    (#[trigger] gg[a][jj]).0,
                    a as usize,
                ),
        decreases g@.len() - i,
    {
        let row_len = g[i].len();
        let mut j: usize = 0;
        while j < row_len
            invariant
                g_wf(gg),
                gg == g.deep_view(),
                i < g@.len(),
                gg.len() == g@.len(),
                row_len == gg[i as int].len(),
                j <= row_len,
                forall|a: int, jj: int|
                    0 <= a < i && 0 <= jj < gg[a].len() ==> !g_reaches(
                        gg,
                        (#[trigger] gg[a][jj]).0,
                        a as usize,
                    ),
                forall|jj: int|
                    0 <= jj < j ==> !g_reaches(gg, (#[trigger] gg[i as int][jj]).0, i),
            decreases row_len - j,
        {
            let e_tgt = g[i][j].0;
            let e_rel = g[i][j].1.clone();
            proof {
                assert(gg[i as int][j as int] == (e_tgt, e_rel@));
            }
            let mut visited: Vec<(usize, UseRelation)> = Vec::new();
            visited.push((i, e_rel));
            proof {
                assert(visited.deep_view() =~= seq![(i, gg[i as int][j as int].1)]);
                assert(w_edge(gg, i, gg[i as int][j as int].1, e_tgt));
                assert(visited.deep_view()[0].0 == i);
                assert(idx_in(visited.deep_view(), i));
            }
            match g_find_traverse(g, &mut visited, e_tgt) {
                Some(r) => {
                    let ghost wv = visited.deep_view();
                    let w = truncate_witness(&visited, r);
                    proof {
                        let k = choose|k: int|
                            0 <= k < wv.len() && (#[trigger] wv[k]).0 == r && w.deep_view()
                                == wv.skip(k);
                        let wd = w.deep_view();
                        assert(wd.len() >= 1);
                        assert forall|kk: int| 0 <= kk < wd.len() - 1 implies w_edge(
                            gg,
                            (#[trigger] wd[kk]).0,
                            wd[kk].1,
                            wd[kk + 1].0,
                        ) by {
                            assert(wd[kk] == wv[k + kk]);
                            assert(wd[kk + 1] == wv[k + kk + 1]);
                        }
                        assert(wd.last() == wv.last());
                        assert(wd[0].0 == r);
                        assert(w_edge(gg, wd.last().0, wd.last().1, wd[0].0));
                        if wd.len() == 1 {
                            let a = wd[0].0;
                            let jj = choose|jj: int|
                                0 <= jj < gg[a as int].len() && #[trigger] gg[a as int][jj] == (
                                    a,
                                    wd[0].1,
                                );
                            assert(false);
                        }
                    }
                    return Some(w);
                },
                None => {
                    proof {
                        assert(visited.deep_view() =~= seq![(i, gg[i as int][j as int].1)]);
                        assert(visited.deep_view()[0].0 == i);
                        assert(idx_in(visited.deep_view(), i));
                        assert(!g_reaches(gg, e_tgt, i));
                    }
                },
            }
            j = j + 1;
        }
        i = i + 1;
    }
    proof {
        if g_has_cycle(gg) {
            let (a, b) = choose|a: usize, b: usize| #[trigger] g_step(gg, a, b) && g_reaches(gg, b, a);
            let jj = choose|jj: int|
                0 <= jj < gg[a as int].len() && (#[trigger] gg[a as int][jj]).0 == b;
            assert(!g_reaches(gg, b, a));
        }
    }
    None
}

/// The non-self edges among a node's relations, from position `k` on, as
/// adjacency entries.
pub open spec fn spec_filter_non_self(rels: Seq<SpecRelation>, i: usize, k: int) -> Seq<
    (usize, SpecRelation),
>
    decreases rels.len() - k,
{
    if 0 <= k < rels.len() {
        (if rels[k].owner_node_index != i as int {
            seq![((rels[k].owner_node_index as usize), rels[k])]
        } else {
            Seq::empty()
        }) + spec_filter_non_self(rels, i, k + 1)
    } else {
        Seq::empty()
    }
}

/// The use graph of the tree with self-edges removed: row `i` holds node
/// `i`'s resolved relations to other nodes.
pub open spec fn spec_adj(tree: Seq<SpecNode>, with_implicit: bool) -> Seq<
    Seq<(usize, SpecRelation)>,
> {
    Seq::new(tree.len(), |a: int| spec_filter_non_self(spec_object_uses(tree, a, with_implicit), a as usize, 0))
}

proof fn lemma_filter_entries(rels: Seq<SpecRelation>, i: usize, k: int)
    requires
        forall|j: int|
            0 <= j < rels.len() ==> 0 <= (#[trigger] rels[j]).owner_node_index <= usize::MAX as int,
    ensures
        forall|j: int|
            0 <= j < spec_filter_non_self(rels, i, k).len() ==> {
                let e = #[trigger] spec_filter_non_self(rels, i, k)[j];
                e.0 != i && e.0 as int == e.1.owner_node_index && rels.contains(e.1)
            },
    decreases rels.len() - k,
{
    if 0 <= k < rels.len() {
        lemma_filter_entries(rels, i, k + 1);
        let here = if rels[k].owner_node_index != i as int {
            seq![((rels[k].owner_node_index as usize), rels[k])]
        } else {
            Seq::<(usize, SpecRelation)>::empty()
        };
        let rest = spec_filter_non_self(rels, i, k + 1);
        assert(rels.contains(rels[k]));
        assert forall|j: int| 0 <= j < spec_filter_non_self(rels, i, k).len() implies {
            let e = #[trigger] spec_filter_non_self(rels, i, k)[j];
            e.0 != i && e.0 as int == e.1.owner_node_index && rels.contains(e.1)
        } by {
            if j < here.len() {
                assert(spec_filter_non_self(rels, i, k)[j] == here[j]);
            } else {
                assert(spec_filter_non_self(rels, i, k)[j] == rest[j - here.len()]);
            }
        }
    }
}

/// The use graph's adjacency is well-formed: every edge stays inside the tree
/// and no self-edges remain.
pub proof fn lemma_adj_wf(tree: Seq<SpecNode>, with_implicit: bool)
    requires
        tree.len() <= usize::MAX as int,
    ensures
        g_wf(spec_adj(tree, with_implicit)),
        spec_adj(tree, with_implicit).len() == tree.len(),
{
    let g = spec_adj(tree, with_implicit);
    assert forall|i: int, j: int| 0 <= i < g.len() && 0 <= j < g[i].len() implies (
    #[trigger] g[i][j]).0 < g.len() && g[i][j].0 != i by {
        let rels = spec_object_uses(tree, i, with_implicit);
        lemma_object_uses_valid(tree, i, with_implicit);
        lemma_filter_entries(rels, i as usize, 0);
        let e = g[i][j];
        let jj = choose|jj: int| 0 <= jj < rels.len() && rels[jj] == e.1;
        assert(relation_valid(tree, rels[jj]));
    }
}

/// A self-edge never contributes to a cycle: the graph the detector searches
/// holds no edge from a node to itself, at the node level or at any
/// aggregation level.
pub proof fn lemma_self_edges_removed(tree: Seq<SpecNode>, with_implicit: bool, lvl: int)
    requires
        tree.len() <= usize::MAX as int,
    ensures
        forall|i: int, j: int|
            0 <= i < spec_adj(tree, with_implicit).len() && 0 <= j < spec_adj(
                tree,
                with_implicit,
            )[i].len() ==> (#[trigger] spec_adj(tree, with_implicit)[i][j]).0 != i,
        forall|i: int, j: int|
            0 <= i < spec_level_adj(tree, lvl).len() && 0 <= j < spec_level_adj(tree, lvl)[i].len()
                ==> (#[trigger] spec_level_adj(tree, lvl)[i][j]).0 != i,
{
    lemma_adj_wf(tree, with_implicit);
    lemma_level_adj_wf(tree, lvl);
}

/// Builds the adjacency rows of the use graph, self-edges removed.
fn build_adjacency(module_tree: &ModuleTree, with_implicit: bool) -> (res: Vec<
    Vec<(usize, UseRelation)>,
>)
    requires
        module_tree.wf(),
    ensures
        res.deep_view() == spec_adj(module_tree.spec_tree(), with_implicit),
{
    let ghost tv = module_tree.spec_tree();
    let tree = module_tree.tree();
    let pus = module_tree.possible_uses();
    let mut adj: Vec<Vec<(usize, UseRelation)>> = Vec::new();
    let mut i: usize = 0;
    while i < tree.len()
        invariant
            module_tree.wf(),
            tv == module_tree.spec_tree(),
            tree == &module_tree.tree,
            pus == &module_tree.possible_uses,
            i <= tree@.len(),
            tv.len() == tree@.len(),
            adj.deep_view().len() == i as int,
            forall|a: int|
                0 <= a < i ==> adj.deep_view()[a] == spec_adj(tv, with_implicit)[a],
        decreases tree@.len() - i,
    {
        proof {
            assert(node_wf_at(tv, i as int));
            assert(tv[i as int].index == i as int);
        }
        let rels = tree[i].object_uses(tree, pus, with_implicit);
        let ghost relsd = rels.deep_view();
        let mut row: Vec<(usize, UseRelation)> = Vec::new();
        let mut k: usize = 0;
        proof {
            assert(row.deep_view() =~= Seq::<(usize, SpecRelation)>::empty());
            assert(row.deep_view() + spec_filter_non_self(relsd, i, 0) =~= spec_filter_non_self(
                relsd,
                i,
                0,
            ));
        }
        while k < rels.len()
            invariant
                relsd == rels.deep_view(),
                k <= rels@.len(),
                relsd.len() == rels@.len(),
                row.deep_view() + spec_filter_non_self(relsd, i, k as int) == spec_filter_non_self(
                    relsd,
                    i,
                    0,
                ),
            decreases rels@.len() - k,
        {
            let ghost pre = row.deep_view();
            proof {
                assert(rels@[k as int]@ == relsd[k as int]);
            }
            if rels[k].owner_node_index != i {
                let tgt = rels[k].owner_node_index;
                let rel = rels[k].clone();
                row.push((tgt, rel));
                proof {
                    assert(row.deep_view() =~= pre.push((tgt, relsd[k as int])));
                }
            }
            proof {
                assert(spec_filter_non_self(relsd, i, k as int) == (if relsd[k as int].owner_node_index
                    != i as int {
                    seq![((relsd[k as int].owner_node_index as usize), relsd[k as int])]
                } else {
                    Seq::<(usize, SpecRelation)>::empty()
                }) + spec_filter_non_self(relsd, i, k as int + 1));
                assert(pre + spec_filter_non_self(relsd, i, k as int) =~= row.deep_view()
                    + spec_filter_non_self(relsd, i, k as int + 1));
            }
            k = k + 1;
        }
        proof {
            assert(spec_filter_non_self(relsd, i, k as int) =~= Seq::<(usize, SpecRelation)>::empty());
            assert(row.deep_view() =~= row.deep_view() + spec_filter_non_self(relsd, i, k as int));
            assert(row.deep_view() == spec_adj(tv, with_implicit)[i as int]);
        }
        let ghost adj_pre = adj.deep_view();
        let ghost rowd = row.deep_view();
        adj.push(row);
        proof {
            assert(adj.deep_view() =~= adj_pre.push(rowd));
        }
        i = i + 1;
    }
    proof {
        assert(adj.deep_view() =~= spec_adj(tv, with_implicit));
    }
    adj
}

/// Searches the use graph — every resolved relation, implicit uses included,
/// self-edges removed — for a cycle. Returns a closed witness cycle beginning
/// at the re-entered node, or `None` exactly when that graph is acyclic.
pub fn contains_cyclic_dependency(module_tree: &ModuleTree) -> (res: Option<
    Vec<(usize, UseRelation)>,
>)
    requires
        module_tree.wf(),
    ensures
        match res {
            Some(w) => cycle_witness_ok(spec_adj(module_tree.spec_tree(), true), w.deep_view())
                && w.deep_view().len() >= 2,
            None => !g_has_cycle(spec_adj(module_tree.spec_tree(), true)),
        },
{
    let n = module_tree.tree().len();
    proof {
        assert(module_tree.spec_tree().len() == n as int);
        lemma_adj_wf(module_tree.spec_tree(), true);
    }
    let adj = build_adjacency(module_tree, true);
    g_find_cycle(&adj)
}

/// The ancestor of node `d` that sits at level `lvl`: `d` itself when its
/// level is `lvl`, otherwise found by walking up the parents; `None` when `d`
/// lies above that level.
pub open spec fn spec_ancestor_at(tree: Seq<SpecNode>, d: int, lvl: int) -> Option<int>
    decreases d,
{
    if 0 <= d < tree.len() {
        if tree[d].level == lvl {
            Some(d)
        } else if tree[d].level < lvl {
            None
        } else {
            match tree[d].parent_index {
                Some(p) => if 0 <= p < d {
                    spec_ancestor_at(tree, p, lvl)
                } else {
                    None
                },
                None => None,
            }
        }
    } else {
        None
    }
}

proof fn lemma_ancestor_valid(tree: Seq<SpecNode>, d: int, lvl: int)
    ensures
        match spec_ancestor_at(tree, d, lvl) {
            Some(t) => 0 <= t < tree.len() && tree[t].level == lvl,
            None => true,
        },
    decreases d,
{
    if 0 <= d < tree.len() && tree[d].level > lvl {
        match tree[d].parent_index {
            Some(p) => if 0 <= p < d {
                lemma_ancestor_valid(tree, p, lvl);
            },
            None => {},
        }
    }
}

fn ancestor_at(tree: &Vec<crate::node::ModuleNode>, d: usize, lvl: usize) -> (res: Option<usize>)
    requires
        tree_wf(crate::node::tree_view(tree@)),
        d < tree@.len(),
    ensures
        match res {
            Some(t) => spec_ancestor_at(crate::node::tree_view(tree@), d as int, lvl as int)
                == Some(t as int) && t < tree@.len(),
            None => spec_ancestor_at(crate::node::tree_view(tree@), d as int, lvl as int) is None,
        },
    decreases d,
{
    let ghost tv = crate::node::tree_view(tree@);
    proof {
        assert(node_wf_at(tv, d as int));
    }
    if tree[d].level == lvl {
        Some(d)
    } else if tree[d].level < lvl {
        None
    } else {
        match tree[d].parent_index {
            Some(p) => ancestor_at(tree, p, lvl),
            None => None,
        }
    }
}

/// The aggregate edges of a level-`lvl` node `i`, built from its relations
/// (implicit uses included) from position `k` on: each target is mapped to
/// its ancestor at level `lvl`; targets inside `i`'s own subtree or outside
/// every level-`lvl` subtree contribute no edge.
pub open spec fn spec_level_filter_from(
    tree: Seq<SpecNode>,
    rels: Seq<SpecRelation>,
    i: usize,
    lvl: int,
    k: int,
) -> Seq<(usize, SpecRelation)>
    decreases rels.len() - k,
{
    if 0 <= k < rels.len() {
        (match spec_ancestor_at(tree, rels[k].owner_node_index, lvl) {
            Some(t) => if t != i as int {
                seq![((t as usize), rels[k])]
            } else {
                Seq::empty()
            },
            None => Seq::empty(),
        }) + spec_level_filter_from(tree, rels, i, lvl, k + 1)
    } else {
        Seq::empty()
    }
}

/// The aggregate use graph at level `lvl`: rows exist for level-`lvl` nodes
/// only, and every edge is mapped through the target's ancestor at that
/// level. An aggregate's edges are drawn from the level-`lvl` node's own
/// resolved relations — its file together with its inline sub-modules — not
/// from the relations of the file modules below it.
pub open spec fn spec_level_adj(tree: Seq<SpecNode>, lvl: int) -> Seq<Seq<(usize, SpecRelation)>> {
    Seq::new(
        tree.len(),
        |a: int|
            if tree[a].level == lvl {
                spec_level_filter_from(tree, spec_object_uses(tree, a, true), a as usize, lvl, 0)
            } else {
                Seq::empty()
            },
    )
}

proof fn lemma_level_filter_entries(
    tree: Seq<SpecNode>,
    rels: Seq<SpecRelation>,
    i: usize,
    lvl: int,
    k: int,
)
    requires
        tree.len() <= usize::MAX as int,
    ensures
        forall|j: int|
            0 <= j < spec_level_filter_from(tree, rels, i, lvl, k).len() ==> {
                let e = #[trigger] spec_level_filter_from(tree, rels, i, lvl, k)[j];
                e.0 != i && (e.0 as int) < tree.len()
            },
    decreases rels.len() - k,
{
    if 0 <= k < rels.len() {
        lemma_level_filter_entries(tree, rels, i, lvl, k + 1);
        lemma_ancestor_valid(tree, rels[k].owner_node_index, lvl);
        let here = match spec_ancestor_at(tree, rels[k].owner_node_index, lvl) {
            Some(t) => if t != i as int {
                seq![((t as usize), rels[k])]
            } else {
                Seq::<(usize, SpecRelation)>::empty()
            },
            None => Seq::<(usize, SpecRelation)>::empty(),
        };
        let rest = spec_level_filter_from(tree, rels, i, lvl, k + 1);
        assert forall|j: int| 0 <= j < spec_level_filter_from(tree, rels, i, lvl, k).len() implies {
            let e = #[trigger] spec_level_filter_from(tree, rels, i, lvl, k)[j];
            e.0 != i && (e.0 as int) < tree.len()
        } by {
            if j < here.len() {
                assert(spec_level_filter_from(tree, rels, i, lvl, k)[j] == here[j]);
            } else {
                assert(spec_level_filter_from(tree, rels, i, lvl, k)[j] == rest[j - here.len()]);
            }
        }
    }
}

/// The aggregate graph at any level is well-formed.
pub proof fn lemma_level_adj_wf(tree: Seq<SpecNode>, lvl: int)
    requires
        tree.len() <= usize::MAX as int,
    ensures
        g_wf(spec_level_adj(tree, lvl)),
        spec_level_adj(tree, lvl).len() == tree.len(),
{
    let g = spec_level_adj(tree, lvl);
    assert forall|i: int, j: int| 0 <= i < g.len() && 0 <= j < g[i].len() implies (
    #[trigger] g[i][j]).0 < g.len() && g[i][j].0 != i by {
        if tree[i].level == lvl {
            lemma_level_filter_entries(tree, spec_object_uses(tree, i, true), i as usize, lvl, 0);
        }
    }
}

/// Builds the aggregate adjacency rows for level `lvl`.
fn build_level_adjacency(module_tree: &ModuleTree, lvl: usize) -> (res: Vec<
    Vec<(usize, UseRelation)>,
>)
    requires
        module_tree.wf(),
    ensures
        res.deep_view() == spec_level_adj(module_tree.spec_tree(), lvl as int),
{
    let ghost tv = module_tree.spec_tree();
    let tree = module_tree.tree();
    let pus = module_tree.possible_uses();
    let mut adj: Vec<Vec<(usize, UseRelation)>> = Vec::new();
    let mut i: usize = 0;
    while i < tree.len()
        invariant
            module_tree.wf(),
            tv == module_tree.spec_tree(),
            tree == &module_tree.tree,
            pus == &module_tree.possible_uses,
            i <= tree@.len(),
            tv.len() == tree@.len(),
            adj.deep_view().len() == i as int,
            forall|a: int|
                0 <= a < i ==> adj.deep_view()[a] == spec_level_adj(tv, lvl as int)[a],
        decreases tree@.len() - i,
    {
        proof {
            assert(node_wf_at(tv, i as int));
            assert(tv[i as int].index == i as int);
        }
        let mut row: Vec<(usize, UseRelation)> = Vec::new();
        if tree[i].level == lvl {
            let rels = tree[i].object_uses(tree, pus, true);
            let ghost relsd = rels.deep_view();
            let mut k: usize = 0;
            proof {
                assert(row.deep_view() =~= Seq::<(usize, SpecRelation)>::empty());
                assert(row.deep_view() + spec_level_filter_from(tv, relsd, i, lvl as int, 0)
                    =~= spec_level_filter_from(tv, relsd, i, lvl as int, 0));
            }
            while k < rels.len()
                invariant
                    tv == module_tree.spec_tree(),
                    tree == &module_tree.tree,
                    tree_wf(tv),
                    i < tree@.len(),
                    tv.len() == tree@.len(),
                    relsd == rels.deep_view(),
                    k <= rels@.len(),
                    relsd.len() == rels@.len(),
                    row.deep_view() + spec_level_filter_from(tv, relsd, i, lvl as int, k as int)
                        == spec_level_filter_from(tv, relsd, i, lvl as int, 0),
                decreases rels@.len() - k,
            {
                let ghost pre = row.deep_view();
                proof {
                    assert(rels@[k as int]@ == relsd[k as int]);
                }
                let tgt_node = rels[k].owner_node_index;
                if tgt_node < tree.len() {
                    match ancestor_at(tree, tgt_node, lvl) {
                        Some(t) => {
                            if t != i {
                                let rel = rels[k].clone();
                                row.push((t, rel));
                                proof {
                                    assert(row.deep_view() =~= pre.push((t, relsd[k as int])));
                                }
                            }
                        },
                        None => {},
                    }
                }
                proof {
                    if tgt_node >= tree.len() {
                        assert(spec_ancestor_at(tv, relsd[k as int].owner_node_index, lvl as int)
                            is None);
                    }
                    assert(spec_level_filter_from(tv, relsd, i, lvl as int, k as int)
                        == (match spec_ancestor_at(tv, relsd[k as int].owner_node_index, lvl as int) {
                        Some(t) => if t != i as int {
                            seq![((t as usize), relsd[k as int])]
                        } else {
                            Seq::<(usize, SpecRelation)>::empty()
                        },
                        None => Seq::<(usize, SpecRelation)>::empty(),
                    }) + spec_level_filter_from(tv, relsd, i, lvl as int, k as int + 1));
                    assert(pre + spec_level_filter_from(tv, relsd, i, lvl as int, k as int)
                        =~= row.deep_view() + spec_level_filter_from(
                        tv,
                        relsd,
                        i,
                        lvl as int,
                        k as int + 1,
                    ));
                }
                k = k + 1;
            }
            proof {
                assert(spec_level_filter_from(tv, relsd, i, lvl as int, k as int)
                    =~= Seq::<(usize, SpecRelation)>::empty());
                assert(row.deep_view() =~= row.deep_view() + spec_level_filter_from(
                    tv,
                    relsd,
                    i,
                    lvl as int,
                    k as int,
                ));
            }
        } else {
            proof {
                assert(row.deep_view() =~= Seq::<(usize, SpecRelation)>::empty());
            }
        }
        proof {
            assert(row.deep_view() == spec_level_adj(tv, lvl as int)[i as int]);
        }
        let ghost adj_pre = adj.deep_view();
        let ghost rowd = row.deep_view();
        adj.push(row);
        proof {
            assert(adj.deep_view() =~= adj_pre.push(rowd));
        }
        i = i + 1;
    }
    proof {
        assert(adj.deep_view() =~= spec_level_adj(tv, lvl as int));
    }
    adj
}

/// Searches the aggregate use graph at level `level` for a cycle. Returns a
/// closed witness, or `None` exactly when that aggregate graph is acyclic.
pub fn contains_cyclic_dependency_on_level(module_tree: &ModuleTree, level: usize) -> (res: Option<
    Vec<(usize, UseRelation)>,
>)
    requires
        module_tree.wf(),
    ensures
        match res {
            Some(w) => cycle_witness_ok(
                spec_level_adj(module_tree.spec_tree(), level as int),
                w.deep_view(),
            ) && w.deep_view().len() >= 2,
            None => !g_has_cycle(spec_level_adj(module_tree.spec_tree(), level as int)),
        },
{
    let n = module_tree.tree().len();
    proof {
        assert(module_tree.spec_tree().len() == n as int);
        lemma_level_adj_wf(module_tree.spec_tree(), level as int);
    }
    let adj = build_level_adjacency(module_tree, level);
    g_find_cycle(&adj)
}

/// Whether some node sits at level `lvl`.
pub open spec fn spec_has_level(tree: Seq<SpecNode>, lvl: int) -> bool {
    exists|i: int| 0 <= i < tree.len() && (#[trigger] tree[i]).level == lvl
}

fn has_level(tree: &Vec<crate::node::ModuleNode>, lvl: usize) -> (res: bool)
    ensures
        res == spec_has_level(crate::node::tree_view(tree@), lvl as int),
{
    let ghost tv = crate::node::tree_view(tree@);
    let mut i: usize = 0;
    while i < tree.len()
        invariant
            tv == crate::node::tree_view(tree@),
            i <= tree@.len(),
            forall|a: int| 0 <= a < i ==> (#[trigger] tv[a]).level != lvl as int,
        decreases tree@.len() - i,
    {
        if tree[i].level == lvl {
            proof {
                assert(tv[i as int].level == lvl as int);
            }
            return true;
        }
        i = i + 1;
    }
    false
}

/// A node's level never exceeds its index.
pub proof fn lemma_level_le_index(tree: Seq<SpecNode>, i: int)
    requires
        tree_wf(tree),
        0 <= i < tree.len(),
    ensures
        tree[i].level <= i,
    decreases i,
{
    assert(node_wf_at(tree, i));
    match tree[i].parent_index {
        Some(p) => {
            lemma_level_le_index(tree, p);
        },
        None => {},
    }
}

/// If no node sits at level `l0 >= 1`, no node sits at any level above it.
proof fn lemma_no_level_above(tree: Seq<SpecNode>, l0: int, l: int)
    requires
        tree_wf(tree),
        1 <= l0 <= l,
        !spec_has_level(tree, l0),
    ensures
        !spec_has_level(tree, l),
    decreases l - l0,
{
    if l > l0 {
        lemma_no_level_above(tree, l0, l - 1);
        if spec_has_level(tree, l) {
            let i = choose|i: int| 0 <= i < tree.len() && (#[trigger] tree[i]).level == l;
            assert(node_wf_at(tree, i));
            let p = tree[i].parent_index->0;
            assert(tree[p].level == l - 1);
        }
    }
}

/// An uninhabited level has an empty aggregate graph, hence no cycle.
proof fn lemma_empty_level_no_cycle(tree: Seq<SpecNode>, lvl: int)
    requires
        !spec_has_level(tree, lvl),
    ensures
        !g_has_cycle(spec_level_adj(tree, lvl)),
{
    let g = spec_level_adj(tree, lvl);
    if g_has_cycle(g) {
        let (a, b) = choose|a: usize, b: usize| #[trigger] g_step(g, a, b) && g_reaches(g, b, a);
        assert(g[a as int].len() == 0);
    }
}

/// Tries the aggregate graphs at levels `1, 2, ...` in turn, as long as the
/// level is inhabited, and returns the first cycle found. `None` means no
/// aggregate graph at any level has a cycle.
pub fn contains_cyclic_dependency_on_any_level(module_tree: &ModuleTree) -> (res: Option<
    Vec<(usize, UseRelation)>,
>)
    requires
        module_tree.wf(),
    ensures
        match res {
            Some(w) => exists|lvl: int|
                {
                    &&& 1 <= lvl
                    &&& cycle_witness_ok(
                        spec_level_adj(module_tree.spec_tree(), lvl),
                        w.deep_view(),
                    )
                    &&& w.deep_view().len() >= 2
                    &&& forall|l: int|
                        1 <= l < lvl ==> !g_has_cycle(
                            spec_level_adj(module_tree.spec_tree(), l),
                        )
                },
            None => forall|lvl: int|
                1 <= lvl ==> !g_has_cycle(spec_level_adj(module_tree.spec_tree(), lvl)),
        },
{
    let ghost tv = module_tree.spec_tree();
    let n = module_tree.tree().len();
    proof {
        assert(tv.len() == n as int);
    }
    let mut current_level: usize = 1;
    loop
        invariant
            module_tree.wf(),
            tv == module_tree.spec_tree(),
            tv.len() == n as int,
            1 <= current_level,
            current_level as int <= tv.len() + 1,
            forall|l: int| 1 <= l < current_level as int ==> !g_has_cycle(spec_level_adj(tv, l)),
        ensures
            !spec_has_level(tv, current_level as int),
            forall|l: int| 1 <= l < current_level as int ==> !g_has_cycle(spec_level_adj(tv, l)),
        decreases tv.len() + 1 - current_level,
    {
        if !has_level(module_tree.tree(), current_level) {
            break;
        }
        match contains_cyclic_dependency_on_level(module_tree, current_level) {
            Some(w) => {
                proof {
                    assert(1 <= current_level as int && cycle_witness_ok(
                        spec_level_adj(tv, current_level as int),
                        w.deep_view(),
                    ));
                    assert(forall|l: int|
                        1 <= l < current_level as int ==> !g_has_cycle(spec_level_adj(tv, l)));
                }
                return Some(w);
            },
            None => {},
        }
        proof {
            let i = choose|i: int|
                0 <= i < tv.len() && (#[trigger] tv[i]).level == current_level as int;
            lemma_level_le_index(tv, i);
        }
        current_level = current_level + 1;
    }
    proof {
        assert forall|lvl: int| 1 <= lvl implies !g_has_cycle(spec_level_adj(tv, lvl)) by {
            if lvl >= current_level as int {
                lemma_no_level_above(tv, current_level as int, lvl);
                lemma_empty_level_no_cycle(tv, lvl);
            }
        }
    }
    None
}

} // verus!
