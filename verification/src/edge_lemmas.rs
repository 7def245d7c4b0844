//! Facts about edge lists that the graph operations rest on.

use crate::adjacency::{
    edges_without_node, ending_in, renumbered, renumbering, source_of, sources_into,
    starting_in, survives, surviving, swap_removed, target_of, targets_from,
};
use crate::seqs::lemma_filter_no_duplicates;
use vstd::prelude::*;

verus! {

/// Who points at `to`: one source for each edge into it.
pub proof fn lemma_sources_into(edges: Seq<(u32, u32)>, to: u32)
    requires
        edges.no_duplicates(),
    ensures
        sources_into(edges, to).no_duplicates(),
        forall|x: u32| sources_into(edges, to).contains(x) <==> edges.contains((x, to)),
{
    let pred = ending_in(to);
    let pick = source_of();
    let kept = edges.filter(pred);
    let out = kept.map_values(pick);
    lemma_filter_no_duplicates(edges, pred);
    assert forall|i: int, j: int| 0 <= i < out.len() && 0 <= j < out.len() && i != j implies out[i]
        != out[j] by {
        assert(kept.contains(kept[i]) && kept.contains(kept[j]));
        assert(pred(kept[i]) && pred(kept[j]));
    }
    assert forall|x: u32| out.contains(x) <==> edges.contains((x, to)) by {
        if out.contains(x) {
            let i = choose|i: int| 0 <= i < out.len() && out[i] == x;
            assert(kept.contains(kept[i]));
            assert(pred(kept[i]));
            assert(kept[i] == (x, to));
        }
        if edges.contains((x, to)) {
            assert(pred((x, to)));
            assert(kept.contains((x, to)));
            let i = choose|i: int| 0 <= i < kept.len() && kept[i] == (x, to);
            assert(out[i] == x);
        }
    }
}

/// What `from` points at: one target for each edge out of it.
pub proof fn lemma_targets_from(edges: Seq<(u32, u32)>, from: u32)
    requires
        edges.no_duplicates(),
    ensures
        targets_from(edges, from).no_duplicates(),
        forall|x: u32| targets_from(edges, from).contains(x) <==> edges.contains((from, x)),
{
    let pred = starting_in(from);
    let pick = target_of();
    let kept = edges.filter(pred);
    let out = kept.map_values(pick);
    lemma_filter_no_duplicates(edges, pred);
    assert forall|i: int, j: int| 0 <= i < out.len() && 0 <= j < out.len() && i != j implies out[i]
        != out[j] by {
        assert(kept.contains(kept[i]) && kept.contains(kept[j]));
        assert(pred(kept[i]) && pred(kept[j]));
    }
    assert forall|x: u32| out.contains(x) <==> edges.contains((from, x)) by {
        if out.contains(x) {
            let i = choose|i: int| 0 <= i < out.len() && out[i] == x;
            assert(kept.contains(kept[i]));
            assert(pred(kept[i]));
            assert(kept[i] == (from, x));
        }
        if edges.contains((from, x)) {
            assert(pred((from, x)));
            assert(kept.contains((from, x)));
            let i = choose|i: int| 0 <= i < kept.len() && kept[i] == (from, x);
            assert(out[i] == x);
        }
    }
}

/// The edge list after a node has left: no duplicates, no edge at the
/// highest number any more, and exactly the renumbered survivors.
pub proof fn lemma_edges_without_node(edges: Seq<(u32, u32)>, gone: u32, last: u32)
    requires
        edges.no_duplicates(),
        gone <= last,
        forall|i: int| 0 <= i < edges.len() ==> (#[trigger] edges[i]).0 <= last && edges[i].1 <= last,
    ensures
        edges_without_node(edges, gone, last).no_duplicates(),
        forall|x: (u32, u32)| #[trigger]
            edges_without_node(edges, gone, last).contains(x) ==> x.0 < last && x.1 < last,
        forall|x: (u32, u32)| #[trigger]
            edges_without_node(edges, gone, last).contains(x) <==> exists|e: (u32, u32)|
                edges.contains(e) && survives(e, gone) && renumbered(e, last, gone) == x,
{
    let pred = surviving(gone);
    let f = renumbering(last, gone);
    let kept = edges.filter(pred);
    let out = kept.map_values(f);
    lemma_filter_no_duplicates(edges, pred);
    assert forall|i: int| 0 <= i < kept.len() implies survives(#[trigger] kept[i], gone)
        && edges.contains(kept[i]) && kept[i].0 <= last && kept[i].1 <= last by {
        let e = kept[i];
        assert(kept.contains(e));
        assert(edges.contains(e) && pred(e));
        let j = choose|j: int| 0 <= j < edges.len() && edges[j] == e;
        assert(edges[j].0 <= last);
    }
    assert forall|i: int, j: int| 0 <= i < out.len() && 0 <= j < out.len() && i != j implies out[i]
        != out[j] by {
        assert(survives(kept[i], gone) && survives(kept[j], gone));
        assert(kept[i] != kept[j]);
    }
    assert forall|x: (u32, u32)| #[trigger] out.contains(x) implies x.0 < last && x.1 < last by {
        let i = choose|i: int| 0 <= i < out.len() && out[i] == x;
        assert(survives(kept[i], gone));
    }
    assert forall|x: (u32, u32)| #[trigger] out.contains(x) <==> exists|e: (u32, u32)|
        edges.contains(e) && survives(e, gone) && renumbered(e, last, gone) == x by {
        if out.contains(x) {
            let i = choose|i: int| 0 <= i < out.len() && out[i] == x;
            assert(survives(kept[i], gone));
            assert(edges.contains(kept[i]) && renumbered(kept[i], last, gone) == x);
        }
        if exists|e: (u32, u32)|
            edges.contains(e) && survives(e, gone) && renumbered(e, last, gone) == x {
            let e = choose|e: (u32, u32)|
                edges.contains(e) && survives(e, gone) && renumbered(e, last, gone) == x;
            assert(pred(e));
            assert(kept.contains(e));
            let i = choose|i: int| 0 <= i < kept.len() && kept[i] == e;
            assert(out[i] == x);
        }
    }
}

/// A swap-remove takes out exactly the edge at `at`.
pub proof fn lemma_swap_removed(edges: Seq<(u32, u32)>, at: int)
    requires
        edges.no_duplicates(),
        0 <= at < edges.len(),
    ensures
        swap_removed(edges, at).no_duplicates(),
        swap_removed(edges, at).len() == edges.len() - 1,
        forall|x: (u32, u32)| #[trigger]
            swap_removed(edges, at).contains(x) <==> edges.contains(x) && x != edges[at],
{
    let out = swap_removed(edges, at);
    let last = edges.len() - 1;
    assert forall|i: int| 0 <= i < out.len() implies #[trigger] out[i] == (if i == at {
        edges[last]
    } else {
        edges[i]
    }) by {}
    assert forall|x: (u32, u32)| #[trigger] out.contains(x) <==> edges.contains(x) && x
        != edges[at] by {
        if out.contains(x) {
            let i = choose|i: int| 0 <= i < out.len() && out[i] == x;
            if i == at {
                assert(edges[last] == x);
            } else {
                assert(edges[i] == x);
            }
        }
        if edges.contains(x) && x != edges[at] {
            let i = choose|i: int| 0 <= i < edges.len() && edges[i] == x;
            if i == last {
                assert(out[at] == x);
            } else {
                assert(out[i] == x);
            }
        }
    }
}

} // verus!
