//! Shortest walks through the dependency graph.
//!
//! A walk follows the edges of the graph, either along them (from a file to
//! what it imports) or against them (from a file to what imports it).

use crate::graph::{lemma_unvisited_mark, unvisited, DependencyGraph, FileId};
use std::collections::HashSet;
use vstd::prelude::*;

verus! {

broadcast use vstd::std_specs::hash::group_hash_axioms;

/// One step of a walk leads from `a` to `b`: forward along an edge, or
/// backward against one.
pub open spec fn step(graph: &DependencyGraph, forward: bool, a: FileId, b: FileId) -> bool {
    if forward {
        graph.has_edge(a, b)
    } else {
        graph.has_edge(b, a)
    }
}

/// `w` is a walk: it is not empty, and each of its files leads to the next
/// by one step.
pub open spec fn is_walk(graph: &DependencyGraph, forward: bool, w: Seq<FileId>) -> bool {
    &&& w.len() > 0
    &&& forall|i: int| #![trigger w[i]] 0 <= i < w.len() - 1 ==> step(graph, forward, w[i], w[i + 1])
}

/// A walk of exactly `k` steps leads from `start` to `x`.
pub open spec fn reach(graph: &DependencyGraph, forward: bool, start: FileId, k: int, x: FileId) -> bool {
    exists|w: Seq<FileId>| #[trigger]
        is_walk(graph, forward, w) && w.len() == k + 1 && w[0] == start && w.last() == x
}

/// A walk of at most `radius` steps leads from `start` to `x`.
pub open spec fn within(
    graph: &DependencyGraph,
    forward: bool,
    start: FileId,
    radius: int,
    x: FileId,
) -> bool {
    exists|k: int| 0 <= k <= radius && #[trigger] reach(graph, forward, start, k, x)
}

/// Some walk of `walks` ends in `x`.
pub open spec fn ends_in(walks: Seq<Vec<FileId>>, x: FileId) -> bool {
    exists|j: int| 0 <= j < walks.len() && (#[trigger] walks[j])@.len() > 0 && walks[j]@.last() == x
}

/// `w` is a shortest walk from `start` to a file of `goals`.
pub open spec fn is_shortest_walk(
    graph: &DependencyGraph,
    forward: bool,
    start: FileId,
    goals: Set<FileId>,
    w: Seq<FileId>,
) -> bool {
    &&& is_walk(graph, forward, w)
    &&& w[0] == start
    &&& goals.contains(w.last())
    &&& forall|other: Seq<FileId>| #[trigger]
        is_walk(graph, forward, other) && other[0] == start && goals.contains(other.last())
            ==> other.len() >= w.len()
}

/// No walk leads from `start` to a file of `goals`.
pub open spec fn no_walk(graph: &DependencyGraph, forward: bool, start: FileId, goals: Set<FileId>) -> bool {
    forall|other: Seq<FileId>| #[trigger]
        is_walk(graph, forward, other) && other[0] == start ==> !goals.contains(other.last())
}

/// Only the start lies no step away.
proof fn lemma_reach_start(graph: &DependencyGraph, forward: bool, start: FileId)
    ensures
        reach(graph, forward, start, 0, start),
        forall|x: FileId| reach(graph, forward, start, 0, x) ==> x == start,
{
    let w = seq![start];
    assert(is_walk(graph, forward, w) && w.len() == 1 && w[0] == start && w.last() == start);
}

/// One more step leads one step further.
proof fn lemma_reach_extend(
    graph: &DependencyGraph,
    forward: bool,
    start: FileId,
    k: int,
    x: FileId,
    y: FileId,
)
    requires
        reach(graph, forward, start, k, x),
        step(graph, forward, x, y),
    ensures
        reach(graph, forward, start, k + 1, y),
{
    let w = choose|w: Seq<FileId>| #[trigger]
        is_walk(graph, forward, w) && w.len() == k + 1 && w[0] == start && w.last() == x;
    let longer = w.push(y);
    assert forall|i: int| #![trigger longer[i]] 0 <= i < longer.len() - 1 implies step(
        graph,
        forward,
        longer[i],
        longer[i + 1],
    ) by {
        if i < w.len() - 1 {
            assert(longer[i] == w[i] && longer[i + 1] == w[i + 1]);
        }
    }
    assert(is_walk(graph, forward, longer) && longer.len() == k + 2 && longer[0] == start
        && longer.last() == y);
}

/// What lies `k + 1` steps away lies one step from something `k` steps away.
proof fn lemma_reach_shrink(
    graph: &DependencyGraph,
    forward: bool,
    start: FileId,
    k: int,
    y: FileId,
) -> (z: FileId)
    requires
        k >= 0,
        reach(graph, forward, start, k + 1, y),
    ensures
        reach(graph, forward, start, k, z),
        step(graph, forward, z, y),
{
    let w = choose|w: Seq<FileId>| #[trigger]
        is_walk(graph, forward, w) && w.len() == k + 2 && w[0] == start && w.last() == y;
    let shorter = w.drop_last();
    assert forall|i: int| #![trigger shorter[i]] 0 <= i < shorter.len() - 1 implies step(
        graph,
        forward,
        shorter[i],
        shorter[i + 1],
    ) by {
        assert(shorter[i] == w[i] && shorter[i + 1] == w[i + 1]);
    }
    assert(is_walk(graph, forward, shorter) && shorter.len() == k + 1 && shorter[0] == start
        && shorter.last() == w[k]);
    assert(step(graph, forward, w[k], w[k + 1]));
    w[k]
}

/// A walk from a file of the graph stays in the graph.
pub proof fn lemma_walk_in_graph(graph: &DependencyGraph, forward: bool, w: Seq<FileId>)
    requires
        graph.wf(),
        is_walk(graph, forward, w),
        w[0] < graph.len(),
    ensures
        forall|i: int| 0 <= i < w.len() ==> w[i] < graph.len(),
{
    assert forall|i: int| 0 <= i < w.len() implies w[i] < graph.len() by {
        if i > 0 {
            assert(step(graph, forward, w[i - 1], w[i - 1 + 1]));
            if forward {
                assert(graph.has_edge(w[i - 1], w[i]));
            } else {
                assert(graph.has_edge(w[i], w[i - 1]));
            }
        }
    }
}

/// A walk of `w.len() - 1` steps leads from the first file of `w` to its last.
proof fn lemma_walk_reaches(graph: &DependencyGraph, forward: bool, w: Seq<FileId>)
    requires
        is_walk(graph, forward, w),
    ensures
        reach(graph, forward, w[0], w.len() - 1, w.last()),
{
}

/// If nothing lies exactly `radius + 1` steps away that is not nearer, then
/// everything that a walk reaches lies within `radius`.
proof fn lemma_closed_ball(
    graph: &DependencyGraph,
    forward: bool,
    start: FileId,
    radius: int,
    k: int,
    x: FileId,
)
    requires
        radius >= 0,
        k >= 0,
        reach(graph, forward, start, k, x),
        forall|y: FileId|
            reach(graph, forward, start, radius + 1, y) ==> within(graph, forward, start, radius, y),
    ensures
        within(graph, forward, start, radius, x),
    decreases k,
{
    if k <= radius {
    } else {
        let z = lemma_reach_shrink(graph, forward, start, k - 1, x);
        lemma_closed_ball(graph, forward, start, radius, k - 1, z);
        let m = choose|m: int| 0 <= m <= radius && #[trigger] reach(graph, forward, start, m, z);
        lemma_reach_extend(graph, forward, start, m, z, x);
        if m + 1 > radius {
            assert(reach(graph, forward, start, radius + 1, x));
        }
    }
}

/// The files one step away from `x`.
fn neighbours(graph: &DependencyGraph, forward: bool, x: FileId) -> (out: Vec<FileId>)
    requires
        graph.wf(),
    ensures
        forall|y: FileId| out@.contains(y) <==> step(graph, forward, x, y),
        forall|i: int| 0 <= i < out@.len() ==> out@[i] < graph.len(),
{
    let out = if forward {
        graph.get_dependencies(x)
    } else {
        graph.get_dependents(x)
    };
    assert forall|i: int| 0 <= i < out@.len() implies out@[i] < graph.len() by {
        assert(out@.contains(out@[i]));
        assert(step(graph, forward, x, out@[i]));
    }
    out
}

/// The walk `w` with one more file at its end.
fn extended(w: &Vec<FileId>, y: FileId) -> (longer: Vec<FileId>)
    ensures
        longer@ == w@.push(y),
{
    let mut longer: Vec<FileId> = Vec::new();
    let mut i: usize = 0;
    while i < w.len()
        invariant
            i <= w@.len(),
            longer@ == w@.take(i as int),
        decreases w@.len() - i,
    {
        longer.push(w[i]);
        assert(longer@ =~= w@.take(i + 1));
        i += 1;
    }
    assert(w@.take(i as int) =~= w@);
    longer.push(y);
    longer
}

/// What holds of the walks that end exactly `level` steps from `start`.
spec fn is_sphere(
    graph: &DependencyGraph,
    forward: bool,
    start: FileId,
    level: int,
    walks: Seq<Vec<FileId>>,
) -> bool {
    &&& forall|j: int|
        0 <= j < walks.len() ==> is_walk(graph, forward, (#[trigger] walks[j])@) && walks[j]@.len()
            == level + 1 && walks[j]@[0] == start && walks[j]@.last() < graph.len()
    &&& forall|x: FileId|
        ends_in(walks, x) <==> reach(graph, forward, start, level, x) && !within(
            graph,
            forward,
            start,
            level - 1,
            x,
        )
}

/// What the marks say: exactly the files within `radius` are marked.
spec fn is_ball(
    graph: &DependencyGraph,
    forward: bool,
    start: FileId,
    radius: int,
    visited: Seq<bool>,
) -> bool {
    &&& visited.len() == graph.len()
    &&& forall|x: FileId|
        x < graph.len() ==> (visited[x as int] <==> within(graph, forward, start, radius, x))
}

/// From one level to the next.
proof fn lemma_next_level(
    graph: &DependencyGraph,
    forward: bool,
    start: FileId,
    level: int,
    before: Seq<bool>,
    after: Seq<bool>,
    front: Seq<Vec<FileId>>,
    next: Seq<Vec<FileId>>,
)
    requires
        graph.wf(),
        start < graph.len(),
        level >= 0,
        is_ball(graph, forward, start, level, before),
        is_sphere(graph, forward, start, level, front),
        after.len() == graph.len(),
        forall|x: FileId|
            x < graph.len() ==> (after[x as int] <==> before[x as int] || ends_in(next, x)),
        forall|j: int|
            0 <= j < next.len() ==> is_walk(graph, forward, (#[trigger] next[j])@) && next[j]@.len()
                == level + 2 && next[j]@[0] == start && next[j]@.last() < graph.len()
                && !before[next[j]@.last() as int],
        forall|j: int, y: FileId|
            0 <= j < front.len() && step(graph, forward, (#[trigger] front[j])@.last(), y)
                ==> #[trigger] after[y as int],
    ensures
        is_ball(graph, forward, start, level + 1, after),
        is_sphere(graph, forward, start, level + 1, next),
{
    assert forall|x: FileId| x < graph.len() && within(graph, forward, start, level + 1, x) implies after[x as int] by {
        let k = choose|k: int| 0 <= k <= level + 1 && #[trigger] reach(graph, forward, start, k, x);
        if k <= level {
            assert(within(graph, forward, start, level, x));
        } else {
            if within(graph, forward, start, level, x) {
            } else {
                let z = lemma_reach_shrink(graph, forward, start, level, x);
                if within(graph, forward, start, level - 1, z) {
                    let m = choose|m: int|
                        0 <= m <= level - 1 && #[trigger] reach(graph, forward, start, m, z);
                    lemma_reach_extend(graph, forward, start, m, z, x);
                    assert(within(graph, forward, start, level, x));
                }
                assert(ends_in(front, z));
                let j = choose|j: int|
                    0 <= j < front.len() && (#[trigger] front[j])@.len() > 0 && front[j]@.last()
                        == z;
                assert(step(graph, forward, front[j]@.last(), x));
            }
        }
    }
    assert forall|x: FileId| x < graph.len() && after[x as int] implies within(
        graph,
        forward,
        start,
        level + 1,
        x,
    ) by {
        if before[x as int] {
            let k = choose|k: int| 0 <= k <= level && #[trigger] reach(graph, forward, start, k, x);
            assert(0 <= k <= level + 1);
        } else {
            let j = choose|j: int|
                0 <= j < next.len() && (#[trigger] next[j])@.len() > 0 && next[j]@.last() == x;
            lemma_walk_reaches(graph, forward, next[j]@);
            assert(reach(graph, forward, start, level + 1, x));
        }
    }
    assert forall|x: FileId|
        ends_in(next, x) <==> reach(graph, forward, start, level + 1, x) && !within(
            graph,
            forward,
            start,
            level,
            x,
        ) by {
        if ends_in(next, x) {
            let j = choose|j: int|
                0 <= j < next.len() && (#[trigger] next[j])@.len() > 0 && next[j]@.last() == x;
            lemma_walk_reaches(graph, forward, next[j]@);
            assert(!before[x as int]);
        }
        if reach(graph, forward, start, level + 1, x) && !within(graph, forward, start, level, x) {
            let z = lemma_reach_shrink(graph, forward, start, level, x);
            assert(x < graph.len()) by {
                if forward {
                    assert(graph.has_edge(z, x));
                } else {
                    assert(graph.has_edge(x, z));
                }
            }
            assert(within(graph, forward, start, level + 1, x));
            assert(after[x as int]);
            assert(!before[x as int]);
        }
    }
}

/// A shortest walk from `start` to a file of `goals`, if any walk leads
/// there. Among the shortest walks, the one found first wins.
pub fn search(graph: &DependencyGraph, start: FileId, goals: &HashSet<FileId>, forward: bool) -> (found:
    Option<Vec<FileId>>)
    requires
        graph.wf(),
        start < graph.len(),
    ensures
        match found {
            Some(w) => is_shortest_walk(graph, forward, start, goals@, w@),
            None => no_walk(graph, forward, start, goals@),
        },
{
    let n = graph.file_count();
    let mut visited: Vec<bool> = vec![false; n];
    visited.set(start as usize, true);
    let mut first: Vec<FileId> = Vec::new();
    first.push(start);
    let mut frontier: Vec<Vec<FileId>> = Vec::new();
    frontier.push(first);
    let ghost mut level: int = 0;
    proof {
        lemma_reach_start(graph, forward, start);
        assert(is_walk(graph, forward, frontier@[0]@));
        assert forall|x: FileId|
            x < graph.len() implies (visited@[x as int] <==> within(graph, forward, start, 0, x)) by {
            if within(graph, forward, start, 0, x) {
                let k = choose|k: int| 0 <= k <= 0 && #[trigger] reach(graph, forward, start, k, x);
            }
        }
        assert forall|x: FileId|
            ends_in(frontier@, x) <==> reach(graph, forward, start, 0, x) && !within(
                graph,
                forward,
                start,
                -1,
                x,
            ) by {
            if x == start {
                assert(frontier@[0]@.last() == start);
            }
        }
    }
    loop
        invariant
            graph.wf(),
            start < graph.len(),
            n == graph.len(),
            level >= 0,
            is_ball(graph, forward, start, level, visited@),
            is_sphere(graph, forward, start, level, frontier@),
            forall|x: FileId| within(graph, forward, start, level - 1, x) ==> !goals@.contains(x),
        decreases unvisited(visited@),
    {
        let mut j: usize = 0;
        while j < frontier.len()
            invariant
                j <= frontier@.len(),
                is_sphere(graph, forward, start, level, frontier@),
                level >= 0,
                forall|x: FileId| within(graph, forward, start, level - 1, x) ==> !goals@.contains(x),
                forall|i: int|
                    0 <= i < j ==> !goals@.contains((#[trigger] frontier@[i])@.last()),
            decreases frontier@.len() - j,
        {
            let w = &frontier[j];
            assert(is_walk(graph, forward, w@));
            let end = w[w.len() - 1];
            if goals.contains(&end) {
                let chosen = copy_of(w);
                proof {
                    assert forall|other: Seq<FileId>| #[trigger]
                        is_walk(graph, forward, other) && other[0] == start && goals@.contains(
                            other.last(),
                        ) implies other.len() >= chosen@.len() by {
                        lemma_walk_reaches(graph, forward, other);
                        if other.len() < level + 1 {
                            assert(within(graph, forward, start, level - 1, other.last()));
                        }
                    }
                }
                return Some(chosen);
            }
            j += 1;
        }
        proof {
            assert forall|x: FileId| within(graph, forward, start, level, x) implies !goals@.contains(
                x,
            ) by {
                if !within(graph, forward, start, level - 1, x) {
                    let k = choose|k: int|
                        0 <= k <= level && #[trigger] reach(graph, forward, start, k, x);
                    if k < level {
                        assert(within(graph, forward, start, level - 1, x));
                    }
                    assert(ends_in(frontier@, x));
                    let i = choose|i: int|
                        0 <= i < frontier@.len() && (#[trigger] frontier@[i])@.len() > 0
                            && frontier@[i]@.last() == x;
                }
            }
        }
        let ghost before = visited@;
        let mut next: Vec<Vec<FileId>> = Vec::new();
        let mut j: usize = 0;
        while j < frontier.len()
            invariant
                graph.wf(),
                n == graph.len(),
                level >= 0,
                j <= frontier@.len(),
                is_sphere(graph, forward, start, level, frontier@),
                visited@.len() == n,
                before.len() == n,
                forall|x: FileId|
                    x < n ==> (visited@[x as int] <==> before[x as int] || ends_in(next@, x)),
                forall|i: int|
                    0 <= i < next@.len() ==> is_walk(graph, forward, (#[trigger] next@[i])@)
                        && next@[i]@.len() == level + 2 && next@[i]@[0] == start
                        && next@[i]@.last() < n && !before[next@[i]@.last() as int],
                forall|i: int, y: FileId|
                    0 <= i < j && step(graph, forward, (#[trigger] frontier@[i])@.last(), y)
                        ==> #[trigger] visited@[y as int],
                unvisited(visited@) + next@.len() == unvisited(before),
            decreases frontier@.len() - j,
        {
            let w = &frontier[j];
            assert(is_walk(graph, forward, w@));
            let end = w[w.len() - 1];
            let around = neighbours(graph, forward, end);
            let mut k: usize = 0;
            while k < around.len()
                invariant
                    graph.wf(),
                    n == graph.len(),
                    level >= 0,
                    j < frontier@.len(),
                    w == &frontier@[j as int],
                    is_walk(graph, forward, w@),
                    w@.len() == level + 1,
                    w@[0] == start,
                    end == w@.last(),
                    k <= around@.len(),
                    forall|y: FileId| around@.contains(y) <==> step(graph, forward, end, y),
                    forall|i: int| 0 <= i < around@.len() ==> around@[i] < n,
                    visited@.len() == n,
                    before.len() == n,
                    forall|x: FileId|
                        x < n ==> (visited@[x as int] <==> before[x as int] || ends_in(next@, x)),
                    forall|i: int|
                        0 <= i < next@.len() ==> is_walk(graph, forward, (#[trigger] next@[i])@)
                            && next@[i]@.len() == level + 2 && next@[i]@[0] == start
                            && next@[i]@.last() < n && !before[next@[i]@.last() as int],
                    forall|i: int, y: FileId|
                        0 <= i < j && step(graph, forward, (#[trigger] frontier@[i])@.last(), y)
                            ==> #[trigger] visited@[y as int],
                    forall|i: int| 0 <= i < k ==> visited@[around@[i] as int],
                    unvisited(visited@) + next@.len() == unvisited(before),
                decreases around@.len() - k,
            {
                let y = around[k];
                assert(around@.contains(y));
                if !visited[y as usize] {
                    let ghost walks = next@;
                    proof {
                        lemma_unvisited_mark(visited@, y as int);
                    }
                    visited.set(y as usize, true);
                    let longer = extended(w, y);
                    proof {
                        assert forall|i: int|
                            #![trigger longer@[i]]
                            0 <= i < longer@.len() - 1 implies step(
                            graph,
                            forward,
                            longer@[i],
                            longer@[i + 1],
                        ) by {
                            if i < w@.len() - 1 {
                                assert(longer@[i] == w@[i] && longer@[i + 1] == w@[i + 1]);
                            }
                        }
                        assert(!ends_in(walks, y));
                    }
                    next.push(longer);
                    proof {
                        assert(next@[next@.len() - 1]@.last() == y);
                        assert forall|x: FileId| ends_in(next@, x) <==> ends_in(walks, x) || x
                            == y by {
                            if ends_in(next@, x) {
                                let i = choose|i: int|
                                    0 <= i < next@.len() && (#[trigger] next@[i])@.len() > 0
                                        && next@[i]@.last() == x;
                                if i < walks.len() {
                                    assert(walks[i]@.last() == x);
                                }
                            }
                            if ends_in(walks, x) {
                                let i = choose|i: int|
                                    0 <= i < walks.len() && (#[trigger] walks[i])@.len() > 0
                                        && walks[i]@.last() == x;
                                assert(next@[i]@.last() == x);
                            }
                        }
                    }
                }
                k += 1;
            }
            proof {
                assert forall|i: int, y: FileId|
                    0 <= i < j + 1 && step(graph, forward, (#[trigger] frontier@[i])@.last(), y)
                    implies #[trigger] visited@[y as int] by {
                    if i == j {
                        assert(around@.contains(y));
                        let m = choose|m: int| 0 <= m < around@.len() && around@[m] == y;
                        assert(visited@[around@[m] as int]);
                    }
                }
            }
            j += 1;
        }
        proof {
            lemma_next_level(graph, forward, start, level, before, visited@, frontier@, next@);
        }
        if next.len() == 0 {
            proof {
                assert forall|other: Seq<FileId>| #[trigger]
                    is_walk(graph, forward, other) && other[0] == start implies !goals@.contains(
                    other.last(),
                ) by {
                    lemma_walk_reaches(graph, forward, other);
                    assert forall|y: FileId|
                        reach(graph, forward, start, level + 1, y) implies within(
                        graph,
                        forward,
                        start,
                        level,
                        y,
                    ) by {
                        if !within(graph, forward, start, level, y) {
                            assert(ends_in(next@, y));
                        }
                    }
                    lemma_closed_ball(
                        graph,
                        forward,
                        start,
                        level,
                        other.len() - 1,
                        other.last(),
                    );
                }
            }
            return None;
        }
        frontier = next;
        proof {
            level = level + 1;
        }
    }
}

/// A copy of a walk.
fn copy_of(w: &Vec<FileId>) -> (copy: Vec<FileId>)
    ensures
        copy@ == w@,
{
    let mut copy: Vec<FileId> = Vec::new();
    let mut i: usize = 0;
    while i < w.len()
        invariant
            i <= w@.len(),
            copy@ == w@.take(i as int),
        decreases w@.len() - i,
    {
        copy.push(w[i]);
        assert(copy@ =~= w@.take(i + 1));
        i += 1;
    }
    assert(w@.take(i as int) =~= w@);
    copy
}

} // verus!
