//! Which tests a change set affects, and why.

use crate::fs::FileTree;
use crate::git::{ChangeSet, ChangeSetView};
use crate::graph::{DependencyGraph, FileId};
use crate::search::{is_shortest_walk, no_walk, search};
use crate::sorting::{ascending, lemma_ascending_unique, sort_paths};
use crate::config::in_node_modules;
use crate::path::contains_segment;
use crate::text::{join, joined, to_chars};
use std::collections::HashSet;
use vstd::prelude::*;

verus! {

broadcast use vstd::std_specs::hash::group_hash_axioms;

/// The files that a change set affects, tests and other sources apart, each
/// list in the order of paths, component by component.
#[derive(Debug)]
pub struct AffectedResult {
    pub tests: Vec<String>,
    pub sources: Vec<String>,
}

impl Default for AffectedResult {
    fn default() -> (result: Self)
        ensures
            result.tests@.len() == 0,
            result.sources@.len() == 0,
    {
        AffectedResult { tests: Vec::new(), sources: Vec::new() }
    }
}

/// A chain of files, each of which joins the next by an import.
#[derive(Debug)]
pub struct DependencyPath {
    pub chain: Vec<String>,
}

impl Clone for DependencyPath {
    fn clone(&self) -> (copy: Self)
        ensures
            copy.chain.deep_view() == self.chain.deep_view(),
    {
        let mut chain: Vec<String> = Vec::new();
        let mut i: usize = 0;
        while i < self.chain.len()
            invariant
                i <= self.chain@.len(),
                chain.deep_view() == self.chain.deep_view().take(i as int),
            decreases self.chain@.len() - i,
        {
            let ghost before = chain.deep_view();
            chain.push(self.chain[i].clone());
            assert(chain.deep_view() =~= before.push(self.chain@[i as int]@));
            assert(self.chain.deep_view().take(i + 1) =~= before.push(self.chain@[i as int]@));
            i += 1;
        }
        assert(self.chain.deep_view().take(i as int) =~= self.chain.deep_view());
        DependencyPath { chain }
    }
}

impl DependencyPath {
    /// The paths of the chain in one line, an arrow between each two.
    pub fn format(&self) -> (line: String)
        ensures
            line@ == joined(self.chain.deep_view(), " \u{2192} "@),
    {
        join(&self.chain, " \u{2192} ")
    }
}

/// The path of the file with a given id.
pub open spec fn path_at(graph: &DependencyGraph) -> spec_fn(FileId) -> Seq<char> {
    |id: FileId| graph.nodes()[id as int].path
}

/// Some changed path of `changes` is looked up as the file `id`.
pub open spec fn is_changed(
    graph: &DependencyGraph,
    changes: ChangeSetView,
    tree: &FileTree,
    id: FileId,
) -> bool {
    exists|i: int|
        0 <= i < changes.all_changed().len() && graph.lookup(
            #[trigger] changes.all_changed()[i],
            tree,
        ) == Some(id)
}

/// The file `id` is changed or depends on a changed file.
pub open spec fn is_affected(
    graph: &DependencyGraph,
    changes: ChangeSetView,
    tree: &FileTree,
    id: FileId,
) -> bool {
    exists|c: FileId| is_changed(graph, changes, tree, c) && #[trigger] graph.depends_on(id, c)
}

/// `path` is the path of an affected test.
pub open spec fn is_affected_test(
    graph: &DependencyGraph,
    changes: ChangeSetView,
    tree: &FileTree,
    path: Seq<char>,
) -> bool {
    exists|id: FileId|
        id < graph.len() && #[trigger] is_affected(graph, changes, tree, id)
            && graph.nodes()[id as int].is_test && graph.nodes()[id as int].path == path
}

/// `path` is the path of an affected file that is no test and has no
/// segment `node_modules`.
pub open spec fn is_affected_source(
    graph: &DependencyGraph,
    changes: ChangeSetView,
    tree: &FileTree,
    path: Seq<char>,
) -> bool {
    exists|id: FileId|
        id < graph.len() && #[trigger] is_affected(graph, changes, tree, id)
            && !graph.nodes()[id as int].is_test && graph.nodes()[id as int].path == path
            && !in_node_modules(path)
}

/// `result` lists exactly the affected tests and the affected sources of
/// `changes`, each list in ascending order.
pub open spec fn lists_affected(
    result: &AffectedResult,
    graph: &DependencyGraph,
    changes: ChangeSetView,
    tree: &FileTree,
) -> bool {
    &&& ascending(result.tests.deep_view())
    &&& ascending(result.sources.deep_view())
    &&& forall|p: Seq<char>|
        result.tests.deep_view().contains(p) <==> is_affected_test(graph, changes, tree, p)
    &&& forall|p: Seq<char>|
        result.sources.deep_view().contains(p) <==> is_affected_source(graph, changes, tree, p)
}

/// The result is determined: two results that list the affected files of
/// the same change set hold the same lists.
pub proof fn lemma_result_unique(
    graph: &DependencyGraph,
    changes: ChangeSetView,
    tree: &FileTree,
    one: &AffectedResult,
    other: &AffectedResult,
)
    requires
        lists_affected(one, graph, changes, tree),
        lists_affected(other, graph, changes, tree),
    ensures
        one.tests.deep_view() == other.tests.deep_view(),
        one.sources.deep_view() == other.sources.deep_view(),
{
    lemma_ascending_unique(one.tests.deep_view(), other.tests.deep_view());
    lemma_ascending_unique(one.sources.deep_view(), other.sources.deep_view());
}

/// Every changed path of `fewer` is a changed path of `more`.
pub open spec fn extends(more: ChangeSetView, fewer: ChangeSetView) -> bool {
    forall|p: Seq<char>| fewer.all_changed().contains(p) ==> more.all_changed().contains(p)
}

/// A larger change set affects every file that a smaller one affects.
pub proof fn lemma_affected_monotone(
    graph: &DependencyGraph,
    tree: &FileTree,
    fewer: ChangeSetView,
    more: ChangeSetView,
    id: FileId,
)
    requires
        extends(more, fewer),
        is_affected(graph, fewer, tree, id),
    ensures
        is_affected(graph, more, tree, id),
{
    let c = choose|c: FileId| is_changed(graph, fewer, tree, c) && #[trigger] graph.depends_on(id, c);
    let i = choose|i: int|
        0 <= i < fewer.all_changed().len() && graph.lookup(
            #[trigger] fewer.all_changed()[i],
            tree,
        ) == Some(c);
    let p = fewer.all_changed()[i];
    assert(fewer.all_changed().contains(p));
    assert(more.all_changed().contains(p));
    let j = choose|j: int| 0 <= j < more.all_changed().len() && more.all_changed()[j] == p;
    assert(graph.lookup(more.all_changed()[j], tree) == Some(c));
    assert(is_changed(graph, more, tree, c));
}

/// Extending the change set never shrinks the result: a path that the
/// result for the smaller change set lists, among its tests or its sources,
/// is listed by the result for the larger one.
pub proof fn lemma_result_monotone(
    graph: &DependencyGraph,
    tree: &FileTree,
    fewer: ChangeSetView,
    more: ChangeSetView,
    small: &AffectedResult,
    large: &AffectedResult,
    path: Seq<char>,
)
    requires
        extends(more, fewer),
        lists_affected(small, graph, fewer, tree),
        lists_affected(large, graph, more, tree),
        small.tests.deep_view().contains(path) || small.sources.deep_view().contains(path),
    ensures
        large.tests.deep_view().contains(path) || large.sources.deep_view().contains(path),
{
    if small.tests.deep_view().contains(path) {
        assert(is_affected_test(graph, fewer, tree, path));
        let id = choose|id: FileId|
            id < graph.len() && #[trigger] is_affected(graph, fewer, tree, id)
                && graph.nodes()[id as int].is_test && graph.nodes()[id as int].path == path;
        lemma_affected_monotone(graph, tree, fewer, more, id);
        assert(is_affected_test(graph, more, tree, path));
    } else {
        assert(is_affected_source(graph, fewer, tree, path));
        let id = choose|id: FileId|
            id < graph.len() && #[trigger] is_affected(graph, fewer, tree, id)
                && !graph.nodes()[id as int].is_test && graph.nodes()[id as int].path == path
                && !in_node_modules(path);
        lemma_affected_monotone(graph, tree, fewer, more, id);
        assert(is_affected_source(graph, more, tree, path));
    }
}

/// The files that some changed path of `changes` is looked up as.
pub open spec fn changed_set(graph: &DependencyGraph, changes: ChangeSetView, tree: &FileTree) -> Set<
    FileId,
> {
    Set::new(|c: FileId| is_changed(graph, changes, tree, c))
}

/// `path` names the files of the walk `w`, one after the other.
pub open spec fn names_walk(graph: &DependencyGraph, path: &DependencyPath, w: Seq<FileId>) -> bool {
    path.chain.deep_view() == w.map_values(path_at(graph))
}

/// `path` names a shortest chain of imports that leads from the test
/// `test` to a changed file.
pub open spec fn explains(
    graph: &DependencyGraph,
    changes: ChangeSetView,
    tree: &FileTree,
    test: FileId,
    path: &DependencyPath,
) -> bool {
    exists|w: Seq<FileId>| #[trigger]
        names_walk(graph, path, w) && is_shortest_walk(
            graph,
            true,
            test,
            changed_set(graph, changes, tree),
            w,
        )
}

/// `paths` name the walks `walks` backwards. The walks lead from changed
/// files to the test `test` against the imports: one shortest walk for
/// each changed file from which a walk leads there, by ascending id of the
/// changed file. So each path is a chain of imports with the test first
/// and the changed file last.
pub open spec fn trace_back(
    graph: &DependencyGraph,
    changes: ChangeSetView,
    tree: &FileTree,
    test: FileId,
    paths: Seq<DependencyPath>,
    walks: Seq<Seq<FileId>>,
) -> bool {
    &&& walks.len() == paths.len()
    &&& forall|i: int|
        0 <= i < walks.len() ==> names_walk(graph, &paths[i], (#[trigger] walks[i]).reverse())
            && is_changed(graph, changes, tree, walks[i][0]) && is_shortest_walk(
            graph,
            false,
            walks[i][0],
            set![test],
            walks[i],
        )
    &&& forall|i: int, j: int| 0 <= i < j < walks.len() ==> walks[i][0] < walks[j][0]
    &&& forall|c: FileId|
        is_changed(graph, changes, tree, c) && !no_walk(graph, false, c, set![test]) ==> exists|
            i: int,
        |
            0 <= i < walks.len() && (#[trigger] walks[i])[0] == c
}

/// The ids of `w`, the last first.
fn reversed(w: &Vec<FileId>) -> (back: Vec<FileId>)
    ensures
        back@ == w@.reverse(),
{
    let mut back: Vec<FileId> = Vec::new();
    let mut i: usize = w.len();
    while i > 0
        invariant
            i <= w@.len(),
            back@.len() == w@.len() - i,
            forall|k: int| 0 <= k < back@.len() ==> back@[k] == w@[w@.len() - 1 - k],
        decreases i,
    {
        i -= 1;
        back.push(w[i]);
    }
    assert(back@ =~= w@.reverse());
    back
}

/// Answers questions about one graph.
pub struct AffectedTestFinder<'a> {
    graph: &'a DependencyGraph,
}

impl<'a> AffectedTestFinder<'a> {
    /// A finder only ever reads a well-formed graph.
    #[verifier::type_invariant]
    spec fn well_formed(self) -> bool {
        self.graph.wf()
    }

    /// The graph that the finder reads.
    pub closed spec fn graph(&self) -> &DependencyGraph {
        self.graph
    }

    /// A finder for `graph`.
    pub fn new(graph: &'a DependencyGraph) -> (finder: Self)
        requires
            graph.wf(),
        ensures
            finder.graph() == graph,
    {
        AffectedTestFinder { graph }
    }

    /// The ids that the changed paths of `changes` are looked up as, in the
    /// order of the paths.
    fn changed_ids(&self, changes: &ChangeSet, tree: &FileTree) -> (ids: Vec<FileId>)
        requires
            tree.wf(),
        ensures
            forall|c: FileId| ids@.contains(c) <==> is_changed(self.graph(), changes@, tree, c),
            forall|i: int| 0 <= i < ids@.len() ==> ids@[i] < self.graph().len(),
    {
        proof {
            use_type_invariant(self);
        }
        let paths = changes.all_changed();
        let ghost all = changes@.all_changed();
        let mut ids: Vec<FileId> = Vec::new();
        let mut i: usize = 0;
        while i < paths.len()
            invariant
                self.graph.wf(),
                tree.wf(),
                i <= paths@.len(),
                all == paths.deep_view(),
                forall|c: FileId|
                    ids@.contains(c) <==> exists|j: int|
                        0 <= j < i && self.graph.lookup(#[trigger] all[j], tree) == Some(c),
                forall|k: int| 0 <= k < ids@.len() ==> ids@[k] < self.graph.len(),
            decreases paths@.len() - i,
        {
            let ghost before = ids@;
            assert(all[i as int] == paths@[i as int]@);
            let found = self.graph.get_file_id(paths[i].as_str(), tree);
            match found {
                Some(id) => {
                    proof {
                        self.graph.lemma_lookup_known(all[i as int], tree);
                    }
                    ids.push(id);
                    assert(ids@[ids@.len() - 1] == id);
                    assert forall|c: FileId| before.contains(c) implies ids@.contains(c) by {
                        let k = choose|k: int| 0 <= k < before.len() && before[k] == c;
                        assert(ids@[k] == c);
                    }
                    assert forall|c: FileId| ids@.contains(c) implies before.contains(c) || c
                        == id by {
                        let k = choose|k: int| 0 <= k < ids@.len() && ids@[k] == c;
                        if k < before.len() {
                            assert(before[k] == c);
                        }
                    }
                },
                None => {},
            }
            proof {
                assert forall|c: FileId|
                    ids@.contains(c) <==> exists|j: int|
                        0 <= j < i + 1 && self.graph.lookup(#[trigger] all[j], tree) == Some(
                            c,
                        ) by {
                    if ids@.contains(c) {
                        if before.contains(c) {
                            let j = choose|j: int|
                                0 <= j < i && self.graph.lookup(#[trigger] all[j], tree) == Some(c);
                            assert(0 <= j < i + 1);
                        } else {
                            assert(self.graph.lookup(all[i as int], tree) == Some(c));
                        }
                    }
                    if exists|j: int|
                        0 <= j < i + 1 && self.graph.lookup(#[trigger] all[j], tree) == Some(c) {
                        let j = choose|j: int|
                            0 <= j < i + 1 && self.graph.lookup(#[trigger] all[j], tree) == Some(c);
                        if j < i {
                            assert(before.contains(c));
                        }
                    }
                }
            }
            i += 1;
        }
        ids
    }

    /// The tests and the sources that `changes` affects: every file that a
    /// changed path is looked up as, and every file that depends on one.
    /// Sources with a path segment `node_modules` are left out. Both lists
    /// are in the order of paths, component by component.
    pub fn find_affected(&self, changes: &ChangeSet, tree: &FileTree) -> (result: AffectedResult)
        requires
            tree.wf(),
        ensures
            lists_affected(&result, self.graph(), changes@, tree),
    {
        proof {
            use_type_invariant(self);
        }
        let graph = self.graph;
        let changed = self.changed_ids(changes, tree);
        let affected = graph.get_transitive_dependents(changed.as_slice());
        proof {
            assert forall|x: FileId| affected@.contains(x) <==> is_affected(
                graph,
                changes@,
                tree,
                x,
            ) by {
                if affected@.contains(x) {
                    let i = choose|i: int|
                        0 <= i < changed@.len() && graph.depends_on(x, #[trigger] changed@[i]);
                    assert(changed@.contains(changed@[i]));
                }
                if is_affected(graph, changes@, tree, x) {
                    let c = choose|c: FileId|
                        is_changed(graph, changes@, tree, c) && #[trigger] graph.depends_on(x, c);
                    assert(changed@.contains(c));
                    let i = choose|i: int| 0 <= i < changed@.len() && changed@[i] == c;
                    assert(graph.depends_on(x, changed@[i]));
                }
            }
        }
        let marker = to_chars("node_modules");
        let mut tests: Vec<String> = Vec::new();
        let mut sources: Vec<String> = Vec::new();
        let total = graph.file_count();
        let mut id: usize = 0;
        while id < total
            invariant
                graph.wf(),
                total == graph.len(),
                id <= total,
                marker@ == "node_modules"@,
                forall|x: FileId| affected@.contains(x) <==> is_affected(graph, changes@, tree, x),
                forall|p: Seq<char>|
                    tests.deep_view().contains(p) <==> exists|x: FileId|
                        x < id && #[trigger] is_affected(graph, changes@, tree, x)
                            && graph.nodes()[x as int].is_test && graph.nodes()[x as int].path == p,
                forall|p: Seq<char>|
                    sources.deep_view().contains(p) <==> exists|x: FileId|
                        x < id && #[trigger] is_affected(graph, changes@, tree, x)
                            && !graph.nodes()[x as int].is_test && graph.nodes()[x as int].path == p
                            && !in_node_modules(p),
                tests.deep_view().no_duplicates(),
                sources.deep_view().no_duplicates(),
            decreases total - id,
        {
            let this = id as FileId;
            let ghost tests_before = tests.deep_view();
            let ghost sources_before = sources.deep_view();
            let ghost mut added_test = false;
            let ghost mut added_source = false;
            let ghost path = graph.nodes()[id as int].path;
            if affected.contains(&this) {
                match graph.get_file_node(this) {
                    Some(node) => {
                        if node.is_test {
                            tests.push(node.path.clone());
                            proof {
                                added_test = true;
                                assert(tests.deep_view() =~= tests_before.push(path));
                            }
                        } else {
                            let text = to_chars(node.path.as_str());
                            if !contains_segment(&text, &marker) {
                                sources.push(node.path.clone());
                                proof {
                                    added_source = true;
                                    assert(sources.deep_view() =~= sources_before.push(path));
                                }
                            }
                        }
                    },
                    None => {},
                }
            }
            proof {
                let t = tests.deep_view();
                let s = sources.deep_view();
                assert(t == if added_test {
                    tests_before.push(path)
                } else {
                    tests_before
                });
                assert(s == if added_source {
                    sources_before.push(path)
                } else {
                    sources_before
                });
                assert(added_test <==> is_affected(graph, changes@, tree, this)
                    && graph.nodes()[id as int].is_test);
                assert(added_source <==> is_affected(graph, changes@, tree, this)
                    && !graph.nodes()[id as int].is_test && !in_node_modules(path));
                assert forall|p: Seq<char>|
                    t.contains(p) <==> exists|x: FileId|
                        x < id + 1 && #[trigger] is_affected(graph, changes@, tree, x)
                            && graph.nodes()[x as int].is_test && graph.nodes()[x as int].path
                            == p by {
                    if t.contains(p) {
                        let k = choose|k: int| 0 <= k < t.len() && t[k] == p;
                        if k < tests_before.len() {
                            assert(tests_before[k] == p);
                            assert(tests_before.contains(p));
                            let x = choose|x: FileId|
                                x < id && #[trigger] is_affected(graph, changes@, tree, x)
                                    && graph.nodes()[x as int].is_test
                                    && graph.nodes()[x as int].path == p;
                            assert(x < id + 1);
                        } else {
                            assert(this < id + 1 && is_affected(graph, changes@, tree, this));
                        }
                    }
                    if exists|x: FileId|
                        x < id + 1 && #[trigger] is_affected(graph, changes@, tree, x)
                            && graph.nodes()[x as int].is_test && graph.nodes()[x as int].path
                            == p {
                        let x = choose|x: FileId|
                            x < id + 1 && #[trigger] is_affected(graph, changes@, tree, x)
                                && graph.nodes()[x as int].is_test && graph.nodes()[x as int].path
                                == p;
                        if x < id {
                            assert(tests_before.contains(p));
                            let k = choose|k: int|
                                0 <= k < tests_before.len() && tests_before[k] == p;
                            assert(t[k] == p);
                        } else {
                            assert(t[t.len() - 1] == p);
                        }
                    }
                }
                assert forall|p: Seq<char>|
                    s.contains(p) <==> exists|x: FileId|
                        x < id + 1 && #[trigger] is_affected(graph, changes@, tree, x)
                            && !graph.nodes()[x as int].is_test && graph.nodes()[x as int].path
                            == p && !in_node_modules(p) by {
                    if s.contains(p) {
                        let k = choose|k: int| 0 <= k < s.len() && s[k] == p;
                        if k < sources_before.len() {
                            assert(sources_before[k] == p);
                            assert(sources_before.contains(p));
                            let x = choose|x: FileId|
                                x < id && #[trigger] is_affected(graph, changes@, tree, x)
                                    && !graph.nodes()[x as int].is_test
                                    && graph.nodes()[x as int].path == p && !in_node_modules(p);
                            assert(x < id + 1);
                        } else {
                            assert(this < id + 1 && is_affected(graph, changes@, tree, this));
                        }
                    }
                    if exists|x: FileId|
                        x < id + 1 && #[trigger] is_affected(graph, changes@, tree, x)
                            && !graph.nodes()[x as int].is_test && graph.nodes()[x as int].path
                            == p && !in_node_modules(p) {
                        let x = choose|x: FileId|
                            x < id + 1 && #[trigger] is_affected(graph, changes@, tree, x)
                                && !graph.nodes()[x as int].is_test
                                && graph.nodes()[x as int].path == p && !in_node_modules(p);
                        if x < id {
                            assert(sources_before.contains(p));
                            let k = choose|k: int|
                                0 <= k < sources_before.len() && sources_before[k] == p;
                            assert(s[k] == p);
                        } else {
                            assert(s[s.len() - 1] == p);
                        }
                    }
                }
                if added_test {
                    if tests_before.contains(path) {
                        let x = choose|x: FileId|
                            x < id && #[trigger] is_affected(graph, changes@, tree, x)
                                && graph.nodes()[x as int].is_test && graph.nodes()[x as int].path
                                == path;
                        assert(graph.nodes()[x as int].path != graph.nodes()[id as int].path);
                    }
                    assert forall|a: int, b: int|
                        0 <= a < t.len() && 0 <= b < t.len() && a != b implies t[a] != t[b] by {
                        if a < tests_before.len() {
                            assert(tests_before.contains(tests_before[a]));
                        }
                        if b < tests_before.len() {
                            assert(tests_before.contains(tests_before[b]));
                        }
                    }
                }
                if added_source {
                    if sources_before.contains(path) {
                        let x = choose|x: FileId|
                            x < id && #[trigger] is_affected(graph, changes@, tree, x)
                                && !graph.nodes()[x as int].is_test
                                && graph.nodes()[x as int].path == path && !in_node_modules(path);
                        assert(graph.nodes()[x as int].path != graph.nodes()[id as int].path);
                    }
                    assert forall|a: int, b: int|
                        0 <= a < s.len() && 0 <= b < s.len() && a != b implies s[a] != s[b] by {
                        if a < sources_before.len() {
                            assert(sources_before.contains(sources_before[a]));
                        }
                        if b < sources_before.len() {
                            assert(sources_before.contains(sources_before[b]));
                        }
                    }
                }
            }
            id += 1;
        }
        let result = AffectedResult { tests: sort_paths(&tests), sources: sort_paths(&sources) };
        proof {
            assert forall|p: Seq<char>|
                result.tests.deep_view().contains(p) <==> is_affected_test(
                    graph,
                    changes@,
                    tree,
                    p,
                ) by {
                assert(result.tests.deep_view().contains(p) <==> tests.deep_view().contains(p));
            }
            assert forall|p: Seq<char>|
                result.sources.deep_view().contains(p) <==> is_affected_source(
                    graph,
                    changes@,
                    tree,
                    p,
                ) by {
                assert(result.sources.deep_view().contains(p) <==> sources.deep_view().contains(p));
            }
        }
        result
    }

    /// The changed files as a set.
    fn changed_files(&self, changes: &ChangeSet, tree: &FileTree) -> (changed: HashSet<FileId>)
        requires
            tree.wf(),
        ensures
            changed@ == changed_set(self.graph(), changes@, tree),
    {
        let ids = self.changed_ids(changes, tree);
        let mut changed: HashSet<FileId> = HashSet::new();
        let mut i: usize = 0;
        while i < ids.len()
            invariant
                i <= ids@.len(),
                forall|c: FileId| changed@.contains(c) <==> ids@.take(i as int).contains(c),
            decreases ids@.len() - i,
        {
            let ghost seen = ids@.take(i as int);
            let ghost next = ids@.take(i + 1);
            let ghost before = changed@;
            changed.insert(ids[i]);
            proof {
                assert(next =~= seen.push(ids@[i as int]));
                assert forall|c: FileId| changed@.contains(c) <==> next.contains(c) by {
                    if next.contains(c) {
                        let k = choose|k: int| 0 <= k < next.len() && next[k] == c;
                        if k < seen.len() {
                            assert(seen[k] == c);
                        }
                    }
                    if seen.contains(c) {
                        let k = choose|k: int| 0 <= k < seen.len() && seen[k] == c;
                        assert(next[k] == c);
                    }
                    if c == ids@[i as int] {
                        assert(next[i as int] == c);
                    }
                }
            }
            i += 1;
        }
        proof {
            assert(ids@.take(i as int) =~= ids@);
            assert(changed@ =~= changed_set(self.graph(), changes@, tree));
        }
        changed
    }

    /// The paths of the files of a walk.
    fn path_names(&self, w: &Vec<FileId>) -> (path: DependencyPath)
        requires
            forall|i: int| 0 <= i < w@.len() ==> w@[i] < self.graph().len(),
        ensures
            names_walk(self.graph(), &path, w@),
    {
        proof {
            use_type_invariant(self);
        }
        let graph = self.graph;
        let mut chain: Vec<String> = Vec::new();
        let mut i: usize = 0;
        while i < w.len()
            invariant
                graph.wf(),
                i <= w@.len(),
                forall|k: int| 0 <= k < w@.len() ==> w@[k] < graph.len(),
                chain.deep_view() == w@.take(i as int).map_values(path_at(graph)),
            decreases w@.len() - i,
        {
            let ghost before = chain.deep_view();
            match graph.get_file_path(w[i]) {
                Some(p) => {
                    chain.push(p.to_owned());
                    assert(chain.deep_view() =~= before.push(p@));
                },
                None => {},
            }
            assert(w@.take(i + 1).map_values(path_at(graph)) =~= before.push(
                graph.nodes()[w@[i as int] as int].path,
            ));
            i += 1;
        }
        assert(w@.take(i as int) =~= w@);
        DependencyPath { chain }
    }

    /// Why `changes` affect the test `test_path`: a shortest chain of
    /// imports from the test to a changed file, the test first. `None` where
    /// the test is not in the graph or no chain leads from it to a changed
    /// file.
    pub fn find_why(&self, test_path: &str, changes: &ChangeSet, tree: &FileTree) -> (found: Option<
        DependencyPath,
    >)
        requires
            tree.wf(),
        ensures
            match self.graph().lookup(test_path@, tree) {
                None => found is None,
                Some(test) => match found {
                    Some(path) => explains(self.graph(), changes@, tree, test, &path),
                    None => no_walk(
                        self.graph(),
                        true,
                        test,
                        changed_set(self.graph(), changes@, tree),
                    ),
                },
            },
    {
        proof {
            use_type_invariant(self);
        }
        let graph = self.graph;
        let test = match graph.get_file_id(test_path, tree) {
            Some(id) => id,
            None => {
                return None;
            },
        };
        proof {
            graph.lemma_lookup_known(test_path@, tree);
        }
        let changed = self.changed_files(changes, tree);
        match search(graph, test, &changed, true) {
            Some(w) => {
                proof {
                    crate::search::lemma_walk_in_graph(graph, true, w@);
                }
                let path = self.path_names(&w);
                Some(path)
            },
            None => None,
        }
    }

    /// How the test `test_path` comes to the changed files: for each changed
    /// file from which imports lead up to the test, one shortest chain of
    /// imports, the test first and the changed file last. Nothing where the
    /// test is not in the graph.
    pub fn find_all_paths_to_test(&self, test_path: &str, changes: &ChangeSet, tree: &FileTree) -> (paths:
        Vec<DependencyPath>)
        requires
            tree.wf(),
        ensures
            match self.graph().lookup(test_path@, tree) {
                None => paths@.len() == 0,
                Some(test) => exists|walks: Seq<Seq<FileId>>| #[trigger]
                    trace_back(self.graph(), changes@, tree, test, paths@, walks),
            },
    {
        proof {
            use_type_invariant(self);
        }
        let graph = self.graph;
        let mut paths: Vec<DependencyPath> = Vec::new();
        let test = match graph.get_file_id(test_path, tree) {
            Some(id) => id,
            None => {
                return paths;
            },
        };
        proof {
            graph.lemma_lookup_known(test_path@, tree);
        }
        let changed = self.changed_files(changes, tree);
        let mut goal: HashSet<FileId> = HashSet::new();
        goal.insert(test);
        assert(goal@ =~= set![test]);
        let ghost mut walks: Seq<Seq<FileId>> = Seq::empty();
        let total = graph.file_count();
        let mut id: usize = 0;
        while id < total
            invariant
                graph.wf(),
                graph == self.graph(),
                total == graph.len(),
                id <= total,
                test < graph.len(),
                goal@ == set![test],
                changed@ == changed_set(graph, changes@, tree),
                walks.len() == paths@.len(),
                forall|i: int|
                    0 <= i < walks.len() ==> names_walk(
                        graph,
                        &paths@[i],
                        (#[trigger] walks[i]).reverse(),
                    ) && is_changed(graph, changes@, tree, walks[i][0]) && is_shortest_walk(
                        graph,
                        false,
                        walks[i][0],
                        set![test],
                        walks[i],
                    ) && walks[i][0] < id,
                forall|i: int, j: int| 0 <= i < j < walks.len() ==> walks[i][0] < walks[j][0],
                forall|c: FileId|
                    c < id && is_changed(graph, changes@, tree, c) && !no_walk(
                        graph,
                        false,
                        c,
                        set![test],
                    ) ==> exists|i: int| 0 <= i < walks.len() && (#[trigger] walks[i])[0] == c,
            decreases total - id,
        {
            let this = id as FileId;
            let ghost walks_before = walks;
            if changed.contains(&this) {
                match search(graph, this, &goal, false) {
                    Some(w) => {
                        proof {
                            crate::search::lemma_walk_in_graph(graph, false, w@);
                        }
                        let path = self.path_names(&reversed(&w));
                        paths.push(path);
                        proof {
                            walks = walks.push(w@);
                            assert(walks[walks.len() - 1][0] == this);
                        }
                    },
                    None => {},
                }
            }
            proof {
                assert forall|c: FileId|
                    c < id + 1 && is_changed(graph, changes@, tree, c) && !no_walk(
                        graph,
                        false,
                        c,
                        set![test],
                    ) implies exists|i: int| 0 <= i < walks.len() && (#[trigger] walks[i])[0]
                    == c by {
                    if c < id {
                        let i = choose|i: int|
                            0 <= i < walks_before.len() && (#[trigger] walks_before[i])[0] == c;
                        assert(walks[i][0] == c);
                    } else {
                        assert(walks[walks.len() - 1][0] == c);
                    }
                }
            }
            id += 1;
        }
        proof {
            assert forall|c: FileId|
                is_changed(graph, changes@, tree, c) && !no_walk(
                    graph,
                    false,
                    c,
                    set![test],
                ) implies exists|i: int| 0 <= i < walks.len() && (#[trigger] walks[i])[0] == c by {
                assert(changed@.contains(c));
                let k = choose|k: int|
                    0 <= k < changes@.all_changed().len() && graph.lookup(
                        #[trigger] changes@.all_changed()[k],
                        tree,
                    ) == Some(c);
                graph.lemma_lookup_known(changes@.all_changed()[k], tree);
            }
            assert(trace_back(graph, changes@, tree, test, paths@, walks));
        }
        paths
    }

    /// How many tests the graph holds, and how many other files.
    pub fn get_totals(&self) -> (totals: (usize, usize))
        ensures
            totals.0 == self.graph().all_ids().filter(self.graph().test_flag()).len(),
            totals.0 + totals.1 == self.graph().len(),
    {
        proof {
            use_type_invariant(self);
            self.graph.all_ids().lemma_filter_len(self.graph.test_flag());
        }
        let all_files = self.graph.get_all_files();
        let test_count = self.graph.get_test_files().len();
        let source_count = all_files.len() - test_count;
        (test_count, source_count)
    }
}

} // verus!
