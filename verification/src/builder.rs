//! Building the graph of a project, and bringing it up to date.
//!
//! Walking directories and reading files is left to the caller, which
//! hands over what it found: the paths it walked, a snapshot of the file
//! system, and the imports parsed from the files that were to be parsed.

use crate::config::{all_portable, extension_among, in_node_modules, portable, Config};
use crate::fs::FileTree;
use crate::graph::{path_of, stale_in, DependencyGraph, FileId, FileNode};
use crate::seqs;
use vstd::hash_map::StringHashMap;
use crate::parser::ImportInfo;
use crate::resolver::PathResolver;
use vstd::prelude::*;
use vstd::string::StringExecFns;

verus! {

/// What went wrong when the graph was built.
#[derive(Debug)]
pub enum BuildError {
    /// The directory tree could not be walked.
    WalkError(String),
    /// The graph cannot hold what was found.
    GraphError(String),
}

impl BuildError {
    /// The message of the error.
    pub open spec fn message(&self) -> Seq<char> {
        match self {
            BuildError::WalkError(m) => "Failed to walk directory: "@ + m@,
            BuildError::GraphError(m) => "Failed to build graph: "@ + m@,
        }
    }

    /// The message of the error, as text.
    pub fn to_string(&self) -> (text: String)
        ensures
            text@ == self.message(),
    {
        match self {
            BuildError::WalkError(m) => String::from_str("Failed to walk directory: ").concat(
                m.as_str(),
            ),
            BuildError::GraphError(m) => String::from_str("Failed to build graph: ").concat(
                m.as_str(),
            ),
        }
    }
}

/// A file with the answer to "is it a test".
pub struct ClassifiedFile {
    pub path: String,
    pub is_test: bool,
}

/// A file with the imports that were parsed from it.
pub struct ParsedFile {
    pub path: String,
    pub imports: Vec<ImportInfo>,
}

/// A file with the files that its imports resolved to.
pub struct ResolvedFile {
    pub path: String,
    pub targets: Vec<String>,
}

/// The links of `links` before position (`k`, `j`) give an edge from `u`
/// to `v`: `u` is the file of a link, `v` is one of its targets, and both
/// are files of the graph.
pub open spec fn linked_before(
    graph: &DependencyGraph,
    links: Seq<ResolvedFile>,
    tree: &FileTree,
    k: int,
    j: int,
    u: FileId,
    v: FileId,
) -> bool {
    exists|a: int, b: int|
        0 <= a < links.len() && 0 <= b < links[a].targets@.len() && (a < k || (a == k && b < j))
            && graph.lookup(links[a].path@, tree) == Some(u) && graph.lookup(
            (#[trigger] links[a].targets@[b])@,
            tree,
        ) == Some(v)
}

/// The links of `links` give an edge from `u` to `v`.
pub open spec fn linked(
    graph: &DependencyGraph,
    links: Seq<ResolvedFile>,
    tree: &FileTree,
    u: FileId,
    v: FileId,
) -> bool {
    linked_before(graph, links, tree, links.len() as int, 0, u, v)
}

/// The number of targets in `links`.
pub open spec fn link_count(links: Seq<ResolvedFile>) -> nat
    decreases links.len(),
{
    if links.len() == 0 {
        0
    } else {
        link_count(links.drop_last()) + links.last().targets@.len()
    }
}

/// Adds the edges that `links` give to the graph. A link whose file is
/// not in the graph adds nothing, nor does a target that is not in it.
/// Fails, with the edges added so far, where the graph is full.
pub fn link(graph: &mut DependencyGraph, links: &Vec<ResolvedFile>, tree: &FileTree) -> (done: Result<
    (),
    BuildError,
>)
    requires
        old(graph).wf(),
        tree.wf(),
    ensures
        final(graph).wf(),
        final(graph).nodes() == old(graph).nodes(),
        match done {
            Ok(()) => forall|u: FileId, v: FileId|
                final(graph).has_edge(u, v) <==> old(graph).has_edge(u, v) || linked(
                    old(graph),
                    links@,
                    tree,
                    u,
                    v,
                ),
            Err(e) => e is GraphError && final(graph).edges().len() >= u32::MAX,
        },
        old(graph).edges().len() + link_count(links@) < u32::MAX ==> done is Ok,
        final(graph).edges().len() <= old(graph).edges().len() + link_count(links@),
{
    let mut k: usize = 0;
    assert(links@.take(0) =~= Seq::<ResolvedFile>::empty());
    while k < links.len()
        invariant
            graph.wf(),
            tree.wf(),
            k <= links@.len(),
            graph.edges().len() <= old(graph).edges().len() + link_count(links@.take(k as int)),
            link_count(links@.take(k as int)) <= link_count(links@),
            graph.nodes() == old(graph).nodes(),
            forall|u: FileId, v: FileId|
                graph.has_edge(u, v) <==> old(graph).has_edge(u, v) || linked_before(
                    old(graph),
                    links@,
                    tree,
                    k as int,
                    0,
                    u,
                    v,
                ),
        decreases links@.len() - k,
    {
        let file = &links[k];
        proof {
            assert(links@.take(k + 1).drop_last() =~= links@.take(k as int));
            assert(links@.take(k + 1).last() == links@[k as int]);
            lemma_link_count_prefix(links@, k + 1);
        }
        match graph.get_file_id(file.path.as_str(), tree) {
            Some(from) => {
                proof {
                    graph.lemma_lookup_known(file.path@, tree);
                }
                let mut j: usize = 0;
                while j < file.targets.len()
                    invariant
                        graph.wf(),
                        tree.wf(),
                        k < links@.len(),
                        file == &links@[k as int],
                        j <= file.targets@.len(),
                        graph.edges().len() <= old(graph).edges().len() + link_count(
                            links@.take(k as int),
                        ) + j,
                        link_count(links@.take(k as int)) + file.targets@.len() <= link_count(
                            links@,
                        ),
                        from < graph.len(),
                        graph.lookup(file.path@, tree) == Some(from),
                        graph.nodes() == old(graph).nodes(),
                        forall|u: FileId, v: FileId|
                            graph.has_edge(u, v) <==> old(graph).has_edge(u, v) || linked_before(
                                old(graph),
                                links@,
                                tree,
                                k as int,
                                j as int,
                                u,
                                v,
                            ),
                    decreases file.targets@.len() - j,
                {
                    let ghost before = *graph;
                    let added = graph.get_file_id(file.targets[j].as_str(), tree);
                    match added {
                        Some(to) => {
                            proof {
                                graph.lemma_lookup_known(file.targets@[j as int]@, tree);
                            }
                            if graph.edge_count() >= u32::MAX as usize {
                                return Err(
                                    BuildError::GraphError(String::from_str("too many edges")),
                                );
                            }
                            proof {
                                vstd::set::axiom_set_insert_len(graph.edges(), (from, to));
                            }
                            graph.add_dependency(from, to);
                        },
                        None => {},
                    }
                    proof {
                        assert forall|u: FileId, v: FileId|
                            graph.has_edge(u, v) <==> old(graph).has_edge(u, v) || linked_before(
                                old(graph),
                                links@,
                                tree,
                                k as int,
                                j + 1,
                                u,
                                v,
                            ) by {
                            let now = linked_before(old(graph), links@, tree, k as int, j + 1, u, v);
                            let was = linked_before(
                                old(graph),
                                links@,
                                tree,
                                k as int,
                                j as int,
                                u,
                                v,
                            );
                            let here = added == Some(v) && from == u;
                            assert(before.has_edge(u, v) <==> old(graph).has_edge(u, v) || was);
                            assert(graph.has_edge(u, v) <==> before.has_edge(u, v) || here) by {
                                if added is Some {
                                    assert(graph.edges() == before.edges().insert(
                                        (from, added.unwrap()),
                                    ) || graph.edges() == before.edges());
                                }
                            }
                            assert(old(graph).lookup(file.path@, tree) == Some(from));
                            assert(old(graph).lookup(file.targets@[j as int]@, tree) == added);
                            if was {
                                let (a, b) = choose|a: int, b: int|
                                    0 <= a < links@.len() && 0 <= b < links@[a].targets@.len() && (a
                                        < k || (a == k && b < j)) && old(graph).lookup(
                                        links@[a].path@,
                                        tree,
                                    ) == Some(u) && old(graph).lookup(
                                        (#[trigger] links@[a].targets@[b])@,
                                        tree,
                                    ) == Some(v);
                                assert(a < k || (a == k && b < j + 1));
                            }
                            if here {
                                assert(0 <= j < links@[k as int].targets@.len() && old(graph).lookup((#[trigger] links@[k as int].targets@[j as int])@, tree)
                                    == Some(v));
                            }
                            if now {
                                let (a, b) = choose|a: int, b: int|
                                    0 <= a < links@.len() && 0 <= b < links@[a].targets@.len() && (a
                                        < k || (a == k && b < j + 1)) && old(graph).lookup(
                                        links@[a].path@,
                                        tree,
                                    ) == Some(u) && old(graph).lookup(
                                        (#[trigger] links@[a].targets@[b])@,
                                        tree,
                                    ) == Some(v);
                                if a == k && b == j {
                                    assert(here);
                                } else {
                                    assert(a < k || (a == k && b < j));
                                    assert(was);
                                }
                            }
                            assert(now <==> was || here);
                        }
                    }
                    j += 1;
                }
            },
            None => {
                assert(old(graph).lookup(file.path@, tree) is None);
            },
        }
        proof {
            assert forall|u: FileId, v: FileId|
                graph.has_edge(u, v) <==> old(graph).has_edge(u, v) || linked_before(
                    old(graph),
                    links@,
                    tree,
                    k + 1,
                    0,
                    u,
                    v,
                ) by {
                let n = links@[k as int].targets@.len() as int;
                let reached = if graph.lookup(file.path@, tree) is Some {
                    n
                } else {
                    0
                };
                let was = linked_before(old(graph), links@, tree, k as int, reached, u, v);
                let now = linked_before(old(graph), links@, tree, k + 1, 0, u, v);
                assert(old(graph).lookup(file.path@, tree) == graph.lookup(file.path@, tree));
                if was {
                    let (a, b) = choose|a: int, b: int|
                        0 <= a < links@.len() && 0 <= b < links@[a].targets@.len() && (a < k || (a
                            == k && b < reached)) && old(graph).lookup(links@[a].path@, tree)
                            == Some(u) && old(graph).lookup(
                            (#[trigger] links@[a].targets@[b])@,
                            tree,
                        ) == Some(v);
                    assert(a < k + 1 || (a == k + 1 && b < 0));
                }
                if now {
                    let (a, b) = choose|a: int, b: int|
                        0 <= a < links@.len() && 0 <= b < links@[a].targets@.len() && (a < k + 1
                            || (a == k + 1 && b < 0)) && old(graph).lookup(links@[a].path@, tree)
                            == Some(u) && old(graph).lookup(
                            (#[trigger] links@[a].targets@[b])@,
                            tree,
                        ) == Some(v);
                    assert(a < k || (a == k && b < reached));
                }
                assert(now <==> was);
            }
        }
        k += 1;
    }
    Ok(())
}

/// What the imports `imports` of the file `path` resolve to, in their
/// order; an import that does not resolve gives nothing.
pub open spec fn targets_of(
    resolver: &PathResolver,
    tree: &FileTree,
    path: Seq<char>,
    imports: Seq<ImportInfo>,
) -> Seq<Seq<char>>
    decreases imports.len(),
{
    if imports.len() == 0 {
        Seq::empty()
    } else {
        let rest = targets_of(resolver, tree, path, imports.drop_last());
        match resolver.resolution(tree, path, imports.last().source@) {
            Some(found) => rest.push(found),
            None => rest,
        }
    }
}

/// `links` hold, file by file, what the imports of `parsed` resolve to.
pub open spec fn resolution_of(
    resolver: &PathResolver,
    tree: &FileTree,
    parsed: Seq<ParsedFile>,
    links: Seq<ResolvedFile>,
) -> bool {
    &&& links.len() == parsed.len()
    &&& forall|k: int|
        0 <= k < links.len() ==> (#[trigger] links[k]).path@ == parsed[k].path@
            && links[k].targets.deep_view() == targets_of(
            resolver,
            tree,
            parsed[k].path@,
            parsed[k].imports@,
        )
}

/// The number of imports in `parsed`.
pub open spec fn import_count(parsed: Seq<ParsedFile>) -> nat
    decreases parsed.len(),
{
    if parsed.len() == 0 {
        0
    } else {
        import_count(parsed.drop_last()) + parsed.last().imports@.len()
    }
}

/// Resolving gives no more targets than there are imports.
pub proof fn lemma_targets_bounded(
    resolver: &PathResolver,
    tree: &FileTree,
    path: Seq<char>,
    imports: Seq<ImportInfo>,
)
    ensures
        targets_of(resolver, tree, path, imports).len() <= imports.len(),
    decreases imports.len(),
{
    if imports.len() > 0 {
        lemma_targets_bounded(resolver, tree, path, imports.drop_last());
    }
}

/// The links that a resolution gives are no more than the imports it
/// started from.
pub proof fn lemma_links_bounded(
    resolver: &PathResolver,
    tree: &FileTree,
    parsed: Seq<ParsedFile>,
    links: Seq<ResolvedFile>,
)
    requires
        resolution_of(resolver, tree, parsed, links),
    ensures
        link_count(links) <= import_count(parsed),
    decreases parsed.len(),
{
    if parsed.len() > 0 {
        let last = links.len() - 1;
        assert forall|k: int| 0 <= k < last implies (#[trigger] links.drop_last()[k]).path@
            == parsed.drop_last()[k].path@ && links.drop_last()[k].targets.deep_view()
            == targets_of(
            resolver,
            tree,
            parsed.drop_last()[k].path@,
            parsed.drop_last()[k].imports@,
        ) by {
            assert(links.drop_last()[k] == links[k]);
        }
        lemma_links_bounded(resolver, tree, parsed.drop_last(), links.drop_last());
        lemma_targets_bounded(resolver, tree, parsed.last().path@, parsed.last().imports@);
        assert(links[last].targets.deep_view().len() == links[last].targets@.len());
    }
}

/// `node` is the record that `tree` gives for one of `files`.
pub open spec fn is_record_of(
    node: crate::graph::FileNodeView,
    files: Seq<ClassifiedFile>,
    tree: &FileTree,
) -> bool {
    exists|i: int|
        0 <= i < files.len() && node == FileNode::snapshot_of(
            tree.canonical_or_same((#[trigger] files[i]).path@),
            files[i].is_test,
            tree,
        )
}

/// Every file of `files` is in the graph under its canonical path, and
/// every file of the graph is one of them, with the record that `tree` gives.
pub open spec fn holds_files(graph: &DependencyGraph, files: Seq<ClassifiedFile>, tree: &FileTree) -> bool {
    &&& forall|i: int|
        0 <= i < files.len() ==> graph.id_of(tree.canonical_or_same((#[trigger] files[i]).path@))
            is Some
    &&& forall|id: int| 0 <= id < graph.len() ==> is_record_of(#[trigger] graph.nodes()[id], files, tree)
}

/// The graph of `files` with the edges that `links` give. Fails where
/// the graph cannot hold that many files or edges.
pub fn assemble(files: &Vec<ClassifiedFile>, links: &Vec<ResolvedFile>, tree: &FileTree) -> (built:
    Result<DependencyGraph, BuildError>)
    requires
        tree.wf(),
    ensures
        match built {
            Ok(graph) => graph.wf() && holds_files(&graph, files@, tree) && forall|
                u: FileId,
                v: FileId,
            |
                graph.has_edge(u, v) <==> linked(&graph, links@, tree, u, v),
            Err(e) => e is GraphError,
        },
        files@.len() < u32::MAX && link_count(links@) < u32::MAX ==> built is Ok,
{
    let mut graph = DependencyGraph::new();
    let mut i: usize = 0;
    while i < files.len()
        invariant
            graph.wf(),
            tree.wf(),
            i <= files@.len(),
            graph.len() <= i,
            graph.edges() == Set::<(FileId, FileId)>::empty(),
            holds_files(&graph, files@.take(i as int), tree),
        decreases files@.len() - i,
    {
        if graph.file_count() >= u32::MAX as usize {
            return Err(BuildError::GraphError(String::from_str("too many files")));
        }
        let ghost before = graph;
        let ghost seen = files@.take(i as int);
        let ghost next = files@.take(i + 1);
        let ghost path = tree.canonical_or_same(files@[i as int].path@);
        let id = graph.add_file(files[i].path.clone(), files[i].is_test, tree);
        proof {
            assert(next =~= seen.push(files@[i as int]));
            assert(graph.nodes()[id as int].path == path);
            assert forall|k: int| 0 <= k < next.len() implies graph.id_of(
                tree.canonical_or_same((#[trigger] next[k]).path@),
            ) is Some by {
                if k < i {
                    assert(next[k] == seen[k]);
                    let p = tree.canonical_or_same(seen[k].path@);
                    before.lemma_path_of_id(p);
                    let at = before.id_of(p).unwrap() as int;
                    assert(graph.nodes()[at].path == p);
                }
            }
            assert forall|at: int| 0 <= at < graph.len() implies is_record_of(
                #[trigger] graph.nodes()[at],
                next,
                tree,
            ) by {
                if at < before.len() {
                    assert(graph.nodes()[at] == before.nodes()[at]);
                    assert(is_record_of(before.nodes()[at], seen, tree));
                    let k = choose|k: int|
                        0 <= k < seen.len() && before.nodes()[at] == FileNode::snapshot_of(
                            tree.canonical_or_same((#[trigger] seen[k]).path@),
                            seen[k].is_test,
                            tree,
                        );
                    assert(next[k] == seen[k]);
                } else {
                    assert(next[i as int] == files@[i as int]);
                }
            }
        }
        i += 1;
    }
    assert(files@.take(i as int) =~= files@);
    assert(graph.edges().len() == 0);
    let ghost filled = graph;
    assert(holds_files(&filled, files@, tree));
    match link(&mut graph, links, tree) {
        Ok(()) => {
            proof {
                assert forall|u: FileId, v: FileId|
                    graph.has_edge(u, v) <==> linked(&graph, links@, tree, u, v) by {
                    assert(!filled.has_edge(u, v));
                    lemma_linked_same(&filled, &graph, links@, tree, u, v);
                }
                lemma_holds_files_same(&filled, &graph, files@, tree);
            }
            Ok(graph)
        },
        Err(e) => Err(e),
    }
}

/// Which files a graph holds depends on its records alone.
pub proof fn lemma_holds_files_same(
    one: &DependencyGraph,
    other: &DependencyGraph,
    files: Seq<ClassifiedFile>,
    tree: &FileTree,
)
    requires
        one.nodes() == other.nodes(),
        holds_files(one, files, tree),
    ensures
        holds_files(other, files, tree),
{
    assert forall|p: Seq<char>| one.id_of(p) == other.id_of(p) by {}
    assert forall|i: int| 0 <= i < files.len() implies other.id_of(
        tree.canonical_or_same((#[trigger] files[i]).path@),
    ) is Some by {
        assert(one.id_of(tree.canonical_or_same(files[i].path@)) is Some);
    }
    assert forall|id: int| 0 <= id < other.len() implies is_record_of(
        #[trigger] other.nodes()[id],
        files,
        tree,
    ) by {
        assert(is_record_of(one.nodes()[id], files, tree));
    }
}

/// A prefix of the links has no more targets than all of them.
pub proof fn lemma_link_count_prefix(links: Seq<ResolvedFile>, k: int)
    requires
        0 <= k <= links.len(),
    ensures
        link_count(links.take(k)) <= link_count(links),
    decreases links.len() - k,
{
    if k < links.len() {
        lemma_link_count_prefix(links, k + 1);
        assert(links.take(k + 1).drop_last() =~= links.take(k));
    } else {
        assert(links.take(k) =~= links);
    }
}

/// Which links give an edge depends on the files of the graph alone.
pub proof fn lemma_linked_same(
    one: &DependencyGraph,
    other: &DependencyGraph,
    links: Seq<ResolvedFile>,
    tree: &FileTree,
    u: FileId,
    v: FileId,
)
    requires
        one.nodes() == other.nodes(),
    ensures
        linked(one, links, tree, u, v) == linked(other, links, tree, u, v),
{
    assert forall|p: Seq<char>| one.lookup(p, tree) == other.lookup(p, tree) by {}
    if linked(one, links, tree, u, v) {
        let (a, b) = choose|a: int, b: int|
            0 <= a < links.len() && 0 <= b < links[a].targets@.len() && (a < links.len() || (a
                == links.len() && b < 0)) && one.lookup(links[a].path@, tree) == Some(u)
                && one.lookup((#[trigger] links[a].targets@[b])@, tree) == Some(v);
        assert(other.lookup(links[a].path@, tree) == Some(u) && other.lookup(
            (#[trigger] links[a].targets@[b])@,
            tree,
        ) == Some(v));
    }
    if linked(other, links, tree, u, v) {
        let (a, b) = choose|a: int, b: int|
            0 <= a < links.len() && 0 <= b < links[a].targets@.len() && (a < links.len() || (a
                == links.len() && b < 0)) && other.lookup(links[a].path@, tree) == Some(u)
                && other.lookup((#[trigger] links[a].targets@[b])@, tree) == Some(v);
        assert(one.lookup(links[a].path@, tree) == Some(u) && one.lookup(
            (#[trigger] links[a].targets@[b])@,
            tree,
        ) == Some(v));
    }
}

/// Each file of `classified` is flagged as the configuration says, as far
/// as that is the same on every platform.
pub open spec fn sorted_out(config: &Config, classified: Seq<ClassifiedFile>) -> bool {
    forall|i: int|
        0 <= i < classified.len() && all_portable(config.test_patterns.deep_view()) && portable(
            (#[trigger] classified[i]).path@,
        ) ==> classified[i].is_test == config.counts_as_test(classified[i].path@)
}

/// `classified` are the files `paths`, each flagged as the configuration
/// says: always as a test where its name has a test marker.
pub open spec fn classification_of(
    config: &Config,
    paths: Seq<Seq<char>>,
    classified: Seq<ClassifiedFile>,
) -> bool {
    &&& classified.len() == paths.len()
    &&& forall|i: int|
        0 <= i < paths.len() ==> (#[trigger] classified[i]).path@ == paths[i] && (
        crate::config::has_test_marker(paths[i]) ==> classified[i].is_test)
    &&& sorted_out(config, classified)
}

/// `ignored` says for each path of `walked` whether the configuration
/// passes it over: always where the path lies below `node_modules`, and
/// only there where no ignore patterns are configured.
pub open spec fn ignore_answers(config: &Config, walked: Seq<Seq<char>>, ignored: Seq<bool>) -> bool {
    &&& ignored.len() == walked.len()
    &&& forall|i: int|
        0 <= i < walked.len() ==> (in_node_modules(walked[i]) ==> #[trigger] ignored[i]) && (
        config.ignore_patterns@.len() == 0 ==> ignored[i] == in_node_modules(walked[i])) && (
        all_portable(config.ignore_patterns.deep_view()) && portable(walked[i]) ==> ignored[i]
            == config.passes_over(walked[i]))
}

/// For each path of `walked`, whether the configuration passes it over.
pub open spec fn passed_over(config: &Config, walked: Seq<Seq<char>>) -> Seq<bool> {
    Seq::new(walked.len(), |i: int| config.passes_over(walked[i]))
}

/// The paths of `walked` that are regular files with one of the
/// extensions and are not passed over, in their order.
pub open spec fn kept_files(
    walked: Seq<Seq<char>>,
    ignored: Seq<bool>,
    tree: &FileTree,
    extensions: Seq<Seq<char>>,
) -> Seq<Seq<char>>
    decreases walked.len(),
{
    if walked.len() == 0 {
        Seq::empty()
    } else {
        let rest = kept_files(walked.drop_last(), ignored.drop_last(), tree, extensions);
        if tree.has_file(walked.last()) && extension_among(walked.last(), extensions)
            && !ignored.last() {
            rest.push(walked.last())
        } else {
            rest
        }
    }
}

/// Builds and updates the graph of one project.
pub struct GraphBuilder {
    pub root: String,
    pub config: Config,
    pub resolver: PathResolver,
}

impl GraphBuilder {
    /// A builder for the project at `root`. Where `tree` holds the project
    /// configuration `tsconfig.json` of the root, its resolution settings are
    /// taken over; a configuration that cannot be read is passed over.
    pub fn new(root: String, config: Config, tree: &FileTree) -> (builder: Self)
        requires
            tree.wf(),
        ensures
            builder.root@ == root@,
            builder.config == config,
            builder.resolver.root@ == root@,
            builder.resolver.extensions() == seq![".ts"@, ".tsx"@, ".js"@, ".jsx"@],
            match PathResolver::settings_at(
                tree,
                crate::path::joined_path(root@, "tsconfig.json"@),
            ) {
                Some((base_url, paths)) => builder.resolver.config.paths.deep_view()
                    == crate::resolver::with_aliases(Seq::empty(), paths)
                    && builder.resolver.config.base_url.deep_view() == match base_url {
                    Some(url) => Some(
                        crate::path::joined_path(
                            crate::path::parent_of(
                                crate::path::joined_path(root@, "tsconfig.json"@),
                            ),
                            url,
                        ),
                    ),
                    None => None,
                },
                None => builder.resolver.config.base_url is None
                    && builder.resolver.config.paths@.len() == 0,
            },
    {
        let mut resolver = PathResolver::new(root.clone());
        assert(resolver.config.paths.deep_view() =~= Seq::empty());
        let tsconfig = crate::path::join(root.as_str(), "tsconfig.json");
        if tree.is_listed(tsconfig.as_str()) {
            let _ = resolver.load_tsconfig(tsconfig.as_str(), tree);
        }
        GraphBuilder { root, config, resolver }
    }

    /// For each path of `walked`, whether the configuration passes it
    /// over.
    pub fn ignore_flags(&self, walked: &Vec<String>) -> (ignored: Vec<bool>)
        ensures
            ignore_answers(&self.config, walked.deep_view(), ignored@),
    {
        let ghost all = walked.deep_view();
        let mut ignored: Vec<bool> = Vec::new();
        let mut i: usize = 0;
        while i < walked.len()
            invariant
                i <= walked@.len(),
                all == walked.deep_view(),
                ignored@.len() == i,
                forall|k: int|
                    0 <= k < i ==> (in_node_modules(all[k]) ==> #[trigger] ignored@[k]) && (
                    self.config.ignore_patterns@.len() == 0 ==> ignored@[k] == in_node_modules(
                        all[k],
                    )) && (all_portable(self.config.ignore_patterns.deep_view()) && portable(
                        all[k],
                    ) ==> ignored@[k] == self.config.passes_over(all[k])),
            decreases walked@.len() - i,
        {
            assert(all[i as int] == walked@[i as int]@);
            ignored.push(self.config.should_ignore(walked[i].as_str()));
            i += 1;
        }
        ignored
    }

    /// The files of `walked` that belong to the project, given which of
    /// them are passed over: the regular files with a configured extension
    /// that are not passed over, in the order of `walked`.
    pub fn select_files(&self, walked: &Vec<String>, ignored: &Vec<bool>, tree: &FileTree) -> (files:
        Vec<String>)
        requires
            tree.wf(),
            ignored@.len() == walked@.len(),
        ensures
            files.deep_view() == kept_files(
                walked.deep_view(),
                ignored@,
                tree,
                self.config.extensions.deep_view(),
            ),
    {
        let ghost all = walked.deep_view();
        let ghost extensions = self.config.extensions.deep_view();
        let mut files: Vec<String> = Vec::new();
        assert(files.deep_view() =~= kept_files(all.take(0), ignored@.take(0), tree, extensions));
        let mut i: usize = 0;
        while i < walked.len()
            invariant
                tree.wf(),
                i <= walked@.len(),
                ignored@.len() == walked@.len(),
                all == walked.deep_view(),
                extensions == self.config.extensions.deep_view(),
                files.deep_view() == kept_files(
                    all.take(i as int),
                    ignored@.take(i as int),
                    tree,
                    extensions,
                ),
            decreases walked@.len() - i,
        {
            proof {
                assert(all.take(i + 1).drop_last() =~= all.take(i as int));
                assert(ignored@.take(i + 1).drop_last() =~= ignored@.take(i as int));
                assert(all.take(i + 1).last() == walked@[i as int]@);
                assert(ignored@.take(i + 1).last() == ignored@[i as int]);
            }
            let ghost before = files.deep_view();
            let path = &walked[i];
            if tree.is_file(path.as_str()) && self.config.is_supported_extension(path.as_str())
                && !ignored[i] {
                files.push(path.clone());
                assert(files.deep_view() =~= before.push(path@));
            }
            i += 1;
        }
        assert(all.take(i as int) =~= all);
        assert(ignored@.take(i as int) =~= ignored@);
        files
    }

    /// The files of `walked` that belong to the project: regular files with
    /// a configured extension that the configuration does not pass over,
    /// in the order of `walked`. No file below `node_modules` is among them.
    /// Where a path or an ignore pattern holds a backslash, only what holds
    /// whatever the patterns answer is stated;
    /// [`GraphBuilder::select_files`] says what follows from their answers.
    pub fn discover_files(&self, walked: &Vec<String>, tree: &FileTree) -> (files: Vec<String>)
        requires
            tree.wf(),
        ensures
            all_portable(self.config.ignore_patterns.deep_view()) && all_portable(
                walked.deep_view(),
            ) ==> files.deep_view() == kept_files(
                walked.deep_view(),
                passed_over(&self.config, walked.deep_view()),
                tree,
                self.config.extensions.deep_view(),
            ),
            exists|ignored: Seq<bool>|
                ignore_answers(&self.config, walked.deep_view(), ignored) && #[trigger] kept_files(
                    walked.deep_view(),
                    ignored,
                    tree,
                    self.config.extensions.deep_view(),
                ) == files.deep_view(),
    {
        let ignored = self.ignore_flags(walked);
        let files = self.select_files(walked, &ignored, tree);
        assert(all_portable(self.config.ignore_patterns.deep_view()) && all_portable(
            walked.deep_view(),
        ) ==> ignored@ =~= passed_over(&self.config, walked.deep_view()));
        assert(ignore_answers(&self.config, walked.deep_view(), ignored@) && kept_files(
            walked.deep_view(),
            ignored@,
            tree,
            self.config.extensions.deep_view(),
        ) == files.deep_view());
        files
    }

    /// The files of `files`, each with the answer of the configuration to
    /// "is it a test".
    pub fn classify(&self, files: &Vec<String>) -> (classified: Vec<ClassifiedFile>)
        ensures
            classified@.len() == files@.len(),
            forall|i: int|
                0 <= i < files@.len() ==> (#[trigger] classified@[i]).path@ == files@[i]@ && (
                crate::config::has_test_marker(files@[i]@) ==> classified@[i].is_test),
            sorted_out(&self.config, classified@),
            classification_of(&self.config, files.deep_view(), classified@),
    {
        let mut classified: Vec<ClassifiedFile> = Vec::new();
        let mut i: usize = 0;
        while i < files.len()
            invariant
                i <= files@.len(),
                classified@.len() == i,
                forall|k: int|
                    0 <= k < i ==> (#[trigger] classified@[k]).path@ == files@[k]@ && (
                    crate::config::has_test_marker(files@[k]@) ==> classified@[k].is_test),
                sorted_out(&self.config, classified@),
            decreases files@.len() - i,
        {
            let is_test = self.config.is_test_file(files[i].as_str());
            classified.push(ClassifiedFile { path: files[i].clone(), is_test });
            i += 1;
        }
        assert forall|i: int| 0 <= i < files@.len() implies (#[trigger] classified@[i]).path@
            == files.deep_view()[i] by {}
        classified
    }

    /// What the imports of each parsed file resolve to.
    pub fn resolve_imports(&self, parsed: &Vec<ParsedFile>, tree: &FileTree) -> (links: Vec<
        ResolvedFile,
    >)
        requires
            tree.wf(),
        ensures
            resolution_of(&self.resolver, tree, parsed@, links@),
    {
        let mut links: Vec<ResolvedFile> = Vec::new();
        let mut k: usize = 0;
        while k < parsed.len()
            invariant
                tree.wf(),
                k <= parsed@.len(),
                links@.len() == k,
                forall|a: int|
                    0 <= a < k ==> (#[trigger] links@[a]).path@ == parsed@[a].path@
                        && links@[a].targets.deep_view() == targets_of(
                        &self.resolver,
                        tree,
                        parsed@[a].path@,
                        parsed@[a].imports@,
                    ),
            decreases parsed@.len() - k,
        {
            let file = &parsed[k];
            let mut targets: Vec<String> = Vec::new();
            assert(targets.deep_view() =~= Seq::<Seq<char>>::empty());
            let mut j: usize = 0;
            while j < file.imports.len()
                invariant
                    tree.wf(),
                    j <= file.imports@.len(),
                    targets.deep_view() == targets_of(
                        &self.resolver,
                        tree,
                        file.path@,
                        file.imports@.take(j as int),
                    ),
                decreases file.imports@.len() - j,
            {
                let ghost before = targets.deep_view();
                proof {
                    assert(file.imports@.take(j + 1).drop_last() =~= file.imports@.take(j as int));
                    assert(file.imports@.take(j + 1).last() == file.imports@[j as int]);
                }
                match self.resolver.resolve(
                    file.path.as_str(),
                    file.imports[j].source.as_str(),
                    tree,
                ) {
                    Ok(found) => {
                        targets.push(found);
                        assert(targets.deep_view() =~= before.push(found@));
                    },
                    Err(_) => {},
                }
                j += 1;
            }
            assert(file.imports@.take(j as int) =~= file.imports@);
            links.push(ResolvedFile { path: file.path.clone(), targets });
            k += 1;
        }
        links
    }

    /// The graph of the project: a node for every file of `files`, and an
    /// edge for every import of `parsed` that resolves to a file of the
    /// graph.
    pub fn build(&self, files: &Vec<String>, parsed: &Vec<ParsedFile>, tree: &FileTree) -> (built:
        Result<DependencyGraph, BuildError>)
        requires
            tree.wf(),
        ensures
            match built {
                Ok(graph) => graph.wf() && exists|
                    classified: Seq<ClassifiedFile>,
                    links: Seq<ResolvedFile>,
                |
                    #![trigger holds_files(&graph, classified, tree), resolution_of(&self.resolver, tree, parsed@, links)]
                    classification_of(&self.config, files.deep_view(), classified) && holds_files(
                        &graph,
                        classified,
                        tree,
                    ) && resolution_of(
                        &self.resolver,
                        tree,
                        parsed@,
                        links,
                    ) && forall|u: FileId, v: FileId|
                        graph.has_edge(u, v) <==> linked(&graph, links, tree, u, v),
                Err(e) => e is GraphError,
            },
            files@.len() < u32::MAX && import_count(parsed@) < u32::MAX ==> built is Ok,
    {
        let classified = self.classify(files);
        let links = self.resolve_imports(parsed, tree);
        proof {
            lemma_links_bounded(&self.resolver, tree, parsed@, links@);
        }
        match assemble(&classified, &links, tree) {
            Ok(graph) => {
                assert(holds_files(&graph, classified@, tree) && resolution_of(
                    &self.resolver,
                    tree,
                    parsed@,
                    links@,
                ));
                Ok(graph)
            },
            Err(e) => Err(e),
        }
    }
}

/// The test "is one of `list`".
pub open spec fn inside(list: Seq<Seq<char>>) -> spec_fn(Seq<char>) -> bool {
    |p: Seq<char>| list.contains(p)
}

/// The test "is none of `list`".
pub open spec fn outside(list: Seq<Seq<char>>) -> spec_fn(Seq<char>) -> bool {
    |p: Seq<char>| !list.contains(p)
}

/// What an update has to do.
pub struct UpdatePlan {
    /// The files of the graph whose record no longer matches the disk.
    pub stale: Vec<String>,
    /// The files on disk that the graph does not hold.
    pub new_files: Vec<String>,
    /// The files of the graph that are no longer on disk.
    pub deleted_files: Vec<String>,
    /// The files to parse anew: the stale ones that are still there, then the new ones.
    pub to_parse: Vec<String>,
}

impl UpdatePlan {
    /// Nothing has changed.
    pub open spec fn is_idle(&self) -> bool {
        self.stale@.len() == 0 && self.new_files@.len() == 0 && self.deleted_files@.len() == 0
    }

    /// The plan is the one for `graph`, the snapshot `tree` and the files
    /// `current` on disk: stale are the files of the graph whose record no
    /// longer matches, new the current files that the graph does not hold,
    /// deleted the files of the graph that are not current, and to parse
    /// the stale files that are current, then the new ones.
    pub open spec fn is_for(&self, graph: &DependencyGraph, current: Seq<Seq<char>>, tree: &FileTree) -> bool {
        let known = graph.nodes().map_values(path_of());
        &&& self.stale.deep_view() == graph.nodes().filter(stale_in(tree)).map_values(path_of())
        &&& self.new_files.deep_view() == current.filter(outside(known))
        &&& self.deleted_files.deep_view() == known.filter(outside(current))
        &&& self.to_parse.deep_view() == self.stale.deep_view().filter(inside(current))
            + self.new_files.deep_view()
    }
}

/// Some path of `paths` has the canonical form `path`.
pub open spec fn canonical_among(paths: Seq<Seq<char>>, tree: &FileTree, path: Seq<char>) -> bool {
    exists|i: int| 0 <= i < paths.len() && tree.canonical_or_same(#[trigger] paths[i]) == path
}

/// A set of the paths of `list`.
fn path_index(list: &Vec<String>) -> (index: StringHashMap<usize>)
    ensures
        forall|p: Seq<char>| index@.contains_key(p) <==> list.deep_view().contains(p),
{
    let ghost all = list.deep_view();
    let mut index: StringHashMap<usize> = StringHashMap::new();
    let mut i: usize = 0;
    while i < list.len()
        invariant
            i <= list@.len(),
            all == list.deep_view(),
            forall|p: Seq<char>| index@.contains_key(p) <==> all.take(i as int).contains(p),
        decreases list@.len() - i,
    {
        let ghost seen = all.take(i as int);
        let ghost next = all.take(i + 1);
        index.insert(list[i].clone(), i);
        proof {
            assert(next =~= seen.push(list@[i as int]@));
            assert forall|p: Seq<char>| index@.contains_key(p) <==> next.contains(p) by {
                if next.contains(p) {
                    let k = choose|k: int| 0 <= k < next.len() && next[k] == p;
                    if k < seen.len() {
                        assert(seen[k] == p);
                    }
                }
                if seen.contains(p) {
                    let k = choose|k: int| 0 <= k < seen.len() && seen[k] == p;
                    assert(next[k] == p);
                }
                if p == list@[i as int]@ {
                    assert(next[i as int] == p);
                }
            }
        }
        i += 1;
    }
    assert(all.take(i as int) =~= all);
    index
}

/// The paths of `list` that are among `other`, or those that are not.
fn select(list: &Vec<String>, index: &StringHashMap<usize>, Ghost(other): Ghost<Seq<Seq<char>>>, listed: bool) -> (out:
    Vec<String>)
    requires
        forall|p: Seq<char>| index@.contains_key(p) <==> other.contains(p),
    ensures
        out.deep_view() == list.deep_view().filter(
            if listed {
                inside(other)
            } else {
                outside(other)
            },
        ),
{
    let ghost all = list.deep_view();
    let ghost pred = if listed {
        inside(other)
    } else {
        outside(other)
    };
    let mut out: Vec<String> = Vec::new();
    let mut i: usize = 0;
    proof {
        if list@.len() > 0 {
            seqs::lemma_filter_step(all, pred, 0);
        } else {
            assert(all.take(0) =~= all);
        }
        assert(out.deep_view() =~= Seq::<Seq<char>>::empty());
        reveal(Seq::filter);
        assert(all.take(0).filter(pred) =~= Seq::<Seq<char>>::empty());
    }
    while i < list.len()
        invariant
            i <= list@.len(),
            all == list.deep_view(),
            pred == (if listed {
                inside(other)
            } else {
                outside(other)
            }),
            forall|p: Seq<char>| index@.contains_key(p) <==> other.contains(p),
            out.deep_view() == all.take(i as int).filter(pred),
        decreases list@.len() - i,
    {
        proof {
            seqs::lemma_filter_step(all, pred, i as int);
        }
        let ghost before = out.deep_view();
        assert(all[i as int] == list@[i as int]@);
        if index.contains_key(list[i].as_str()) == listed {
            out.push(list[i].clone());
            assert(out.deep_view() =~= before.push(list@[i as int]@));
        }
        i += 1;
    }
    assert(all.take(i as int) =~= all);
    out
}

/// The two lists one after the other.
fn concat(first: &Vec<String>, second: &Vec<String>) -> (out: Vec<String>)
    ensures
        out.deep_view() == first.deep_view() + second.deep_view(),
{
    let mut out: Vec<String> = Vec::new();
    let mut i: usize = 0;
    while i < first.len()
        invariant
            i <= first@.len(),
            out.deep_view() == first.deep_view().take(i as int),
        decreases first@.len() - i,
    {
        let ghost before = out.deep_view();
        out.push(first[i].clone());
        assert(out.deep_view() =~= before.push(first@[i as int]@));
        assert(first.deep_view().take(i + 1) =~= before.push(first@[i as int]@));
        i += 1;
    }
    assert(first.deep_view().take(i as int) =~= first.deep_view());
    let mut k: usize = 0;
    while k < second.len()
        invariant
            k <= second@.len(),
            out.deep_view() == first.deep_view() + second.deep_view().take(k as int),
        decreases second@.len() - k,
    {
        let ghost before = out.deep_view();
        out.push(second[k].clone());
        assert(out.deep_view() =~= before.push(second@[k as int]@));
        assert(first.deep_view() + second.deep_view().take(k + 1) =~= before.push(
            second@[k as int]@,
        ));
        k += 1;
    }
    assert(second.deep_view().take(k as int) =~= second.deep_view());
    out
}

/// The graph holds each path of `paths`.
pub open spec fn all_known(graph: &DependencyGraph, paths: Seq<Seq<char>>) -> bool {
    forall|i: int| 0 <= i < paths.len() ==> graph.id_of(#[trigger] paths[i]) is Some
}

/// Some file of `files` has the canonical path `path`.
pub open spec fn names_canonically(files: Seq<ClassifiedFile>, tree: &FileTree, path: Seq<char>) -> bool {
    exists|i: int|
        0 <= i < files.len() && tree.canonical_or_same((#[trigger] files[i]).path@) == path
}

/// `after` is `before` without the files `gone`: they have left with the
/// edges at them, and every other file has kept its record and its edges.
pub open spec fn without_files(
    before: &DependencyGraph,
    after: &DependencyGraph,
    gone: Seq<Seq<char>>,
) -> bool {
    &&& forall|p: Seq<char>|
        #![trigger after.record(p)]
        after.record(p) == if gone.contains(p) {
            None
        } else {
            before.record(p)
        }
    &&& forall|p: Seq<char>, q: Seq<char>|
        #![trigger after.imports(p, q)]
        after.imports(p, q) <==> before.imports(p, q) && !gone.contains(p) && !gone.contains(q)
}

/// Takes the files `deleted` out of the graph, one after the other; a path
/// that the graph does not hold, neither as it stands nor in its canonical
/// form, is passed over. None of the paths is left in the graph. Where
/// the graph holds each of the paths as it stands, and none is given
/// twice, exactly these files leave.
pub fn remove_files(graph: &mut DependencyGraph, deleted: &Vec<String>, tree: &FileTree)
    requires
        old(graph).wf(),
        tree.wf(),
    ensures
        final(graph).wf(),
        final(graph).len() <= old(graph).len(),
        final(graph).edges().len() <= old(graph).edges().len(),
        forall|p: Seq<char>| final(graph).id_of(p) is Some ==> old(graph).id_of(p) is Some,
        forall|i: int|
            0 <= i < deleted@.len() ==> final(graph).id_of((#[trigger] deleted@[i])@) is None,
        all_known(old(graph), deleted.deep_view()) && deleted.deep_view().no_duplicates()
            ==> forall|p: Seq<char>|
            #![trigger final(graph).id_of(p)]
            #![trigger old(graph).id_of(p)]
            final(graph).id_of(p) is Some <==> old(graph).id_of(p) is Some
                && !deleted.deep_view().contains(p),
        all_known(old(graph), deleted.deep_view()) && deleted.deep_view().no_duplicates()
            ==> without_files(old(graph), final(graph), deleted.deep_view()),
{
    let ghost all = deleted.deep_view();
    let mut i: usize = 0;
    assert(without_files(old(graph), graph, all.take(0)));
    while i < deleted.len()
        invariant
            graph.wf(),
            tree.wf(),
            i <= deleted@.len(),
            all == deleted.deep_view(),
            all_known(old(graph), all) && all.no_duplicates() ==> without_files(
                old(graph),
                graph,
                all.take(i as int),
            ),
            graph.len() <= old(graph).len(),
            graph.edges().len() <= old(graph).edges().len(),
            forall|p: Seq<char>| graph.id_of(p) is Some ==> old(graph).id_of(p) is Some,
            forall|k: int| 0 <= k < i ==> graph.id_of((#[trigger] deleted@[k])@) is None,
            all_known(old(graph), all) && all.no_duplicates() ==> forall|p: Seq<char>|
                #![trigger graph.id_of(p)]
                #![trigger old(graph).id_of(p)]
                graph.id_of(p) is Some <==> old(graph).id_of(p) is Some && !all.take(
                    i as int,
                ).contains(p),
        decreases deleted@.len() - i,
    {
        let ghost before = *graph;
        let ghost here = deleted@[i as int]@;
        assert(all[i as int] == here);
        proof {
            let seen = all.take(i as int);
            let next = all.take(i + 1);
            assert(next =~= seen.push(here));
            if all_known(old(graph), all) && all.no_duplicates() {
                if seen.contains(here) {
                    let k = choose|k: int| 0 <= k < seen.len() && seen[k] == here;
                    assert(all[k] == all[i as int]);
                }
                assert(old(graph).id_of(all[i as int]) is Some);
                assert(before.id_of(here) is Some);
            }
            assert forall|p: Seq<char>| next.contains(p) <==> seen.contains(p) || p == here by {
                if next.contains(p) {
                    let k = choose|k: int| 0 <= k < next.len() && next[k] == p;
                    if k < seen.len() {
                        assert(seen[k] == p);
                    }
                }
                if seen.contains(p) {
                    let k = choose|k: int| 0 <= k < seen.len() && seen[k] == p;
                    assert(next[k] == p);
                }
                if p == here {
                    assert(next[i as int] == p);
                }
            }
        }
        match graph.get_file_id(deleted[i].as_str(), tree) {
            Some(id) => {
                proof {
                    graph.lemma_lookup_known(deleted@[i as int]@, tree);
                }
                graph.remove_file(id);
                proof {
                    assert(graph.len() == before.len() - 1);
                    assert forall|k: int| 0 <= k < i + 1 implies graph.id_of(
                        (#[trigger] deleted@[k])@,
                    ) is None by {
                        if k < i {
                            assert(before.id_of(deleted@[k]@) is None);
                        }
                    }
                    if all_known(old(graph), all) && all.no_duplicates() {
                        assert forall|p: Seq<char>|
                            #![trigger graph.id_of(p)]
                            #![trigger old(graph).id_of(p)]
                            graph.id_of(p) is Some <==> old(graph).id_of(p) is Some && !all.take(
                                i + 1,
                            ).contains(p) by {
                            assert(before.id_of(here) == Some(id));
                            before.lemma_path_of_id(here);
                            if before.id_of(p) == Some(id) {
                                before.lemma_path_of_id(p);
                            }
                        }
                        DependencyGraph::lemma_removal_by_path(&before, graph, id);
                        let seen = all.take(i as int);
                        let next = all.take(i + 1);
                        assert(before.id_of(here) == Some(id));
                        before.lemma_path_of_id(here);
                        assert forall|p: Seq<char>| before.id_of(p) == Some(id) <==> p
                            == here by {
                            if before.id_of(p) == Some(id) {
                                before.lemma_path_of_id(p);
                            }
                        }
                        assert forall|p: Seq<char>|
                            #![trigger graph.record(p)]
                            graph.record(p) == if next.contains(p) {
                                None
                            } else {
                                old(graph).record(p)
                            } by {
                            assert(before.record(p) == if seen.contains(p) {
                                None
                            } else {
                                old(graph).record(p)
                            });
                        }
                        assert forall|p: Seq<char>, q: Seq<char>|
                            #![trigger graph.imports(p, q)]
                            graph.imports(p, q) <==> old(graph).imports(p, q) && !next.contains(p)
                                && !next.contains(q) by {
                            assert(before.imports(p, q) <==> old(graph).imports(p, q)
                                && !seen.contains(p) && !seen.contains(q));
                        }
                    }
                }
            },
            None => {
                proof {
                    if all_known(old(graph), all) && all.no_duplicates() {
                        assert(before.id_of(here) is Some);
                        assert(false);
                    }
                }
            },
        }
        i += 1;
    }
    assert(all.take(i as int) =~= all);
}

/// Adds the files `files` to the graph; a file that it holds already
/// keeps its record. Fails where the graph is full.
pub fn add_files(graph: &mut DependencyGraph, files: &Vec<ClassifiedFile>, tree: &FileTree) -> (done:
    Result<(), BuildError>)
    requires
        old(graph).wf(),
        tree.wf(),
    ensures
        final(graph).wf(),
        final(graph).edges() == old(graph).edges(),
        old(graph).len() <= final(graph).len() <= old(graph).len() + files@.len(),
        forall|id: int|
            0 <= id < old(graph).len() ==> final(graph).nodes()[id] == old(graph).nodes()[id],
        forall|id: int|
            old(graph).len() <= id < final(graph).len() ==> is_record_of(
                #[trigger] final(graph).nodes()[id],
                files@,
                tree,
            ),
        match done {
            Ok(()) => (forall|i: int|
                0 <= i < files@.len() ==> final(graph).id_of(
                    tree.canonical_or_same((#[trigger] files@[i]).path@),
                ) is Some) && (forall|p: Seq<char>|
                #![trigger final(graph).id_of(p)]
                #![trigger old(graph).id_of(p)]
                #![trigger names_canonically(files@, tree, p)]
                final(graph).id_of(p) is Some <==> old(graph).id_of(p) is Some
                    || names_canonically(files@, tree, p)),
            Err(e) => e is GraphError && final(graph).len() >= u32::MAX,
        },
{
    let mut i: usize = 0;
    while i < files.len()
        invariant
            graph.wf(),
            tree.wf(),
            i <= files@.len(),
            graph.edges() == old(graph).edges(),
            old(graph).len() <= graph.len() <= old(graph).len() + i,
            forall|id: int| 0 <= id < old(graph).len() ==> graph.nodes()[id] == old(graph).nodes()[id],
            forall|id: int|
                old(graph).len() <= id < graph.len() ==> is_record_of(
                    #[trigger] graph.nodes()[id],
                    files@,
                    tree,
                ),
            forall|k: int|
                0 <= k < i ==> graph.id_of(tree.canonical_or_same((#[trigger] files@[k]).path@))
                    is Some,
            forall|p: Seq<char>|
                #![trigger graph.id_of(p)]
                #![trigger old(graph).id_of(p)]
                #![trigger names_canonically(files@.take(i as int), tree, p)]
                graph.id_of(p) is Some <==> old(graph).id_of(p) is Some || names_canonically(
                    files@.take(i as int),
                    tree,
                    p,
                ),
        decreases files@.len() - i,
    {
        if graph.file_count() >= u32::MAX as usize {
            return Err(BuildError::GraphError(String::from_str("too many files")));
        }
        let ghost before = *graph;
        let id = graph.add_file(files[i].path.clone(), files[i].is_test, tree);
        proof {
            let path = tree.canonical_or_same(files@[i as int].path@);
            let seen = files@.take(i as int);
            let next = files@.take(i + 1);
            assert(next =~= seen.push(files@[i as int]));
            assert(graph.nodes()[id as int].path == path);
            assert forall|at: int| old(graph).len() <= at < graph.len() implies is_record_of(
                #[trigger] graph.nodes()[at],
                files@,
                tree,
            ) by {
                if at < before.len() {
                    assert(graph.nodes()[at] == before.nodes()[at]);
                } else {
                    assert(graph.nodes()[at] == FileNode::snapshot_of(
                        tree.canonical_or_same(files@[i as int].path@),
                        files@[i as int].is_test,
                        tree,
                    ));
                }
            }
            assert forall|k: int| 0 <= k < i + 1 implies graph.id_of(
                tree.canonical_or_same((#[trigger] files@[k]).path@),
            ) is Some by {
                if k < i {
                    let p = tree.canonical_or_same(files@[k].path@);
                    before.lemma_path_of_id(p);
                    let at = before.id_of(p).unwrap() as int;
                    assert(graph.nodes()[at].path == p);
                }
            }
            assert forall|p: Seq<char>|
                #![trigger graph.id_of(p)]
                #![trigger old(graph).id_of(p)]
                #![trigger names_canonically(next, tree, p)]
                graph.id_of(p) is Some <==> old(graph).id_of(p) is Some || names_canonically(
                    next,
                    tree,
                    p,
                ) by {
                assert(names_canonically(next, tree, p) <==> names_canonically(seen, tree, p) || p
                    == path) by {
                    if names_canonically(next, tree, p) {
                        let k = choose|k: int|
                            0 <= k < next.len() && tree.canonical_or_same(
                                (#[trigger] next[k]).path@,
                            ) == p;
                        if k < i {
                            assert(tree.canonical_or_same(seen[k].path@) == p);
                        }
                    }
                    if names_canonically(seen, tree, p) {
                        let k = choose|k: int|
                            0 <= k < seen.len() && tree.canonical_or_same(
                                (#[trigger] seen[k]).path@,
                            ) == p;
                        assert(tree.canonical_or_same(next[k].path@) == p);
                    }
                    if p == path {
                        assert(tree.canonical_or_same(next[i as int].path@) == p);
                    }
                }
                assert(graph.id_of(p) is Some <==> before.id_of(p) is Some || p == path) by {
                    if before.id_of(p) is Some {
                        before.lemma_path_of_id(p);
                        let at = before.id_of(p).unwrap() as int;
                        assert(graph.nodes()[at].path == p);
                    }
                    if graph.id_of(p) is Some {
                        graph.lemma_path_of_id(p);
                        let at = graph.id_of(p).unwrap() as int;
                        if at < before.len() {
                            assert(before.nodes()[at].path == p);
                        }
                    }
                    if p == path {
                        assert(graph.nodes()[id as int].path == p);
                    }
                }
                assert(before.id_of(p) is Some <==> old(graph).id_of(p) is Some
                    || names_canonically(seen, tree, p));
            }
        }
        i += 1;
    }
    assert(files@.take(i as int) =~= files@);
    Ok(())
}

/// No edge starts in the file `from`.
pub open spec fn imports_nothing(graph: &DependencyGraph, from: FileId) -> bool {
    forall|v: FileId| !graph.has_edge(from, v)
}

/// Some file of `files` is looked up as the file `id`.
pub open spec fn refreshed_by(
    graph: &DependencyGraph,
    files: Seq<ClassifiedFile>,
    tree: &FileTree,
    id: FileId,
) -> bool {
    exists|i: int| 0 <= i < files.len() && graph.lookup((#[trigger] files[i]).path@, tree) == Some(id)
}

/// `node` is a new record of the file `id` of `graph`, flagged as one of
/// the files of `files` that are looked up as that file.
pub open spec fn is_new_record_of(
    node: crate::graph::FileNodeView,
    graph: &DependencyGraph,
    files: Seq<ClassifiedFile>,
    tree: &FileTree,
    id: FileId,
) -> bool {
    exists|i: int|
        0 <= i < files.len() && graph.lookup((#[trigger] files[i]).path@, tree) == Some(id)
            && node == FileNode::snapshot_of(graph.nodes()[id as int].path, files[i].is_test, tree)
}

/// Takes new records of the files `files` and drops the edges that start
/// in them; a path that the graph does not hold is passed over. No file
/// comes or goes, no edge comes, and a file that is not among `files`
/// keeps its record and its edges.
pub fn refresh_files(graph: &mut DependencyGraph, files: &Vec<ClassifiedFile>, tree: &FileTree)
    requires
        old(graph).wf(),
        tree.wf(),
    ensures
        final(graph).wf(),
        final(graph).len() == old(graph).len(),
        final(graph).edges().len() <= old(graph).edges().len(),
        forall|id: int|
            0 <= id < old(graph).len() ==> final(graph).nodes()[id].path == old(graph).nodes()[id].path,
        forall|u: FileId, v: FileId| final(graph).has_edge(u, v) ==> old(graph).has_edge(u, v),
        forall|i: int|
            0 <= i < files@.len() && old(graph).lookup((#[trigger] files@[i]).path@, tree) is Some
                ==> imports_nothing(
                final(graph),
                old(graph).lookup(files@[i].path@, tree).unwrap(),
            ),
        forall|u: FileId, v: FileId|
            final(graph).has_edge(u, v) <==> old(graph).has_edge(u, v) && !refreshed_by(
                old(graph),
                files@,
                tree,
                u,
            ),
        forall|id: FileId|
            id < old(graph).len() ==> if refreshed_by(old(graph), files@, tree, id) {
                is_new_record_of(
                    #[trigger] final(graph).nodes()[id as int],
                    old(graph),
                    files@,
                    tree,
                    id,
                )
            } else {
                final(graph).nodes()[id as int] == old(graph).nodes()[id as int]
            },
{
    let mut i: usize = 0;
    while i < files.len()
        invariant
            graph.wf(),
            tree.wf(),
            i <= files@.len(),
            old(graph).wf(),
            graph.len() == old(graph).len(),
            forall|u: FileId, v: FileId|
                graph.has_edge(u, v) <==> old(graph).has_edge(u, v) && !refreshed_by(
                    old(graph),
                    files@.take(i as int),
                    tree,
                    u,
                ),
            forall|id: FileId|
                id < old(graph).len() ==> if refreshed_by(
                    old(graph),
                    files@.take(i as int),
                    tree,
                    id,
                ) {
                    is_new_record_of(
                        #[trigger] graph.nodes()[id as int],
                        old(graph),
                        files@.take(i as int),
                        tree,
                        id,
                    )
                } else {
                    graph.nodes()[id as int] == old(graph).nodes()[id as int]
                },
            forall|id: int|
                0 <= id < old(graph).len() ==> graph.nodes()[id].path == old(graph).nodes()[id].path,
            forall|u: FileId, v: FileId| graph.has_edge(u, v) ==> old(graph).has_edge(u, v),
            forall|k: int|
                0 <= k < i && old(graph).lookup((#[trigger] files@[k]).path@, tree) is Some
                    ==> imports_nothing(graph, old(graph).lookup(files@[k].path@, tree).unwrap()),
        decreases files@.len() - i,
    {
        let ghost before = *graph;
        let ghost seen = files@.take(i as int);
        let ghost next = files@.take(i + 1);
        let ghost here = old(graph).lookup(files@[i as int].path@, tree);
        proof {
            lemma_same_paths_same_ids(old(graph), &before);
            assert(next =~= seen.push(files@[i as int]));
            assert forall|id: FileId|
                refreshed_by(old(graph), next, tree, id) <==> refreshed_by(
                    old(graph),
                    seen,
                    tree,
                    id,
                ) || here == Some(id) by {
                if refreshed_by(old(graph), next, tree, id) {
                    let k = choose|k: int|
                        0 <= k < next.len() && old(graph).lookup((#[trigger] next[k]).path@, tree)
                            == Some(id);
                    if k < i {
                        assert(old(graph).lookup(seen[k].path@, tree) == Some(id));
                    }
                }
                if refreshed_by(old(graph), seen, tree, id) {
                    let k = choose|k: int|
                        0 <= k < seen.len() && old(graph).lookup((#[trigger] seen[k]).path@, tree)
                            == Some(id);
                    assert(old(graph).lookup(next[k].path@, tree) == Some(id));
                }
                if here == Some(id) {
                    assert(old(graph).lookup(next[i as int].path@, tree) == Some(id));
                }
            }
        }
        match graph.get_file_id(files[i].path.as_str(), tree) {
            Some(id) => {
                proof {
                    graph.lemma_lookup_known(files@[i as int].path@, tree);
                    graph.lemma_id_of_path(id);
                }
                let path = match graph.get_file_path(id) {
                    Some(p) => p.to_owned(),
                    None => files[i].path.clone(),
                };
                let updated = graph.update_file(path.as_str(), files[i].is_test, tree);
                assert(updated == Some(id));
                proof {
                    assert forall|at: FileId| at < old(graph).len() implies if refreshed_by(
                        old(graph),
                        next,
                        tree,
                        at,
                    ) {
                        is_new_record_of(
                            #[trigger] graph.nodes()[at as int],
                            old(graph),
                            next,
                            tree,
                            at,
                        )
                    } else {
                        graph.nodes()[at as int] == old(graph).nodes()[at as int]
                    } by {
                        if at == id {
                            assert(old(graph).lookup(next[i as int].path@, tree) == Some(id));
                            assert(graph.nodes()[at as int] == FileNode::snapshot_of(
                                old(graph).nodes()[id as int].path,
                                next[i as int].is_test,
                                tree,
                            ));
                        } else {
                            assert(graph.nodes()[at as int] == before.nodes()[at as int]);
                            if refreshed_by(old(graph), seen, tree, at) {
                                let k = choose|k: int|
                                    0 <= k < seen.len() && old(graph).lookup(
                                        (#[trigger] seen[k]).path@,
                                        tree,
                                    ) == Some(at) && before.nodes()[at as int]
                                        == FileNode::snapshot_of(
                                        old(graph).nodes()[at as int].path,
                                        seen[k].is_test,
                                        tree,
                                    );
                                assert(old(graph).lookup(next[k].path@, tree) == Some(at)
                                    && graph.nodes()[at as int] == FileNode::snapshot_of(
                                    old(graph).nodes()[at as int].path,
                                    next[k].is_test,
                                    tree,
                                ));
                            }
                        }
                    }
                }
            },
            None => {
                proof {
                    assert forall|at: FileId| at < old(graph).len() && refreshed_by(
                        old(graph),
                        seen,
                        tree,
                        at,
                    ) implies is_new_record_of(
                        #[trigger] graph.nodes()[at as int],
                        old(graph),
                        next,
                        tree,
                        at,
                    ) by {
                        let k = choose|k: int|
                            0 <= k < seen.len() && old(graph).lookup(
                                (#[trigger] seen[k]).path@,
                                tree,
                            ) == Some(at) && graph.nodes()[at as int] == FileNode::snapshot_of(
                                old(graph).nodes()[at as int].path,
                                seen[k].is_test,
                                tree,
                            );
                        assert(old(graph).lookup(next[k].path@, tree) == Some(at)
                            && graph.nodes()[at as int] == FileNode::snapshot_of(
                            old(graph).nodes()[at as int].path,
                            next[k].is_test,
                            tree,
                        ));
                    }
                }
            },
        }
        i += 1;
    }
    assert(files@.take(i as int) =~= files@);
    proof {
        assert forall|e: (FileId, FileId)| graph.edges().contains(e) implies old(
            graph,
        ).edges().contains(e) by {
            assert(graph.has_edge(e.0, e.1));
        }
        vstd::set_lib::lemma_len_subset(graph.edges(), old(graph).edges());
    }
}

/// Graphs whose files have the same paths under the same ids look up alike.
pub proof fn lemma_same_paths_same_ids(one: &DependencyGraph, other: &DependencyGraph)
    requires
        one.wf(),
        other.wf(),
        one.len() == other.len(),
        forall|id: int| 0 <= id < one.len() ==> other.nodes()[id].path == one.nodes()[id].path,
    ensures
        forall|p: Seq<char>| one.id_of(p) == other.id_of(p),
        forall|p: Seq<char>, tree: &FileTree| one.lookup(p, tree) == other.lookup(p, tree),
{
    assert forall|p: Seq<char>| one.id_of(p) == other.id_of(p) by {
        if one.id_of(p) is Some {
            one.lemma_path_of_id(p);
            let i = one.id_of(p).unwrap() as int;
            assert(0 <= i < other.len() && other.nodes()[i].path == p);
            other.lemma_path_of_id(p);
            let j = other.id_of(p).unwrap() as int;
            assert(other.nodes()[j].path == other.nodes()[i].path);
        }
        if other.id_of(p) is Some {
            other.lemma_path_of_id(p);
            let i = other.id_of(p).unwrap() as int;
            assert(0 <= i < one.len() && one.nodes()[i].path == p);
            one.lemma_path_of_id(p);
            let j = one.id_of(p).unwrap() as int;
            assert(one.nodes()[j].path == one.nodes()[i].path);
        }
    }
}

/// Some path of `paths` is looked up as the file `id`.
pub open spec fn found_among(
    graph: &DependencyGraph,
    paths: Seq<Seq<char>>,
    tree: &FileTree,
    id: FileId,
) -> bool {
    exists|i: int| 0 <= i < paths.len() && graph.lookup(#[trigger] paths[i], tree) == Some(id)
}

/// The links of `links` give an edge from the file `from` to the file `to`.
pub open spec fn linked_paths(
    graph: &DependencyGraph,
    links: Seq<ResolvedFile>,
    tree: &FileTree,
    from: Seq<char>,
    to: Seq<char>,
) -> bool {
    exists|u: FileId, v: FileId| #[trigger]
        linked(graph, links, tree, u, v) && graph.id_of(from) == Some(u) && graph.id_of(to)
            == Some(v)
}

/// The file `path` of the graph is one of `files`.
pub open spec fn reparsed(
    graph: &DependencyGraph,
    files: Seq<ClassifiedFile>,
    tree: &FileTree,
    path: Seq<char>,
) -> bool {
    match graph.id_of(path) {
        Some(id) => refreshed_by(graph, files, tree, id),
        None => false,
    }
}

/// What an update comes to, told by paths. `before` is the graph as it
/// was and `after` as it is; the files `gone` have left, the files
/// `added` have come where the graph did not hold them, and the files
/// `touched` were to be parsed anew.
///
/// A file that was parsed anew has a new record and the edges that
/// `links` give. Any other file that stayed has its old record, and
/// besides the edges that `links` give its old edges to the files that
/// stayed. A file that came and was not parsed has the record of a file of
/// `added`.
pub open spec fn updated_from(
    before: &DependencyGraph,
    after: &DependencyGraph,
    gone: Seq<Seq<char>>,
    added: Seq<ClassifiedFile>,
    touched: Seq<ClassifiedFile>,
    links: Seq<ResolvedFile>,
    tree: &FileTree,
) -> bool {
    &&& forall|p: Seq<char>|
        #![trigger after.id_of(p)]
        match after.id_of(p) {
            Some(id) => if refreshed_by(after, touched, tree, id) {
                is_new_record_of(after.nodes()[id as int], after, touched, tree, id)
            } else if before.id_of(p) is Some && !gone.contains(p) {
                after.record(p) == before.record(p)
            } else {
                is_record_of(after.nodes()[id as int], added, tree)
            },
            None => (before.id_of(p) is None || gone.contains(p)) && !names_canonically(
                added,
                tree,
                p,
            ),
        }
    &&& forall|p: Seq<char>, q: Seq<char>|
        #![trigger after.imports(p, q)]
        after.imports(p, q) <==> linked_paths(after, links, tree, p, q) || (before.imports(p, q)
            && !gone.contains(p) && !gone.contains(q) && !reparsed(after, touched, tree, p))
}

/// The steps of an update, taken together.
pub proof fn lemma_update_by_path(
    before: &DependencyGraph,
    cleared: &DependencyGraph,
    filled: &DependencyGraph,
    fresh: &DependencyGraph,
    after: &DependencyGraph,
    gone: Seq<Seq<char>>,
    added: Seq<ClassifiedFile>,
    touched: Seq<ClassifiedFile>,
    links: Seq<ResolvedFile>,
    tree: &FileTree,
)
    requires
        before.wf(),
        cleared.wf(),
        filled.wf(),
        fresh.wf(),
        after.wf(),
        without_files(before, cleared, gone),
        filled.edges() == cleared.edges(),
        cleared.len() <= filled.len(),
        forall|id: int| 0 <= id < cleared.len() ==> filled.nodes()[id] == cleared.nodes()[id],
        forall|id: int|
            cleared.len() <= id < filled.len() ==> is_record_of(
                #[trigger] filled.nodes()[id],
                added,
                tree,
            ),
        forall|p: Seq<char>|
            #![trigger filled.id_of(p)]
            filled.id_of(p) is Some <==> cleared.id_of(p) is Some || names_canonically(
                added,
                tree,
                p,
            ),
        fresh.len() == filled.len(),
        forall|id: int|
            0 <= id < filled.len() ==> fresh.nodes()[id].path == filled.nodes()[id].path,
        forall|u: FileId, v: FileId|
            fresh.has_edge(u, v) <==> filled.has_edge(u, v) && !refreshed_by(
                filled,
                touched,
                tree,
                u,
            ),
        forall|id: FileId|
            id < filled.len() ==> if refreshed_by(filled, touched, tree, id) {
                is_new_record_of(#[trigger] fresh.nodes()[id as int], filled, touched, tree, id)
            } else {
                fresh.nodes()[id as int] == filled.nodes()[id as int]
            },
        after.nodes() == fresh.nodes(),
        forall|u: FileId, v: FileId|
            after.has_edge(u, v) <==> fresh.has_edge(u, v) || linked(fresh, links, tree, u, v),
    ensures
        updated_from(before, after, gone, added, touched, links, tree),
{
    lemma_same_paths_same_ids(filled, fresh);
    lemma_same_paths_same_ids(filled, after);
    assert forall|u: FileId| refreshed_by(filled, touched, tree, u) == refreshed_by(
        after,
        touched,
        tree,
        u,
    ) by {
        if refreshed_by(filled, touched, tree, u) {
            let i = choose|i: int|
                0 <= i < touched.len() && filled.lookup((#[trigger] touched[i]).path@, tree)
                    == Some(u);
            assert(after.lookup(touched[i].path@, tree) == Some(u));
        }
        if refreshed_by(after, touched, tree, u) {
            let i = choose|i: int|
                0 <= i < touched.len() && after.lookup((#[trigger] touched[i]).path@, tree)
                    == Some(u);
            assert(filled.lookup(touched[i].path@, tree) == Some(u));
        }
    }
    // A file of the cleared graph has the same id and record in the filled one.
    assert forall|p: Seq<char>| cleared.id_of(p) is Some implies filled.id_of(p) == cleared.id_of(
        p,
    ) by {
        cleared.lemma_path_of_id(p);
        let id = cleared.id_of(p).unwrap();
        assert(filled.nodes()[id as int].path == p);
        filled.lemma_id_of_path(id);
    }
    assert forall|p: Seq<char>, q: Seq<char>| filled.imports(p, q) <==> cleared.imports(
        p,
        q,
    ) by {
        if filled.imports(p, q) {
            let (u, v) = choose|u: FileId, v: FileId| #[trigger]
                filled.has_edge(u, v) && filled.id_of(p) == Some(u) && filled.id_of(q) == Some(v);
            assert(cleared.has_edge(u, v));
            filled.lemma_path_of_id(p);
            filled.lemma_path_of_id(q);
            cleared.lemma_id_of_path(u);
            cleared.lemma_id_of_path(v);
            assert(cleared.has_edge(u, v) && cleared.id_of(p) == Some(u) && cleared.id_of(q)
                == Some(v));
        }
        if cleared.imports(p, q) {
            let (u, v) = choose|u: FileId, v: FileId| #[trigger]
                cleared.has_edge(u, v) && cleared.id_of(p) == Some(u) && cleared.id_of(q) == Some(
                    v,
                );
            assert(filled.has_edge(u, v) && filled.id_of(p) == Some(u) && filled.id_of(q) == Some(
                v,
            ));
        }
    }
    assert forall|p: Seq<char>|
        #![trigger after.id_of(p)]
        match after.id_of(p) {
            Some(id) => if refreshed_by(after, touched, tree, id) {
                is_new_record_of(after.nodes()[id as int], after, touched, tree, id)
            } else if before.id_of(p) is Some && !gone.contains(p) {
                after.record(p) == before.record(p)
            } else {
                is_record_of(after.nodes()[id as int], added, tree)
            },
            None => (before.id_of(p) is None || gone.contains(p)) && !names_canonically(
                added,
                tree,
                p,
            ),
        } by {
        assert(after.id_of(p) == filled.id_of(p));
        assert(cleared.record(p) == if gone.contains(p) {
            None
        } else {
            before.record(p)
        });
        match after.id_of(p) {
            Some(id) => {
                filled.lemma_path_of_id(p);
                if refreshed_by(after, touched, tree, id) {
                    let i = choose|i: int|
                        0 <= i < touched.len() && filled.lookup(
                            (#[trigger] touched[i]).path@,
                            tree,
                        ) == Some(id) && fresh.nodes()[id as int] == FileNode::snapshot_of(
                            filled.nodes()[id as int].path,
                            touched[i].is_test,
                            tree,
                        );
                    assert(after.lookup(touched[i].path@, tree) == Some(id) && after.nodes()[id as int]
                        == FileNode::snapshot_of(
                        after.nodes()[id as int].path,
                        touched[i].is_test,
                        tree,
                    ));
                } else if before.id_of(p) is Some && !gone.contains(p) {
                    assert(cleared.id_of(p) is Some);
                    assert(filled.id_of(p) == cleared.id_of(p));
                    assert(after.nodes()[id as int] == filled.nodes()[id as int]);
                } else {
                    assert(cleared.id_of(p) is None);
                    if id < cleared.len() {
                        assert(cleared.nodes()[id as int].path == p);
                        cleared.lemma_id_of_path(id);
                    }
                    assert(after.nodes()[id as int] == filled.nodes()[id as int]);
                }
            },
            None => {},
        }
    }
    assert forall|p: Seq<char>, q: Seq<char>|
        #![trigger after.imports(p, q)]
        after.imports(p, q) <==> linked_paths(after, links, tree, p, q) || (before.imports(p, q)
            && !gone.contains(p) && !gone.contains(q) && !reparsed(after, touched, tree, p)) by {
        assert(cleared.imports(p, q) <==> before.imports(p, q) && !gone.contains(p)
            && !gone.contains(q));
        assert(filled.imports(p, q) <==> cleared.imports(p, q));
        assert(after.id_of(p) == filled.id_of(p));
        assert(after.id_of(q) == filled.id_of(q));
        if after.imports(p, q) {
            let (u, v) = choose|u: FileId, v: FileId| #[trigger]
                after.has_edge(u, v) && after.id_of(p) == Some(u) && after.id_of(q) == Some(v);
            lemma_linked_same(fresh, after, links, tree, u, v);
            if linked(fresh, links, tree, u, v) {
                assert(linked(after, links, tree, u, v) && after.id_of(p) == Some(u)
                    && after.id_of(q) == Some(v));
            } else {
                assert(fresh.has_edge(u, v));
                assert(filled.has_edge(u, v) && filled.id_of(p) == Some(u) && filled.id_of(q)
                    == Some(v));
            }
        }
        if linked_paths(after, links, tree, p, q) {
            let (u, v) = choose|u: FileId, v: FileId| #[trigger]
                linked(after, links, tree, u, v) && after.id_of(p) == Some(u) && after.id_of(q)
                    == Some(v);
            lemma_linked_same(fresh, after, links, tree, u, v);
            assert(after.has_edge(u, v) && after.id_of(p) == Some(u) && after.id_of(q) == Some(v));
        }
        if before.imports(p, q) && !gone.contains(p) && !gone.contains(q) && !reparsed(
            after,
            touched,
            tree,
            p,
        ) {
            let (u, v) = choose|u: FileId, v: FileId| #[trigger]
                filled.has_edge(u, v) && filled.id_of(p) == Some(u) && filled.id_of(q) == Some(v);
            assert(!refreshed_by(after, touched, tree, u));
            assert(fresh.has_edge(u, v));
            assert(after.has_edge(u, v) && after.id_of(p) == Some(u) && after.id_of(q) == Some(v));
        }
    }
}

/// The graph has every edge that `links` give, and a file that was to be
/// parsed has no other edges.
pub open spec fn edges_after_update(
    after: &DependencyGraph,
    plan: &UpdatePlan,
    links: Seq<ResolvedFile>,
    tree: &FileTree,
) -> bool {
    &&& forall|u: FileId, v: FileId| #[trigger]
        linked(after, links, tree, u, v) ==> after.has_edge(u, v)
    &&& forall|u: FileId, v: FileId| #[trigger]
        after.has_edge(u, v) && found_among(after, plan.to_parse.deep_view(), tree, u) ==> linked(
            after,
            links,
            tree,
            u,
            v,
        )
}

/// Where every file of the graph was to be parsed, the edges after an
/// update are exactly those that the links give, as after a full build.
pub proof fn lemma_edges_after_full_parse(
    after: &DependencyGraph,
    plan: &UpdatePlan,
    links: Seq<ResolvedFile>,
    tree: &FileTree,
)
    requires
        after.wf(),
        edges_after_update(after, plan, links, tree),
        forall|u: FileId| u < after.len() ==> found_among(after, plan.to_parse.deep_view(), tree, u),
    ensures
        forall|u: FileId, v: FileId| after.has_edge(u, v) <==> linked(after, links, tree, u, v),
{
    assert forall|u: FileId, v: FileId| after.has_edge(u, v) <==> linked(
        after,
        links,
        tree,
        u,
        v,
    ) by {
        if after.has_edge(u, v) {
            assert(u < after.len());
        }
    }
}

/// The files of `after` are those of `before` that `plan` does not
/// delete, and the new files of `plan` in their canonical form.
pub open spec fn files_after_update(
    before: &DependencyGraph,
    after: &DependencyGraph,
    plan: &UpdatePlan,
    tree: &FileTree,
) -> bool {
    forall|p: Seq<char>|
        #![trigger after.id_of(p)]
        #![trigger before.id_of(p)]
        after.id_of(p) is Some <==> (before.id_of(p) is Some
            && !plan.deleted_files.deep_view().contains(p)) || canonical_among(
            plan.new_files.deep_view(),
            tree,
            p,
        )
}

/// A path is the path of a file of the graph exactly if the list of the
/// paths of the graph holds it.
pub proof fn lemma_known_paths(graph: &DependencyGraph, path: Seq<char>)
    requires
        graph.wf(),
    ensures
        graph.nodes().map_values(path_of()).contains(path) <==> graph.id_of(path) is Some,
        graph.nodes().map_values(path_of()).no_duplicates(),
{
    let known = graph.nodes().map_values(path_of());
    if known.contains(path) {
        let i = choose|i: int| 0 <= i < known.len() && known[i] == path;
        assert(0 <= i < graph.len() && graph.nodes()[i].path == path);
    }
    if graph.id_of(path) is Some {
        graph.lemma_path_of_id(path);
        let i = graph.id_of(path).unwrap() as int;
        assert(known[i] == path);
    }
}

/// After an update the graph holds the files that are on disk, no more
/// and no less: where the plan was made for the graph and the files
/// `current`, and every current file is its own canonical form, a path is
/// in the updated graph exactly if it is current.
pub proof fn lemma_files_after_update(
    before: &DependencyGraph,
    after: &DependencyGraph,
    plan: &UpdatePlan,
    current: Seq<Seq<char>>,
    tree: &FileTree,
)
    requires
        before.wf(),
        plan.is_for(before, current, tree),
        forall|i: int| 0 <= i < current.len() ==> tree.canonical_or_same(#[trigger] current[i])
            == current[i],
        if plan.is_idle() {
            after.nodes() == before.nodes()
        } else {
            files_after_update(before, after, plan, tree)
        },
    ensures
        all_known(before, plan.deleted_files.deep_view()),
        plan.deleted_files.deep_view().no_duplicates(),
        forall|p: Seq<char>| #[trigger] after.id_of(p) is Some <==> current.contains(p),
{
    let known = before.nodes().map_values(path_of());
    let deleted = plan.deleted_files.deep_view();
    let fresh = plan.new_files.deep_view();
    seqs::lemma_filter_members(known, outside(current));
    seqs::lemma_filter_members(current, outside(known));
    lemma_known_paths(before, Seq::empty());
    seqs::lemma_filter_no_duplicates(known, outside(current));
    assert forall|i: int| 0 <= i < deleted.len() implies before.id_of(#[trigger] deleted[i])
        is Some by {
        assert(deleted.contains(deleted[i]));
        lemma_known_paths(before, deleted[i]);
    }
    assert forall|p: Seq<char>| #[trigger] after.id_of(p) is Some <==> current.contains(p) by {
        lemma_known_paths(before, p);
        assert(deleted.contains(p) <==> known.contains(p) && !current.contains(p));
        assert(fresh.contains(p) <==> current.contains(p) && !known.contains(p));
        if canonical_among(fresh, tree, p) {
            let i = choose|i: int|
                0 <= i < fresh.len() && tree.canonical_or_same(#[trigger] fresh[i]) == p;
            assert(fresh.contains(fresh[i]));
            assert(current.contains(fresh[i]));
            let k = choose|k: int| 0 <= k < current.len() && current[k] == fresh[i];
            assert(tree.canonical_or_same(current[k]) == current[k]);
        }
        if fresh.contains(p) {
            let i = choose|i: int| 0 <= i < fresh.len() && fresh[i] == p;
            let k = choose|k: int| 0 <= k < current.len() && current[k] == p;
            assert(tree.canonical_or_same(current[k]) == current[k]);
            assert(tree.canonical_or_same(fresh[i]) == p);
        }
        if plan.is_idle() {
            assert(fresh =~= Seq::<Seq<char>>::empty());
            assert(deleted =~= Seq::<Seq<char>>::empty());
            assert(after.id_of(p) == before.id_of(p));
        }
    }
}

/// The path of the file that a lookup of `path` finds.
pub open spec fn seen_as(graph: &DependencyGraph, tree: &FileTree, path: Seq<char>) -> Option<
    Seq<char>,
> {
    if graph.id_of(path) is Some {
        Some(path)
    } else {
        match tree.canonical_of(path) {
            Some(canonical) => if graph.id_of(canonical) is Some {
                Some(canonical)
            } else {
                None
            },
            None => None,
        }
    }
}

/// A lookup finds the file whose path [`seen_as`] gives.
pub proof fn lemma_seen_as(graph: &DependencyGraph, tree: &FileTree, path: Seq<char>)
    requires
        graph.wf(),
    ensures
        match graph.lookup(path, tree) {
            Some(id) => seen_as(graph, tree, path) is Some && graph.id_of(
                seen_as(graph, tree, path).unwrap(),
            ) == Some(id),
            None => seen_as(graph, tree, path) is None,
        },
{
}

/// Two graphs that hold the same files, and whose edges are exactly
/// those that the same links give, have the same imports: one file
/// imports another in the one graph exactly if it does in the other.
pub proof fn lemma_same_imports(
    one: &DependencyGraph,
    other: &DependencyGraph,
    links: Seq<ResolvedFile>,
    tree: &FileTree,
    from: Seq<char>,
    to: Seq<char>,
)
    requires
        one.wf(),
        other.wf(),
        forall|p: Seq<char>| #[trigger] one.id_of(p) is Some <==> other.id_of(p) is Some,
        forall|u: FileId, v: FileId| one.has_edge(u, v) <==> linked(one, links, tree, u, v),
        forall|u: FileId, v: FileId| other.has_edge(u, v) <==> linked(other, links, tree, u, v),
    ensures
        one.imports(from, to) ==> other.imports(from, to),
{
    if one.imports(from, to) {
        let (u, v) = choose|u: FileId, v: FileId| #[trigger]
            one.has_edge(u, v) && one.id_of(from) == Some(u) && one.id_of(to) == Some(v);
        assert(linked(one, links, tree, u, v));
        let (a, b) = choose|a: int, b: int|
            0 <= a < links.len() && 0 <= b < links[a].targets@.len() && (a < links.len() || (a
                == links.len() && b < 0)) && one.lookup(links[a].path@, tree) == Some(u)
                && one.lookup((#[trigger] links[a].targets@[b])@, tree) == Some(v);
        let source = links[a].path@;
        let target = links[a].targets@[b]@;
        lemma_seen_as(one, tree, source);
        lemma_seen_as(one, tree, target);
        lemma_seen_as(other, tree, source);
        lemma_seen_as(other, tree, target);
        one.lemma_path_of_id(from);
        one.lemma_path_of_id(to);
        one.lemma_path_of_id(seen_as(one, tree, source).unwrap());
        one.lemma_path_of_id(seen_as(one, tree, target).unwrap());
        assert(seen_as(one, tree, source) == Some(from));
        assert(seen_as(one, tree, target) == Some(to));
        assert(one.id_of(source) is Some <==> other.id_of(source) is Some);
        assert(one.id_of(target) is Some <==> other.id_of(target) is Some);
        if tree.canonical_of(source) is Some {
            let c = tree.canonical_of(source).unwrap();
            assert(one.id_of(c) is Some <==> other.id_of(c) is Some);
        }
        if tree.canonical_of(target) is Some {
            let c = tree.canonical_of(target).unwrap();
            assert(one.id_of(c) is Some <==> other.id_of(c) is Some);
        }
        assert(seen_as(other, tree, source) == Some(from));
        assert(seen_as(other, tree, target) == Some(to));
        let x = other.lookup(source, tree).unwrap();
        let y = other.lookup(target, tree).unwrap();
        assert(other.lookup(links[a].path@, tree) == Some(x) && other.lookup(
            (#[trigger] links[a].targets@[b])@,
            tree,
        ) == Some(y));
        assert(linked(other, links, tree, x, y));
        assert(other.has_edge(x, y) && other.id_of(from) == Some(x) && other.id_of(to) == Some(y));
    }
}

/// An update and a full build come to the same graph: where the updated
/// graph and the built one hold the same files, every file of the updated
/// graph was to be parsed, and the same links stand for the imports in
/// both, one file imports another in the updated graph exactly if it does
/// in the built one. (A file that was not parsed again keeps its edges,
/// also where a full build would resolve its imports otherwise.)
pub proof fn lemma_update_equals_build(
    updated: &DependencyGraph,
    built: &DependencyGraph,
    plan: &UpdatePlan,
    links: Seq<ResolvedFile>,
    tree: &FileTree,
    from: Seq<char>,
    to: Seq<char>,
)
    requires
        updated.wf(),
        built.wf(),
        forall|p: Seq<char>| #[trigger] updated.id_of(p) is Some <==> built.id_of(p) is Some,
        edges_after_update(updated, plan, links, tree),
        forall|u: FileId|
            u < updated.len() ==> found_among(updated, plan.to_parse.deep_view(), tree, u),
        forall|u: FileId, v: FileId| built.has_edge(u, v) <==> linked(built, links, tree, u, v),
    ensures
        updated.imports(from, to) <==> built.imports(from, to),
{
    lemma_edges_after_full_parse(updated, plan, links, tree);
    lemma_same_imports(updated, built, links, tree, from, to);
    assert forall|p: Seq<char>| #[trigger] built.id_of(p) is Some <==> updated.id_of(p)
        is Some by {}
    lemma_same_imports(built, updated, links, tree, from, to);
}

/// A graph that holds exactly the files `current` holds the files of a
/// graph built from them, where every file is its own canonical form.
pub proof fn lemma_same_files_as_built(
    updated: &DependencyGraph,
    built: &DependencyGraph,
    files: Seq<ClassifiedFile>,
    current: Seq<Seq<char>>,
    tree: &FileTree,
)
    requires
        built.wf(),
        holds_files(built, files, tree),
        files.len() == current.len(),
        forall|i: int| 0 <= i < files.len() ==> (#[trigger] files[i]).path@ == current[i],
        forall|i: int| 0 <= i < current.len() ==> tree.canonical_or_same(#[trigger] current[i])
            == current[i],
        forall|p: Seq<char>| #[trigger] updated.id_of(p) is Some <==> current.contains(p),
    ensures
        forall|p: Seq<char>| #[trigger] updated.id_of(p) is Some <==> built.id_of(p) is Some,
{
    assert forall|p: Seq<char>| #[trigger] updated.id_of(p) is Some <==> built.id_of(p)
        is Some by {
        if built.id_of(p) is Some {
            built.lemma_path_of_id(p);
            let id = built.id_of(p).unwrap() as int;
            assert(is_record_of(built.nodes()[id], files, tree));
            let i = choose|i: int|
                0 <= i < files.len() && built.nodes()[id] == FileNode::snapshot_of(
                    tree.canonical_or_same((#[trigger] files[i]).path@),
                    files[i].is_test,
                    tree,
                );
            assert(tree.canonical_or_same(current[i]) == current[i]);
            assert(current[i] == p);
        }
        if current.contains(p) {
            let i = choose|i: int| 0 <= i < current.len() && current[i] == p;
            assert(tree.canonical_or_same(current[i]) == current[i]);
            assert(built.id_of(tree.canonical_or_same(files[i].path@)) is Some);
        }
    }
}

/// Graphs that hold the same paths hold as many files.
pub proof fn lemma_same_paths_same_count(one: &DependencyGraph, other: &DependencyGraph)
    requires
        one.wf(),
        other.wf(),
        forall|p: Seq<char>| #[trigger] one.id_of(p) is Some <==> other.id_of(p) is Some,
    ensures
        one.len() == other.len(),
{
    let first = one.nodes().map_values(path_of());
    let second = other.nodes().map_values(path_of());
    lemma_known_paths(one, Seq::empty());
    lemma_known_paths(other, Seq::empty());
    assert forall|p: Seq<char>| first.to_set().contains(p) <==> second.to_set().contains(p) by {
        lemma_known_paths(one, p);
        lemma_known_paths(other, p);
    }
    assert(first.to_set() =~= second.to_set());
    first.unique_seq_to_set();
    second.unique_seq_to_set();
}

/// An update comes to the files of a full build, whatever the graph held
/// before, and so after any sequence of edits and updates: where the plan
/// was made for the graph and the files `current`, every current file is
/// its own canonical form, and `updated` is what the update left, the
/// updated graph and a graph built from the current files hold the same
/// paths and as many files.
pub proof fn lemma_update_holds_what_build_holds(
    before: &DependencyGraph,
    updated: &DependencyGraph,
    built: &DependencyGraph,
    plan: &UpdatePlan,
    files: Seq<ClassifiedFile>,
    current: Seq<Seq<char>>,
    tree: &FileTree,
)
    requires
        before.wf(),
        updated.wf(),
        built.wf(),
        plan.is_for(before, current, tree),
        forall|i: int| 0 <= i < current.len() ==> tree.canonical_or_same(#[trigger] current[i])
            == current[i],
        if plan.is_idle() {
            updated.nodes() == before.nodes()
        } else {
            files_after_update(before, updated, plan, tree)
        },
        holds_files(built, files, tree),
        files.len() == current.len(),
        forall|i: int| 0 <= i < files.len() ==> (#[trigger] files[i]).path@ == current[i],
    ensures
        forall|p: Seq<char>| #[trigger] updated.id_of(p) is Some <==> built.id_of(p) is Some,
        updated.len() == built.len(),
{
    lemma_files_after_update(before, updated, plan, current, tree);
    lemma_same_files_as_built(updated, built, files, current, tree);
    lemma_same_paths_same_count(updated, built);
}

/// When an update comes to the imports of a full build. The built graph
/// has exactly the edges that `all_links` give. Then one file imports
/// another in the updated graph exactly if it does in the built one,
/// provided that
/// - for a file that was parsed anew, the links of the update give what
///   the links of the build give, and
/// - for any other file, what it imported before among the files that
///   stayed, together with what the links of the update give for it, is
///   what the links of the build give.
///
/// The second condition is what an update cannot see to: a file that was
/// not parsed anew keeps its imports, also where they would now resolve
/// otherwise.
pub proof fn lemma_update_imports_as_build(
    before: &DependencyGraph,
    updated: &DependencyGraph,
    built: &DependencyGraph,
    gone: Seq<Seq<char>>,
    added: Seq<ClassifiedFile>,
    touched: Seq<ClassifiedFile>,
    links: Seq<ResolvedFile>,
    all_links: Seq<ResolvedFile>,
    tree: &FileTree,
)
    requires
        updated.wf(),
        built.wf(),
        updated_from(before, updated, gone, added, touched, links, tree),
        forall|u: FileId, v: FileId| built.has_edge(u, v) <==> linked(built, all_links, tree, u, v),
        forall|p: Seq<char>, q: Seq<char>|
            reparsed(updated, touched, tree, p) ==> (#[trigger] linked_paths(
                updated,
                links,
                tree,
                p,
                q,
            ) <==> linked_paths(built, all_links, tree, p, q)),
        forall|p: Seq<char>, q: Seq<char>|
            !reparsed(updated, touched, tree, p) ==> (#[trigger] linked_paths(
                built,
                all_links,
                tree,
                p,
                q,
            ) <==> linked_paths(updated, links, tree, p, q) || (before.imports(p, q)
                && !gone.contains(p) && !gone.contains(q))),
    ensures
        forall|p: Seq<char>, q: Seq<char>| #[trigger]
            updated.imports(p, q) <==> built.imports(p, q),
{
    assert forall|p: Seq<char>, q: Seq<char>| #[trigger]
        updated.imports(p, q) <==> built.imports(p, q) by {
        assert(built.imports(p, q) <==> linked_paths(built, all_links, tree, p, q)) by {
            if built.imports(p, q) {
                let (u, v) = choose|u: FileId, v: FileId| #[trigger]
                    built.has_edge(u, v) && built.id_of(p) == Some(u) && built.id_of(q) == Some(v);
                assert(linked(built, all_links, tree, u, v) && built.id_of(p) == Some(u)
                    && built.id_of(q) == Some(v));
            }
            if linked_paths(built, all_links, tree, p, q) {
                let (u, v) = choose|u: FileId, v: FileId| #[trigger]
                    linked(built, all_links, tree, u, v) && built.id_of(p) == Some(u)
                        && built.id_of(q) == Some(v);
                assert(built.has_edge(u, v) && built.id_of(p) == Some(u) && built.id_of(q)
                    == Some(v));
            }
        }
        if reparsed(updated, touched, tree, p) {
            assert(linked_paths(updated, links, tree, p, q) <==> linked_paths(
                built,
                all_links,
                tree,
                p,
                q,
            ));
        } else {
            assert(linked_paths(built, all_links, tree, p, q) <==> linked_paths(
                updated,
                links,
                tree,
                p,
                q,
            ) || (before.imports(p, q) && !gone.contains(p) && !gone.contains(q)));
        }
    }
}

impl GraphBuilder {
    /// What an update has to do: compares the graph with the snapshot
    /// `tree` and with the files `current` that are on disk now.
    pub fn plan_update(&self, graph: &DependencyGraph, current: &Vec<String>, tree: &FileTree) -> (plan:
        UpdatePlan)
        requires
            graph.wf(),
            tree.wf(),
        ensures
            plan.is_for(graph, current.deep_view(), tree),
    {
        let stale = graph.get_stale_files(tree);
        let known = graph.get_all_paths();
        let known_index = path_index(&known);
        let current_index = path_index(current);
        let new_files = select(current, &known_index, Ghost(known.deep_view()), false);
        let deleted_files = select(&known, &current_index, Ghost(current.deep_view()), false);
        let still_there = select(&stale, &current_index, Ghost(current.deep_view()), true);
        let to_parse = concat(&still_there, &new_files);
        UpdatePlan { stale, new_files, deleted_files, to_parse }
    }

    /// Brings the graph up to date as `plan` says: takes out the deleted
    /// files, adds the new ones, takes new records of the files to parse
    /// and drops their edges, and adds the edges that the imports in
    /// `parsed` give. Answers how many files were touched: those that were
    /// to be parsed and those that were deleted. An idle plan changes nothing.
    ///
    /// Where the graph holds each deleted file under the path that the
    /// plan gives, and none is given twice, [`updated_from`] says of every
    /// path which record it has afterwards, and of every two paths whether
    /// one imports the other. The call fails only where the graph cannot
    /// hold that many files or edges.
    pub fn update_incremental(
        &self,
        graph: &mut DependencyGraph,
        plan: &UpdatePlan,
        parsed: &Vec<ParsedFile>,
        tree: &FileTree,
    ) -> (updated: Result<usize, BuildError>)
        requires
            old(graph).wf(),
            tree.wf(),
        ensures
            final(graph).wf(),
            match updated {
                Ok(count) => if plan.is_idle() {
                    count == 0 && final(graph).nodes() == old(graph).nodes() && final(graph).edges() == old(graph).edges()
                } else {
                    &&& count == plan.to_parse@.len() + plan.deleted_files@.len()
                    &&& forall|i: int|
                        0 <= i < plan.new_files@.len() ==> final(graph).id_of(
                            tree.canonical_or_same((#[trigger] plan.new_files@[i])@),
                        ) is Some
                    &&& all_known(old(graph), plan.deleted_files.deep_view())
                        && plan.deleted_files.deep_view().no_duplicates() ==> files_after_update(
                        old(graph),
                        final(graph),
                        plan,
                        tree,
                    )
                    &&& exists|links: Seq<ResolvedFile>| #[trigger]
                        resolution_of(&self.resolver, tree, parsed@, links) && edges_after_update(
                            final(graph),
                            plan,
                            links,
                            tree,
                        )
                    &&& all_known(old(graph), plan.deleted_files.deep_view())
                        && plan.deleted_files.deep_view().no_duplicates() ==> exists|
                        added: Seq<ClassifiedFile>,
                        touched: Seq<ClassifiedFile>,
                        links: Seq<ResolvedFile>,
                    |
                        #![trigger updated_from(old(graph), final(graph), plan.deleted_files.deep_view(), added, touched, links, tree)]
                        classification_of(&self.config, plan.new_files.deep_view(), added)
                            && classification_of(&self.config, plan.to_parse.deep_view(), touched)
                            && resolution_of(&self.resolver, tree, parsed@, links) && updated_from(
                            old(graph),
                            final(graph),
                            plan.deleted_files.deep_view(),
                            added,
                            touched,
                            links,
                            tree,
                        )
                },
                Err(e) => e is GraphError,
            },
            plan.is_idle() ==> updated == Ok::<usize, BuildError>(0),
            plan.to_parse@.len() + plan.deleted_files@.len() <= usize::MAX && old(graph).len()
                + plan.new_files@.len() < u32::MAX && old(graph).edges().len() + import_count(
                parsed@,
            ) < u32::MAX ==> updated is Ok,
    {
        if plan.stale.len() == 0 && plan.new_files.len() == 0 && plan.deleted_files.len() == 0 {
            return Ok(0);
        }
        let count = match plan.to_parse.len().checked_add(plan.deleted_files.len()) {
            Some(count) => count,
            None => {
                return Err(BuildError::GraphError(String::from_str("too many files")));
            },
        };
        remove_files(graph, &plan.deleted_files, tree);
        let ghost cleared = *graph;
        let added = self.classify(&plan.new_files);
        match add_files(graph, &added, tree) {
            Ok(()) => {},
            Err(e) => {
                return Err(e);
            },
        }
        let ghost filled = *graph;
        let touched = self.classify(&plan.to_parse);
        refresh_files(graph, &touched, tree);
        let ghost fresh = *graph;
        let links = self.resolve_imports(parsed, tree);
        proof {
            lemma_links_bounded(&self.resolver, tree, parsed@, links@);
        }
        match link(graph, &links, tree) {
            Ok(()) => {},
            Err(e) => {
                return Err(e);
            },
        }
        proof {
            lemma_same_paths_same_ids(&filled, &fresh);
            assert forall|p: Seq<char>| graph.id_of(p) == fresh.id_of(p) by {}
            assert forall|i: int| 0 <= i < plan.new_files@.len() implies graph.id_of(
                tree.canonical_or_same((#[trigger] plan.new_files@[i])@),
            ) is Some by {
                assert(added@[i].path@ == plan.new_files@[i]@);
                assert(filled.id_of(tree.canonical_or_same(added@[i].path@)) is Some);
            }
            let parse = plan.to_parse.deep_view();
            assert forall|u: FileId, v: FileId| #[trigger]
                linked(graph, links@, tree, u, v) implies graph.has_edge(u, v) by {
                lemma_linked_same(&fresh, graph, links@, tree, u, v);
            }
            assert forall|u: FileId, v: FileId| #[trigger]
                graph.has_edge(u, v) && found_among(graph, parse, tree, u) implies linked(
                graph,
                links@,
                tree,
                u,
                v,
            ) by {
                lemma_linked_same(&fresh, graph, links@, tree, u, v);
                let i = choose|i: int|
                    0 <= i < parse.len() && graph.lookup(#[trigger] parse[i], tree) == Some(u);
                assert(touched@[i].path@ == parse[i]);
                assert(graph.lookup(parse[i], tree) == filled.lookup(parse[i], tree));
                assert(imports_nothing(&fresh, filled.lookup(touched@[i].path@, tree).unwrap()));
                assert(!fresh.has_edge(u, v));
            }
            assert(resolution_of(&self.resolver, tree, parsed@, links@) && edges_after_update(
                graph,
                plan,
                links@,
                tree,
            ));
            let deleted = plan.deleted_files.deep_view();
            let fresh_paths = plan.new_files.deep_view();
            if all_known(old(graph), deleted) && deleted.no_duplicates() {
                lemma_update_by_path(
                    old(graph),
                    &cleared,
                    &filled,
                    &fresh,
                    graph,
                    deleted,
                    added@,
                    touched@,
                    links@,
                    tree,
                );
                assert(classification_of(&self.config, plan.new_files.deep_view(), added@)
                    && classification_of(&self.config, plan.to_parse.deep_view(), touched@)
                    && resolution_of(&self.resolver, tree, parsed@, links@) && updated_from(
                    old(graph),
                    graph,
                    deleted,
                    added@,
                    touched@,
                    links@,
                    tree,
                ));
                assert forall|p: Seq<char>|
                    #![trigger graph.id_of(p)]
                    #![trigger old(graph).id_of(p)]
                    graph.id_of(p) is Some <==> (old(graph).id_of(p) is Some && !deleted.contains(
                        p,
                    )) || canonical_among(fresh_paths, tree, p) by {
                    assert(graph.id_of(p) == filled.id_of(p));
                    assert(filled.id_of(p) is Some <==> cleared.id_of(p) is Some
                        || names_canonically(added@, tree, p));
                    assert(cleared.id_of(p) is Some <==> old(graph).id_of(p) is Some
                        && !deleted.contains(p));
                    if names_canonically(added@, tree, p) {
                        let i = choose|i: int|
                            0 <= i < added@.len() && tree.canonical_or_same(
                                (#[trigger] added@[i]).path@,
                            ) == p;
                        assert(tree.canonical_or_same(fresh_paths[i]) == p);
                    }
                    if canonical_among(fresh_paths, tree, p) {
                        let i = choose|i: int|
                            0 <= i < fresh_paths.len() && tree.canonical_or_same(
                                #[trigger] fresh_paths[i],
                            ) == p;
                        assert(tree.canonical_or_same(added@[i].path@) == p);
                    }
                }
            }
        }
        Ok(count)
    }
}

} // verus!
