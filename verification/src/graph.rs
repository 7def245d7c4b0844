//! The dependency graph: files as nodes, "imports" as directed edges.
//!
//! An edge from `u` to `v` says that `u` imports `v`. Files are numbered
//! densely from zero; the number of a file is its [`FileId`]. No edge occurs
//! twice and no two files share a path.

use crate::adjacency;
use crate::adjacency::{edge_list, node_total};
use crate::edge_lemmas;
use crate::fs::FileTree;
use crate::seqs;
use petgraph::graph::Graph;
use petgraph::Directed;
use std::collections::HashSet;
use vstd::hash_map::StringHashMap;
use vstd::prelude::*;

verus! {

broadcast use vstd::std_specs::hash::group_hash_axioms;

/// The number of a file in one graph.
pub type FileId = u32;

/// What the graph records of one file.
#[derive(Debug)]
pub struct FileNode {
    /// Canonical path of the file.
    pub path: String,
    /// Whether the file is a test.
    pub is_test: bool,
    /// Seconds since the epoch at which the file was last modified when it was recorded.
    pub last_modified: u64,
    /// Hash of the file's bytes when it was recorded, zero where they could not be read.
    pub content_hash: u64,
}

/// A [`FileNode`] as a mathematical value.
pub struct FileNodeView {
    pub path: Seq<char>,
    pub is_test: bool,
    pub last_modified: u64,
    pub content_hash: u64,
}

impl View for FileNode {
    type V = FileNodeView;

    open spec fn view(&self) -> FileNodeView {
        FileNodeView {
            path: self.path@,
            is_test: self.is_test,
            last_modified: self.last_modified,
            content_hash: self.content_hash,
        }
    }
}

impl DeepView for FileNode {
    type V = FileNodeView;

    open spec fn deep_view(&self) -> FileNodeView {
        self@
    }
}

/// The path of a record.
pub open spec fn path_of() -> spec_fn(FileNodeView) -> Seq<char> {
    |n: FileNodeView| n.path
}

/// The record no longer matches the snapshot `tree`: its file is not listed
/// there, or is listed with another modification time.
pub open spec fn is_stale(node: FileNodeView, tree: &FileTree) -> bool {
    !tree.has(node.path) || tree.modified_or_zero(node.path) != node.last_modified
}

/// The test [`is_stale`] against `tree`.
pub open spec fn stale_in(tree: &FileTree) -> spec_fn(FileNodeView) -> bool {
    |n: FileNodeView| is_stale(n, tree)
}

impl Clone for FileNode {
    fn clone(&self) -> (copy: Self)
        ensures
            copy@ == self@,
    {
        FileNode {
            path: self.path.clone(),
            is_test: self.is_test,
            last_modified: self.last_modified,
            content_hash: self.content_hash,
        }
    }
}

impl FileNode {
    /// The record of `path` as the snapshot `tree` shows it: modification
    /// time and content hash are zero where the snapshot does not list the path.
    pub fn new(path: String, is_test: bool, tree: &FileTree) -> (node: FileNode)
        requires
            tree.wf(),
        ensures
            node@ == Self::snapshot_of(path@, is_test, tree),
    {
        let (last_modified, content_hash) = match tree.get(path.as_str()) {
            Some(e) => (e.modified_time, e.content_hash),
            None => (0, 0),
        };
        FileNode { path, is_test, last_modified, content_hash }
    }

    /// The record that [`FileNode::new`] makes.
    pub open spec fn snapshot_of(path: Seq<char>, is_test: bool, tree: &FileTree) -> FileNodeView {
        FileNodeView {
            path,
            is_test,
            last_modified: tree.modified_or_zero(path),
            content_hash: tree.hash_or_zero(path),
        }
    }
}

/// The format version that [`DependencyGraph::serialize`] writes.
pub const GRAPH_VERSION: u32 = 1;

/// Stored data carries another format version than [`GRAPH_VERSION`].
#[derive(Debug)]
pub struct VersionMismatch {
    /// The version that the data carries.
    pub found: u32,
}

/// A graph laid out for storage: the records by id, and the edges as pairs
/// of indices into them.
#[derive(Debug)]
pub struct SerializedGraph {
    pub version: u32,
    pub nodes: Vec<FileNode>,
    pub edges: Vec<(u32, u32)>,
}

impl SerializedGraph {
    /// A graph can be restored from the value: no path occurs twice, every
    /// edge joins two of the records, and both lists fit the index type.
    pub open spec fn consistent(&self) -> bool {
        &&& self.nodes@.len() <= u32::MAX
        &&& self.edges@.len() <= u32::MAX
        &&& forall|i: int, j: int|
            0 <= i < self.nodes@.len() && 0 <= j < self.nodes@.len() && i != j
                ==> self.nodes@[i].path@ != self.nodes@[j].path@
        &&& forall|k: int|
            0 <= k < self.edges@.len() ==> (#[trigger] self.edges@[k]).0 < self.nodes@.len()
                && self.edges@[k].1 < self.nodes@.len()
    }

    /// The value holds the files and the edges of `graph`.
    pub open spec fn is_image_of(&self, graph: &DependencyGraph) -> bool {
        &&& self.nodes.deep_view() == graph.nodes()
        &&& self.edges@.to_set() == graph.edges()
    }

    /// Decides [`SerializedGraph::consistent`].
    pub fn is_consistent(&self) -> (ok: bool)
        ensures
            ok == self.consistent(),
    {
        if self.nodes.len() > u32::MAX as usize || self.edges.len() > u32::MAX as usize {
            return false;
        }
        let mut seen: StringHashMap<usize> = StringHashMap::new();
        let mut i: usize = 0;
        while i < self.nodes.len()
            invariant
                i <= self.nodes@.len(),
                forall|a: int, b: int|
                    0 <= a < i && 0 <= b < i && a != b ==> self.nodes@[a].path@
                        != self.nodes@[b].path@,
                forall|a: int| 0 <= a < i ==> seen@.contains_key(#[trigger] self.nodes@[a].path@),
                forall|p: Seq<char>| #[trigger]
                    seen@.contains_key(p) ==> seen@[p] < i && self.nodes@[seen@[p] as int].path@
                        == p,
            decreases self.nodes@.len() - i,
        {
            if seen.contains_key(self.nodes[i].path.as_str()) {
                proof {
                    let p = self.nodes@[i as int].path@;
                    let a = seen@[p] as int;
                    assert(self.nodes@[a].path@ == self.nodes@[i as int].path@ && a != i);
                }
                return false;
            }
            seen.insert(self.nodes[i].path.clone(), i);
            i += 1;
        }
        let mut k: usize = 0;
        while k < self.edges.len()
            invariant
                k <= self.edges@.len(),
                forall|j: int|
                    0 <= j < k ==> (#[trigger] self.edges@[j]).0 < self.nodes@.len()
                        && self.edges@[j].1 < self.nodes@.len(),
            decreases self.edges@.len() - k,
        {
            let (u, v) = self.edges[k];
            if u as usize >= self.nodes.len() || v as usize >= self.nodes.len() {
                return false;
            }
            k += 1;
        }
        true
    }
}

/// How many entries of `visited` are still `false`.
pub open spec fn unvisited(visited: Seq<bool>) -> nat
    decreases visited.len(),
{
    if visited.len() == 0 {
        0
    } else {
        unvisited(visited.drop_last()) + if visited.last() {
            0nat
        } else {
            1nat
        }
    }
}

/// Marking an entry leaves one entry less to mark.
pub proof fn lemma_unvisited_mark(visited: Seq<bool>, at: int)
    requires
        0 <= at < visited.len(),
        !visited[at],
    ensures
        unvisited(visited.update(at, true)) == unvisited(visited) - 1,
    decreases visited.len(),
{
    let marked = visited.update(at, true);
    if at == visited.len() - 1 {
        assert(marked.drop_last() =~= visited.drop_last());
    } else {
        lemma_unvisited_mark(visited.drop_last(), at);
        assert(marked.drop_last() =~= visited.drop_last().update(at, true));
    }
}

/// The graph of files and imports.
pub struct DependencyGraph {
    graph: Graph<(), (), Directed, u32>,
    nodes: Vec<FileNode>,
    path_to_id: StringHashMap<FileId>,
}

impl DependencyGraph {
    /// How the three fields hang together.
    pub closed spec fn inv(&self) -> bool {
        let n = self.nodes@.len();
        let edges = edge_list(self.graph);
        &&& node_total(self.graph) == n
        &&& n <= u32::MAX
        &&& edges.no_duplicates()
        &&& edges.len() <= u32::MAX
        &&& forall|i: int| 0 <= i < edges.len() ==> (#[trigger] edges[i]).0 < n && edges[i].1 < n
        &&& forall|i: int|
            0 <= i < n ==> self.path_to_id@.contains_key(#[trigger] self.nodes@[i].path@)
                && self.path_to_id@[self.nodes@[i].path@] == i
        &&& forall|p: Seq<char>| #[trigger]
            self.path_to_id@.contains_key(p) ==> self.path_to_id@[p] < n
                && self.nodes@[self.path_to_id@[p] as int].path@ == p
    }

    /// The files, by id.
    pub closed spec fn nodes(&self) -> Seq<FileNodeView> {
        self.nodes@.map_values(|n: FileNode| n@)
    }

    /// The edges, as pairs (importer, imported).
    pub closed spec fn edges(&self) -> Set<(FileId, FileId)> {
        edge_list(self.graph).to_set()
    }

    /// The number of files.
    pub open spec fn len(&self) -> nat {
        self.nodes().len()
    }

    /// `from` imports `to`.
    pub open spec fn has_edge(&self, from: FileId, to: FileId) -> bool {
        self.edges().contains((from, to))
    }

    /// The graph is well formed: ids fit the index type, no two files share a
    /// path, and every edge joins two files of the graph.
    pub open spec fn wf(&self) -> bool {
        &&& self.inv()
        &&& self.len() <= u32::MAX
        &&& self.edges().finite()
        &&& forall|i: int, j: int|
            0 <= i < self.len() && 0 <= j < self.len() && i != j ==> self.nodes()[i].path
                != self.nodes()[j].path
        &&& forall|u: FileId, v: FileId| #[trigger]
            self.has_edge(u, v) ==> u < self.len() && v < self.len()
    }

    /// The id of the file with path `path`.
    pub open spec fn id_of(&self, path: Seq<char>) -> Option<FileId> {
        if exists|i: int| 0 <= i < self.len() && self.nodes()[i].path == path {
            Some((choose|i: int| 0 <= i < self.len() && self.nodes()[i].path == path) as FileId)
        } else {
            None
        }
    }

    /// The record of the file with the path `path`.
    pub open spec fn record(&self, path: Seq<char>) -> Option<FileNodeView> {
        match self.id_of(path) {
            Some(id) => Some(self.nodes()[id as int]),
            None => None,
        }
    }

    /// The file with the path `from` imports the file with the path `to`.
    pub open spec fn imports(&self, from: Seq<char>, to: Seq<char>) -> bool {
        exists|u: FileId, v: FileId| #[trigger]
            self.has_edge(u, v) && self.id_of(from) == Some(u) && self.id_of(to) == Some(v)
    }

    /// The id that a lookup of `path` gives: that of `path` itself, else
    /// that of its canonical form in `tree`.
    pub open spec fn lookup(&self, path: Seq<char>, tree: &FileTree) -> Option<FileId> {
        match self.id_of(path) {
            Some(id) => Some(id),
            None => match tree.canonical_of(path) {
                Some(c) => self.id_of(c),
                None => None,
            },
        }
    }

    proof fn lemma_inv_wf(&self)
        requires
            self.inv(),
        ensures
            self.wf(),
            self.len() == self.nodes@.len(),
            self.edges().len() == edge_list(self.graph).len(),
            forall|i: int| 0 <= i < self.len() ==> #[trigger] self.nodes()[i] == self.nodes@[i]@,
            forall|p: Seq<char>|
                self.id_of(p) == if self.path_to_id@.contains_key(p) {
                    Some(self.path_to_id@[p])
                } else {
                    None
                },
    {
        let edges = edge_list(self.graph);
        vstd::seq_lib::seq_to_set_is_finite(edges);
        edges.unique_seq_to_set();
        assert forall|u: FileId, v: FileId| #[trigger] self.has_edge(u, v) implies u < self.len()
            && v < self.len() by {
            let i = choose|i: int| 0 <= i < edges.len() && edges[i] == (u, v);
            assert(edges[i].0 < self.nodes@.len());
        }
        assert forall|i: int, j: int|
            0 <= i < self.len() && 0 <= j < self.len() && i != j implies self.nodes()[i].path
            != self.nodes()[j].path by {
            assert(self.path_to_id@[self.nodes@[i].path@] == i);
            assert(self.path_to_id@[self.nodes@[j].path@] == j);
        }
        assert forall|p: Seq<char>|
            self.id_of(p) == if self.path_to_id@.contains_key(p) {
                Some(self.path_to_id@[p])
            } else {
                None
            } by {
            if self.path_to_id@.contains_key(p) {
                let k = self.path_to_id@[p] as int;
                assert(self.nodes()[k].path == p);
                let c = choose|i: int| 0 <= i < self.len() && self.nodes()[i].path == p;
                assert(self.path_to_id@[self.nodes@[c].path@] == c);
            } else {
                if exists|i: int| 0 <= i < self.len() && self.nodes()[i].path == p {
                    let c = choose|i: int| 0 <= i < self.len() && self.nodes()[i].path == p;
                    assert(self.path_to_id@.contains_key(self.nodes@[c].path@));
                }
            }
        }
    }

    /// A lookup gives the id of a file of the graph.
    pub proof fn lemma_lookup_known(&self, path: Seq<char>, tree: &FileTree)
        requires
            self.lookup(path, tree) is Some,
        ensures
            self.lookup(path, tree).unwrap() < self.len(),
    {
    }

    /// Looking up the path of a file gives the file.
    pub proof fn lemma_id_of_path(&self, id: FileId)
        requires
            self.wf(),
            id < self.len(),
        ensures
            self.id_of(self.nodes()[id as int].path) == Some(id),
    {
        let path = self.nodes()[id as int].path;
        assert(0 <= id as int && (id as int) < self.len() && self.nodes()[id as int].path == path);
    }

    /// The file that a path is looked up as has that path.
    pub proof fn lemma_path_of_id(&self, path: Seq<char>)
        requires
            self.wf(),
            self.id_of(path) is Some,
        ensures
            self.id_of(path).unwrap() < self.len(),
            self.nodes()[self.id_of(path).unwrap() as int].path == path,
    {
    }

    /// A graph without files.
    pub fn new() -> (graph: DependencyGraph)
        ensures
            graph.wf(),
            graph.len() == 0,
            graph.edges() == Set::<(FileId, FileId)>::empty(),
    {
        let graph = DependencyGraph {
            graph: adjacency::empty_graph(),
            nodes: Vec::new(),
            path_to_id: StringHashMap::new(),
        };
        proof {
            graph.lemma_inv_wf();
            assert(graph.edges() =~= Set::<(FileId, FileId)>::empty());
        }
        graph
    }

    /// The number of files.
    pub fn file_count(&self) -> (count: usize)
        requires
            self.wf(),
        ensures
            count == self.len(),
    {
        proof {
            self.lemma_inv_wf();
        }
        self.nodes.len()
    }

    /// The number of edges.
    pub fn edge_count(&self) -> (count: usize)
        requires
            self.wf(),
        ensures
            count == self.edges().len(),
    {
        proof {
            self.lemma_inv_wf();
        }
        adjacency::edge_count(&self.graph)
    }

    /// Adds the file `path` and returns its id; a file that the graph
    /// already holds keeps its id and its record. The path is stored in the
    /// canonical form that `tree` gives it, and as it stands where `tree` does
    /// not list it.
    pub fn add_file(&mut self, path: String, is_test: bool, tree: &FileTree) -> (id: FileId)
        requires
            old(self).wf(),
            tree.wf(),
            old(self).len() < u32::MAX,
        ensures
            final(self).wf(),
            final(self).edges() == old(self).edges(),
            match old(self).id_of(tree.canonical_or_same(path@)) {
                Some(known) => id == known && final(self).nodes() == old(self).nodes(),
                None => id == old(self).len() && final(self).nodes() == old(self).nodes().push(
                    FileNode::snapshot_of(tree.canonical_or_same(path@), is_test, tree),
                ),
            },
    {
        proof {
            self.lemma_inv_wf();
        }
        let canonical = match tree.canonicalize(path.as_str()) {
            Some(c) => c,
            None => path,
        };
        match self.path_to_id.get(canonical.as_str()) {
            Some(id) => {
                return *id;
            },
            None => {},
        }
        let key = canonical.clone();
        let node = FileNode::new(canonical, is_test, tree);
        let id = adjacency::add_node(&mut self.graph);
        self.nodes.push(node);
        self.path_to_id.insert(key, id);
        proof {
            assert(self.inv()) by {
                let n = self.nodes@.len();
                assert forall|i: int| 0 <= i < n implies self.path_to_id@.contains_key(
                    #[trigger] self.nodes@[i].path@,
                ) && self.path_to_id@[self.nodes@[i].path@] == i by {
                    if i < n - 1 {
                        assert(self.nodes@[i] == old(self).nodes@[i]);
                        assert(old(self).path_to_id@.contains_key(old(self).nodes@[i].path@));
                    }
                }
                assert forall|p: Seq<char>| #[trigger]
                    self.path_to_id@.contains_key(p) implies self.path_to_id@[p] < n
                    && self.nodes@[self.path_to_id@[p] as int].path@ == p by {
                    if p != key@ {
                        assert(old(self).path_to_id@.contains_key(p));
                    }
                }
            }
            self.lemma_inv_wf();
            assert(self.nodes() =~= old(self).nodes().push(
                FileNode::snapshot_of(tree.canonical_or_same(path@), is_test, tree),
            ));
        }
        id
    }

    /// Records that `from` imports `to`. An edge that is there already is not
    /// added again.
    pub fn add_dependency(&mut self, from: FileId, to: FileId)
        requires
            old(self).wf(),
            from < old(self).len(),
            to < old(self).len(),
            old(self).edges().len() < u32::MAX,
        ensures
            final(self).wf(),
            final(self).nodes() == old(self).nodes(),
            final(self).edges() == old(self).edges().insert((from, to)),
    {
        proof {
            self.lemma_inv_wf();
        }
        if !adjacency::contains_edge(&self.graph, from, to) {
            adjacency::add_edge(&mut self.graph, from, to);
            proof {
                edge_list(old(self).graph).lemma_push_to_set_commute((from, to));
                self.lemma_inv_wf();
            }
        } else {
            assert(self.edges() =~= old(self).edges().insert((from, to)));
        }
    }

    /// The id of `path`: that of the path as given, else that of its
    /// canonical form in `tree`.
    pub fn get_file_id(&self, path: &str, tree: &FileTree) -> (id: Option<FileId>)
        requires
            self.wf(),
            tree.wf(),
        ensures
            id == self.lookup(path@, tree),
    {
        proof {
            self.lemma_inv_wf();
        }
        match self.path_to_id.get(path) {
            Some(id) => {
                return Some(*id);
            },
            None => {},
        }
        match tree.canonicalize(path) {
            Some(c) => match self.path_to_id.get(c.as_str()) {
                Some(id) => Some(*id),
                None => None,
            },
            None => None,
        }
    }

    /// Whether a lookup of `path` finds a file.
    pub fn contains_file(&self, path: &str, tree: &FileTree) -> (found: bool)
        requires
            self.wf(),
            tree.wf(),
        ensures
            found == self.lookup(path@, tree).is_some(),
    {
        self.get_file_id(path, tree).is_some()
    }

    /// The record of the file `id`.
    pub fn get_file_node(&self, id: FileId) -> (node: Option<&FileNode>)
        requires
            self.wf(),
        ensures
            match node {
                Some(n) => id < self.len() && n@ == self.nodes()[id as int],
                None => id >= self.len(),
            },
    {
        proof {
            self.lemma_inv_wf();
        }
        if (id as usize) < self.nodes.len() {
            Some(&self.nodes[id as usize])
        } else {
            None
        }
    }

    /// The path of the file `id`.
    pub fn get_file_path(&self, id: FileId) -> (path: Option<&str>)
        requires
            self.wf(),
        ensures
            match path {
                Some(p) => id < self.len() && p@ == self.nodes()[id as int].path,
                None => id >= self.len(),
            },
    {
        match self.get_file_node(id) {
            Some(n) => Some(n.path.as_str()),
            None => None,
        }
    }

    /// The files that import `file` directly, each once, in no particular order.
    pub fn get_dependents(&self, file: FileId) -> (out: Vec<FileId>)
        requires
            self.wf(),
        ensures
            out@.no_duplicates(),
            forall|x: FileId| out@.contains(x) <==> self.has_edge(x, file),
    {
        proof {
            self.lemma_inv_wf();
        }
        if (file as usize) < self.nodes.len() {
            let out = adjacency::sources(&self.graph, file);
            proof {
                let edges = edge_list(self.graph);
                edge_lemmas::lemma_sources_into(edges, file);
                seqs::lemma_same_multiset(out@, adjacency::sources_into(edges, file));
            }
            out
        } else {
            Vec::new()
        }
    }

    /// The files that `file` imports directly, each once, in no particular order.
    pub fn get_dependencies(&self, file: FileId) -> (out: Vec<FileId>)
        requires
            self.wf(),
        ensures
            out@.no_duplicates(),
            forall|x: FileId| out@.contains(x) <==> self.has_edge(file, x),
    {
        proof {
            self.lemma_inv_wf();
        }
        if (file as usize) < self.nodes.len() {
            let out = adjacency::targets(&self.graph, file);
            proof {
                let edges = edge_list(self.graph);
                edge_lemmas::lemma_targets_from(edges, file);
                seqs::lemma_same_multiset(out@, adjacency::targets_from(edges, file));
            }
            out
        } else {
            Vec::new()
        }
    }

    /// All ids, in ascending order.
    pub open spec fn all_ids(&self) -> Seq<FileId> {
        Seq::new(self.len(), |i: int| i as FileId)
    }

    /// The test "is the file with this id a test".
    pub open spec fn test_flag(&self) -> spec_fn(FileId) -> bool {
        |id: FileId| self.nodes()[id as int].is_test
    }

    /// The ids of all files, in ascending order.
    pub fn get_all_files(&self) -> (out: Vec<FileId>)
        requires
            self.wf(),
        ensures
            out@ == self.all_ids(),
    {
        proof {
            self.lemma_inv_wf();
        }
        let mut out: Vec<FileId> = Vec::new();
        let mut i: usize = 0;
        while i < self.nodes.len()
            invariant
                i <= self.nodes@.len(),
                self.nodes@.len() == self.len(),
                self.len() <= u32::MAX,
                out@ == self.all_ids().take(i as int),
            decreases self.nodes@.len() - i,
        {
            out.push(i as FileId);
            assert(out@ =~= self.all_ids().take(i + 1));
            i += 1;
        }
        assert(out@ =~= self.all_ids());
        out
    }

    /// The ids of the test files, in ascending order.
    pub fn get_test_files(&self) -> (out: Vec<FileId>)
        requires
            self.wf(),
        ensures
            out@ == self.all_ids().filter(self.test_flag()),
    {
        proof {
            self.lemma_inv_wf();
        }
        let mut out: Vec<FileId> = Vec::new();
        let mut i: usize = 0;
        while i < self.nodes.len()
            invariant
                self.inv(),
                i <= self.nodes@.len(),
                self.nodes@.len() == self.len(),
                self.len() <= u32::MAX,
                out@ == self.all_ids().take(i as int).filter(self.test_flag()),
            decreases self.nodes@.len() - i,
        {
            proof {
                self.lemma_inv_wf();
                seqs::lemma_filter_step(self.all_ids(), self.test_flag(), i as int);
            }
            if self.nodes[i].is_test {
                out.push(i as FileId);
            }
            i += 1;
        }
        proof {
            if self.nodes@.len() > 0 {
                seqs::lemma_filter_step(self.all_ids(), self.test_flag(), 0);
            } else {
                assert(self.all_ids().take(0) =~= self.all_ids());
            }
        }
        out
    }

    /// The paths of all files, by id.
    pub fn get_all_paths(&self) -> (out: Vec<String>)
        requires
            self.wf(),
        ensures
            out.deep_view() == self.nodes().map_values(path_of()),
    {
        proof {
            self.lemma_inv_wf();
        }
        let mut out: Vec<String> = Vec::new();
        let mut i: usize = 0;
        while i < self.nodes.len()
            invariant
                self.inv(),
                i <= self.nodes@.len(),
                out@.len() == i,
                forall|j: int| 0 <= j < i ==> (#[trigger] out@[j])@ == self.nodes@[j].path@,
            decreases self.nodes@.len() - i,
        {
            out.push(self.nodes[i].path.clone());
            i += 1;
        }
        proof {
            self.lemma_inv_wf();
            assert(out.deep_view() =~= self.nodes().map_values(path_of()));
        }
        out
    }

    /// The paths of the files whose record no longer matches `tree`, by id:
    /// those that `tree` does not list, and those it lists with another
    /// modification time.
    pub fn get_stale_files(&self, tree: &FileTree) -> (out: Vec<String>)
        requires
            self.wf(),
            tree.wf(),
        ensures
            out.deep_view() == self.nodes().filter(stale_in(tree)).map_values(path_of()),
    {
        proof {
            self.lemma_inv_wf();
        }
        let mut out: Vec<String> = Vec::new();
        let mut i: usize = 0;
        while i < self.nodes.len()
            invariant
                self.inv(),
                tree.wf(),
                i <= self.nodes@.len(),
                out.deep_view() == self.nodes().take(i as int).filter(stale_in(tree)).map_values(
                    path_of(),
                ),
            decreases self.nodes@.len() - i,
        {
            proof {
                self.lemma_inv_wf();
                seqs::lemma_filter_step(self.nodes(), stale_in(tree), i as int);
            }
            let node = &self.nodes[i];
            let ghost before = out.deep_view();
            let stale = match tree.get(node.path.as_str()) {
                Some(e) => e.modified_time != node.last_modified,
                None => true,
            };
            if stale {
                out.push(node.path.clone());
                assert(out.deep_view() =~= before.push(node.path@));
                assert(self.nodes().take(i as int).filter(stale_in(tree)).push(
                    self.nodes()[i as int],
                ).map_values(path_of()) =~= before.push(node.path@));
            }
            i += 1;
        }
        proof {
            self.lemma_inv_wf();
            if self.nodes@.len() > 0 {
                seqs::lemma_filter_step(self.nodes(), stale_in(tree), 0);
            } else {
                assert(self.nodes().take(0) =~= self.nodes());
            }
        }
        out
    }

    /// Drops every edge that starts in `id`.
    pub fn clear_dependencies(&mut self, id: FileId)
        requires
            old(self).wf(),
        ensures
            final(self).wf(),
            final(self).nodes() == old(self).nodes(),
            forall|u: FileId, v: FileId|
                final(self).has_edge(u, v) <==> old(self).has_edge(u, v) && u != id,
    {
        let deps = self.get_dependencies(id);
        let mut k: usize = 0;
        while k < deps.len()
            invariant
                self.inv(),
                self.nodes@ == old(self).nodes@,
                self.path_to_id@ == old(self).path_to_id@,
                k <= deps@.len(),
                forall|x: FileId| deps@.contains(x) <==> old(self).has_edge(id, x),
                forall|u: FileId, v: FileId|
                    self.has_edge(u, v) <==> old(self).has_edge(u, v) && !(u == id
                        && deps@.take(k as int).contains(v)),
            decreases deps@.len() - k,
        {
            let dep = deps[k];
            let ghost before = edge_list(self.graph);
            let ghost prior = self.edges();
            match adjacency::find_edge(&self.graph, id, dep) {
                Some(at) => {
                    adjacency::remove_edge(&mut self.graph, at);
                    proof {
                        edge_lemmas::lemma_swap_removed(before, at as int);
                        let after = edge_list(self.graph);
                        assert forall|i: int| 0 <= i < after.len() implies (#[trigger] after[i]).0
                            < self.nodes@.len() && after[i].1 < self.nodes@.len() by {
                            assert(after.contains(after[i]));
                            assert(before.contains(after[i]));
                            let j = choose|j: int| 0 <= j < before.len() && before[j] == after[i];
                            assert(before[j].0 < self.nodes@.len());
                        }
                    }
                },
                None => {},
            }
            proof {
                let after = edge_list(self.graph);
                let t0 = deps@.take(k as int);
                let t1 = deps@.take(k + 1);
                assert(t1 =~= t0.push(dep));
                assert forall|u: FileId, v: FileId|
                    self.has_edge(u, v) <==> old(self).has_edge(u, v) && !(u == id && t1.contains(
                        v,
                    )) by {
                    assert(self.has_edge(u, v) <==> after.contains((u, v)));
                    assert(prior.contains((u, v)) <==> before.contains((u, v)));
                    assert(after.contains((u, v)) <==> before.contains((u, v)) && (u, v) != (
                        id,
                        dep,
                    ));
                    if t1.contains(v) {
                        let j = choose|j: int| 0 <= j < t1.len() && t1[j] == v;
                        if j < k {
                            assert(t0[j] == v);
                        }
                    }
                    if t0.contains(v) {
                        let j = choose|j: int| 0 <= j < t0.len() && t0[j] == v;
                        assert(t1[j] == v);
                    }
                    if v == dep {
                        assert(t1[k as int] == v);
                    }
                }
            }
            k += 1;
        }
        proof {
            assert(deps@.take(deps@.len() as int) =~= deps@);
            self.lemma_inv_wf();
            old(self).lemma_inv_wf();
            assert(self.nodes() =~= old(self).nodes());
        }
    }

    /// Takes a new record of the file `path` from `tree` and drops the edges
    /// that start in it. The path is looked up as given. A path that the graph
    /// does not hold changes nothing.
    pub fn update_file(&mut self, path: &str, is_test: bool, tree: &FileTree) -> (id: Option<
        FileId,
    >)
        requires
            old(self).wf(),
            tree.wf(),
        ensures
            final(self).wf(),
            id == old(self).id_of(path@),
            match id {
                Some(i) => final(self).nodes() == old(self).nodes().update(
                    i as int,
                    FileNode::snapshot_of(path@, is_test, tree),
                ) && forall|u: FileId, v: FileId|
                    final(self).has_edge(u, v) <==> old(self).has_edge(u, v) && u != i,
                None => final(self).nodes() == old(self).nodes() && final(self).edges() == old(self).edges(),
            },
    {
        proof {
            self.lemma_inv_wf();
        }
        let id: FileId = match self.path_to_id.get(path) {
            Some(id) => *id,
            None => {
                return None;
            },
        };
        let node = FileNode::new(path.to_owned(), is_test, tree);
        self.nodes.set(id as usize, node);
        proof {
            assert(self.inv()) by {
                let n = self.nodes@.len();
                assert forall|i: int| 0 <= i < n implies self.path_to_id@.contains_key(
                    #[trigger] self.nodes@[i].path@,
                ) && self.path_to_id@[self.nodes@[i].path@] == i by {
                    assert(self.nodes@[i].path@ == old(self).nodes@[i].path@);
                }
                assert forall|p: Seq<char>| #[trigger]
                    self.path_to_id@.contains_key(p) implies self.path_to_id@[p] < n
                    && self.nodes@[self.path_to_id@[p] as int].path@ == p by {
                    let k = self.path_to_id@[p] as int;
                    assert(self.nodes@[k].path@ == old(self).nodes@[k].path@);
                }
            }
            self.lemma_inv_wf();
            assert(self.nodes() =~= old(self).nodes().update(
                id as int,
                FileNode::snapshot_of(path@, is_test, tree),
            ));
        }
        assert(self.edges() == old(self).edges());
        self.clear_dependencies(id);
        Some(id)
    }

    /// Whether `(u, v)` is an edge once the file `gone` has left `before`
    /// and the file with the highest id has taken its id.
    pub open spec fn edge_after_removal(before: &DependencyGraph, gone: FileId, u: FileId, v: FileId) -> bool {
        exists|u0: FileId, v0: FileId| #[trigger]
            before.has_edge(u0, v0) && u0 != gone && v0 != gone && adjacency::renumbered(
                (u0, v0),
                (before.len() - 1) as FileId,
                gone,
            ) == (u, v)
    }

    /// A removal told by paths: the file that had the id `gone` leaves
    /// with the edges at it, and every other file keeps its record and its
    /// edges.
    pub proof fn lemma_removal_by_path(before: &DependencyGraph, after: &DependencyGraph, gone: FileId)
        requires
            before.wf(),
            after.wf(),
            gone < before.len(),
            after.nodes() == before.nodes().update(gone as int, before.nodes().last()).drop_last(),
            forall|u: FileId, v: FileId|
                after.has_edge(u, v) <==> Self::edge_after_removal(before, gone, u, v),
        ensures
            forall|p: Seq<char>|
                #![trigger after.record(p)]
                after.record(p) == if before.id_of(p) == Some(gone) {
                    None
                } else {
                    before.record(p)
                },
            forall|p: Seq<char>, q: Seq<char>|
                #![trigger after.imports(p, q)]
                after.imports(p, q) <==> before.imports(p, q) && before.id_of(p) != Some(gone)
                    && before.id_of(q) != Some(gone),
    {
        let last = (before.len() - 1) as FileId;
        assert forall|u0: FileId| u0 < before.len() && u0 != gone implies {
            let u = adjacency::renumbered((u0, u0), last, gone).0;
            u < after.len() && after.nodes()[u as int] == before.nodes()[u0 as int] && after.id_of(
                #[trigger] before.nodes()[u0 as int].path,
            ) == Some(u)
        } by {
            let u = adjacency::renumbered((u0, u0), last, gone).0;
            after.lemma_id_of_path(u);
        }
        assert forall|p: Seq<char>| after.id_of(p) is Some implies before.id_of(p) is Some
            && before.id_of(p) != Some(gone) by {
            after.lemma_path_of_id(p);
            let u = after.id_of(p).unwrap();
            let u0 = if u == gone {
                last
            } else {
                u
            };
            assert(before.nodes()[u0 as int].path == p);
            before.lemma_id_of_path(u0);
        }
        assert forall|p: Seq<char>|
            #![trigger after.record(p)]
            after.record(p) == if before.id_of(p) == Some(gone) {
                None
            } else {
                before.record(p)
            } by {
            if before.id_of(p) is Some && before.id_of(p) != Some(gone) {
                before.lemma_path_of_id(p);
                let u0 = before.id_of(p).unwrap();
                assert(before.nodes()[u0 as int].path == p);
            }
        }
        assert forall|p: Seq<char>, q: Seq<char>|
            #![trigger after.imports(p, q)]
            after.imports(p, q) <==> before.imports(p, q) && before.id_of(p) != Some(gone)
                && before.id_of(q) != Some(gone) by {
            if after.imports(p, q) {
                let (u, v) = choose|u: FileId, v: FileId| #[trigger]
                    after.has_edge(u, v) && after.id_of(p) == Some(u) && after.id_of(q) == Some(v);
                assert(Self::edge_after_removal(before, gone, u, v));
                let (u0, v0) = choose|u0: FileId, v0: FileId| #[trigger]
                    before.has_edge(u0, v0) && u0 != gone && v0 != gone && adjacency::renumbered(
                        (u0, v0),
                        last,
                        gone,
                    ) == (u, v);
                after.lemma_path_of_id(p);
                after.lemma_path_of_id(q);
                assert(before.nodes()[u0 as int].path == p);
                assert(before.nodes()[v0 as int].path == q);
                before.lemma_id_of_path(u0);
                before.lemma_id_of_path(v0);
                assert(before.has_edge(u0, v0) && before.id_of(p) == Some(u0) && before.id_of(q)
                    == Some(v0));
            }
            if before.imports(p, q) && before.id_of(p) != Some(gone) && before.id_of(q) != Some(
                gone,
            ) {
                let (u0, v0) = choose|u0: FileId, v0: FileId| #[trigger]
                    before.has_edge(u0, v0) && before.id_of(p) == Some(u0) && before.id_of(q)
                        == Some(v0);
                before.lemma_path_of_id(p);
                before.lemma_path_of_id(q);
                let (u, v) = adjacency::renumbered((u0, v0), last, gone);
                assert(Self::edge_after_removal(before, gone, u, v));
                assert(before.nodes()[u0 as int].path == p);
                assert(before.nodes()[v0 as int].path == q);
                assert(adjacency::renumbered((u0, u0), last, gone).0 == u);
                assert(adjacency::renumbered((v0, v0), last, gone).0 == v);
                assert(after.has_edge(u, v) && after.id_of(p) == Some(u) && after.id_of(q)
                    == Some(v));
            }
        }
    }

    /// Removes the file `id` with its record, its path and every edge at
    /// it. The file with the highest id takes the id `id`. An id that the graph
    /// does not hold changes nothing.
    pub fn remove_file(&mut self, id: FileId)
        requires
            old(self).wf(),
        ensures
            final(self).wf(),
            id >= old(self).len() ==> final(self).nodes() == old(self).nodes() && final(self).edges() == old(self).edges(),
            id < old(self).len() ==> final(self).nodes() == old(self).nodes().update(
                id as int,
                old(self).nodes().last(),
            ).drop_last() && forall|u: FileId, v: FileId|
                final(self).has_edge(u, v) <==> Self::edge_after_removal(old(self), id, u, v),
            forall|p: Seq<char>|
                #![trigger final(self).id_of(p)]
                #![trigger old(self).id_of(p)]
                final(self).id_of(p) is Some <==> old(self).id_of(p) is Some && old(self).id_of(p)
                    != Some(id),
            final(self).edges().len() <= old(self).edges().len(),
    {
        proof {
            self.lemma_inv_wf();
        }
        let n = self.nodes.len();
        if id as usize >= n {
            return ;
        }
        let ghost last: u32 = (n - 1) as u32;
        let ghost before = edge_list(self.graph);
        self.path_to_id.remove(self.nodes[id as usize].path.as_str());
        adjacency::remove_node(&mut self.graph, id);
        self.nodes.swap_remove(id as usize);
        if (id as usize) < self.nodes.len() {
            self.path_to_id.insert(self.nodes[id as usize].path.clone(), id);
        }
        proof {
            let after = edge_list(self.graph);
            let expected = adjacency::edges_without_node(before, id, last);
            edge_lemmas::lemma_edges_without_node(before, id, last);
            seqs::lemma_same_multiset(after, expected);
            let m = self.nodes@.len();
            assert forall|i: int| 0 <= i < after.len() implies (#[trigger] after[i]).0 < m
                && after[i].1 < m by {
                assert(after.contains(after[i]));
                assert(expected.contains(after[i]));
            }
            assert forall|i: int| 0 <= i < m implies self.path_to_id@.contains_key(
                #[trigger] self.nodes@[i].path@,
            ) && self.path_to_id@[self.nodes@[i].path@] == i by {
                if i == id {
                } else {
                    assert(self.nodes@[i] == old(self).nodes@[i]);
                    assert(old(self).path_to_id@[old(self).nodes@[i].path@] == i);
                    assert(old(self).path_to_id@[old(self).nodes@[id as int].path@] == id);
                    assert(old(self).path_to_id@[old(self).nodes@[last as int].path@] == last);
                }
            }
            assert forall|p: Seq<char>| #[trigger]
                self.path_to_id@.contains_key(p) implies self.path_to_id@[p] < m
                && self.nodes@[self.path_to_id@[p] as int].path@ == p by {
                if id < m && p == self.nodes@[id as int].path@ {
                } else {
                    assert(old(self).path_to_id@.contains_key(p));
                    let k = old(self).path_to_id@[p];
                    assert(old(self).nodes@[k as int].path@ == p);
                    assert(k != id);
                    if k == last {
                        assert(id < m);
                        assert(self.nodes@[id as int] == old(self).nodes@[last as int]);
                    }
                }
            }
            assert(self.inv());
            self.lemma_inv_wf();
            assert(after.len() <= before.len()) by {
                vstd::seq_lib::to_multiset_len(after);
                vstd::seq_lib::to_multiset_len(expected);
                before.lemma_filter_len(adjacency::surviving(id));
            }
            assert forall|p: Seq<char>|
                #![trigger self.id_of(p)]
                #![trigger old(self).id_of(p)]
                self.id_of(p) is Some <==> old(self).id_of(p) is Some && old(self).id_of(p)
                    != Some(id) by {
                assert(old(self).path_to_id@[old(self).nodes@[id as int].path@] == id);
                assert(old(self).path_to_id@[old(self).nodes@[last as int].path@] == last);
            }
            assert(self.nodes() =~= old(self).nodes().update(
                id as int,
                old(self).nodes().last(),
            ).drop_last());
            assert forall|u: FileId, v: FileId|
                self.has_edge(u, v) <==> Self::edge_after_removal(old(self), id, u, v) by {
                assert(self.has_edge(u, v) <==> expected.contains((u, v)));
                if expected.contains((u, v)) {
                    let e = choose|e: (u32, u32)|
                        before.contains(e) && adjacency::survives(e, id)
                            && adjacency::renumbered(e, last, id) == (u, v);
                    assert(old(self).has_edge(e.0, e.1));
                }
                if Self::edge_after_removal(old(self), id, u, v) {
                    let (u0, v0) = choose|u0: FileId, v0: FileId| #[trigger]
                        old(self).has_edge(u0, v0) && u0 != id && v0 != id
                            && adjacency::renumbered((u0, v0), last, id) == (u, v);
                    assert(before.contains((u0, v0)));
                    assert(adjacency::survives((u0, v0), id));
                }
            }
        }
    }

    /// The graph in the form in which it is stored.
    pub fn serialize(&self) -> (data: SerializedGraph)
        requires
            self.wf(),
        ensures
            data.version == GRAPH_VERSION,
            data.is_image_of(self),
            data.edges@.no_duplicates(),
            data.consistent(),
    {
        proof {
            self.lemma_inv_wf();
        }
        let mut nodes: Vec<FileNode> = Vec::new();
        let mut i: usize = 0;
        while i < self.nodes.len()
            invariant
                i <= self.nodes@.len(),
                nodes@.len() == i,
                forall|j: int| 0 <= j < i ==> (#[trigger] nodes@[j])@ == self.nodes@[j]@,
            decreases self.nodes@.len() - i,
        {
            nodes.push(self.nodes[i].clone());
            i += 1;
        }
        let mut edges: Vec<(u32, u32)> = Vec::new();
        let total = adjacency::edge_count(&self.graph);
        let mut k: usize = 0;
        while k < total
            invariant
                total == edge_list(self.graph).len(),
                k <= total,
                edges@ == edge_list(self.graph).take(k as int),
            decreases total - k,
        {
            match adjacency::edge_endpoints(&self.graph, k) {
                Some(ends) => {
                    edges.push(ends);
                },
                None => {},
            }
            assert(edges@ =~= edge_list(self.graph).take(k + 1));
            k += 1;
        }
        let data = SerializedGraph { version: GRAPH_VERSION, nodes, edges };
        proof {
            assert(data.edges@ =~= edge_list(self.graph));
            assert(data.nodes.deep_view() =~= self.nodes());
            assert forall|j: int| 0 <= j < data.edges@.len() implies (#[trigger] data.edges@[j]).0
                < data.nodes@.len() && data.edges@[j].1 < data.nodes@.len() by {
                assert(edge_list(self.graph)[j].0 < self.nodes@.len());
            }
            assert forall|a: int, b: int|
                0 <= a < data.nodes@.len() && 0 <= b < data.nodes@.len() && a
                    != b implies data.nodes@[a].path@ != data.nodes@[b].path@ by {
                assert(data.nodes@[a]@ == self.nodes()[a]);
                assert(data.nodes@[b]@ == self.nodes()[b]);
            }
        }
        data
    }

    /// The graph that `data` stores: its records keep their order, so the
    /// `i`-th record gets the id `i`, and an edge that `data` lists twice is
    /// there once. Data of another version than [`GRAPH_VERSION`] gives no
    /// graph.
    pub fn deserialize(data: SerializedGraph) -> (restored: Result<DependencyGraph, VersionMismatch>)
        requires
            data.consistent(),
        ensures
            match restored {
                Ok(graph) => data.version == GRAPH_VERSION && graph.wf() && data.is_image_of(
                    &graph,
                ),
                Err(e) => data.version != GRAPH_VERSION && e.found == data.version,
            },
    {
        if data.version != GRAPH_VERSION {
            return Err(VersionMismatch { found: data.version });
        }
        let SerializedGraph { version: _, nodes, edges } = data;
        let mut adjacency = adjacency::empty_graph();
        let mut path_to_id: StringHashMap<FileId> = StringHashMap::new();
        let mut i: usize = 0;
        while i < nodes.len()
            invariant
                i <= nodes@.len(),
                nodes@.len() <= u32::MAX,
                node_total(adjacency) == i,
                edge_list(adjacency) == Seq::<(u32, u32)>::empty(),
                forall|a: int, b: int|
                    0 <= a < nodes@.len() && 0 <= b < nodes@.len() && a != b ==> nodes@[a].path@
                        != nodes@[b].path@,
                forall|a: int|
                    0 <= a < i ==> path_to_id@.contains_key(#[trigger] nodes@[a].path@)
                        && path_to_id@[nodes@[a].path@] == a,
                forall|p: Seq<char>| #[trigger]
                    path_to_id@.contains_key(p) ==> path_to_id@[p] < i
                        && nodes@[path_to_id@[p] as int].path@ == p,
            decreases nodes@.len() - i,
        {
            let id = adjacency::add_node(&mut adjacency);
            path_to_id.insert(nodes[i].path.clone(), id);
            i += 1;
        }
        let mut graph = DependencyGraph { graph: adjacency, nodes, path_to_id };
        proof {
            graph.lemma_inv_wf();
            assert(graph.edges() =~= edges@.take(0).to_set());
            assert(data.nodes.deep_view() =~= graph.nodes());
        }
        let mut k: usize = 0;
        while k < edges.len()
            invariant
                graph.wf(),
                k <= edges@.len(),
                edges@.len() <= u32::MAX,
                graph.nodes() == data.nodes.deep_view(),
                graph.len() == data.nodes@.len(),
                graph.edges() == edges@.take(k as int).to_set(),
                graph.edges().len() <= k,
                forall|j: int|
                    0 <= j < edges@.len() ==> (#[trigger] edges@[j]).0 < data.nodes@.len()
                        && edges@[j].1 < data.nodes@.len(),
            decreases edges@.len() - k,
        {
            let (u, v) = edges[k];
            let ghost before = graph.edges();
            graph.add_dependency(u, v);
            proof {
                assert(edges@.take(k + 1) =~= edges@.take(k as int).push((u, v)));
                edges@.take(k as int).lemma_push_to_set_commute((u, v));
                vstd::set::axiom_set_insert_len(before, (u, v));
            }
            k += 1;
        }
        proof {
            assert(edges@.take(edges@.len() as int) =~= edges@);
        }
        Ok(graph)
    }

    /// A graph with the same files and edges.
    pub fn clone(&self) -> (copy: DependencyGraph)
        requires
            self.wf(),
        ensures
            copy.wf(),
            copy.nodes() == self.nodes(),
            copy.edges() == self.edges(),
    {
        match Self::deserialize(self.serialize()) {
            Ok(copy) => copy,
            Err(_) => DependencyGraph::new(),
        }
    }

    /// `chain` leads along edges from its first file to its last.
    pub open spec fn is_chain(&self, chain: Seq<FileId>) -> bool {
        &&& chain.len() > 0
        &&& forall|i: int|
            #![trigger chain[i]]
            0 <= i < chain.len() - 1 ==> self.has_edge(chain[i], chain[i + 1])
    }

    /// `from` is `to`, or imports it, directly or through other files.
    pub open spec fn depends_on(&self, from: FileId, to: FileId) -> bool {
        exists|chain: Seq<FileId>| #[trigger]
            self.is_chain(chain) && chain.first() == from && chain.last() == to
    }

    /// The files that depend on at least one of `files`.
    pub open spec fn transitive_dependents(&self, files: Seq<FileId>) -> Set<FileId> {
        Set::new(
            |x: FileId| exists|i: int| 0 <= i < files.len() && self.depends_on(x, #[trigger] files[i]),
        )
    }

    /// Every file depends on itself.
    pub proof fn lemma_depends_on_self(&self, x: FileId)
        ensures
            self.depends_on(x, x),
    {
        let chain = seq![x];
        assert(self.is_chain(chain) && chain.first() == x && chain.last() == x);
    }

    /// Who imports a dependent is a dependent.
    pub proof fn lemma_depends_on_step(&self, y: FileId, x: FileId, to: FileId)
        requires
            self.has_edge(y, x),
            self.depends_on(x, to),
        ensures
            self.depends_on(y, to),
    {
        let chain = choose|chain: Seq<FileId>| #[trigger]
            self.is_chain(chain) && chain.first() == x && chain.last() == to;
        let longer = seq![y] + chain;
        assert forall|i: int| #![trigger longer[i]] 0 <= i < longer.len() - 1 implies self.has_edge(
            longer[i],
            longer[i + 1],
        ) by {
            if i > 0 {
                assert(longer[i] == chain[i - 1]);
                assert(longer[i + 1] == chain[i]);
            }
        }
        assert(self.is_chain(longer) && longer.first() == y && longer.last() == to);
    }

    /// Where the files of a graph stand in one line, each importing the
    /// next, the dependents of the last file are all the files: as many as
    /// the line is long.
    pub proof fn lemma_line_dependents(&self, line: Seq<FileId>)
        requires
            self.wf(),
            self.is_chain(line),
            line.no_duplicates(),
            forall|id: FileId| id < self.len() ==> line.contains(id),
        ensures
            self.transitive_dependents(seq![line.last()]) == line.to_set(),
            self.transitive_dependents(seq![line.last()]).len() == line.len(),
    {
        let tail = seq![line.last()];
        let dependents = self.transitive_dependents(tail);
        assert forall|x: FileId| line.to_set().contains(x) implies dependents.contains(x) by {
            let j = choose|j: int| 0 <= j < line.len() && line[j] == x;
            let rest = line.subrange(j, line.len() as int);
            assert forall|i: int| #![trigger rest[i]] 0 <= i < rest.len() - 1 implies self.has_edge(
                rest[i],
                rest[i + 1],
            ) by {
                assert(rest[i] == line[j + i]);
                assert(rest[i + 1] == line[j + i + 1]);
            }
            assert(self.is_chain(rest) && rest.first() == x && rest.last() == line.last());
            assert(self.depends_on(x, tail[0]));
        }
        assert forall|x: FileId| dependents.contains(x) implies line.to_set().contains(x) by {
            let i = choose|i: int| 0 <= i < tail.len() && self.depends_on(x, #[trigger] tail[i]);
            let chain = choose|chain: Seq<FileId>| #[trigger]
                self.is_chain(chain) && chain.first() == x && chain.last() == tail[i];
            if chain.len() > 1 {
                assert(self.has_edge(chain[0], chain[1]));
            }
        }
        assert(dependents =~= line.to_set());
        line.unique_seq_to_set();
    }

    /// A set that holds the end of a chain, and with each file its importers,
    /// holds the whole chain.
    proof fn lemma_closed_holds_chain(&self, closed: Set<FileId>, chain: Seq<FileId>, i: int)
        requires
            self.is_chain(chain),
            closed.contains(chain.last()),
            forall|x: FileId, y: FileId|
                closed.contains(x) && #[trigger] self.has_edge(y, x) ==> closed.contains(y),
            0 <= i < chain.len(),
        ensures
            closed.contains(chain[i]),
        decreases chain.len() - i,
    {
        if i < chain.len() - 1 {
            self.lemma_closed_holds_chain(closed, chain, i + 1);
            assert(self.has_edge(chain[i], chain[i + 1]));
        }
    }

    /// The files that depend on at least one of `files`, the files of
    /// `files` among them. Cycles are followed once.
    pub fn get_transitive_dependents(&self, files: &[FileId]) -> (out: HashSet<FileId>)
        requires
            self.wf(),
        ensures
            out@ == self.transitive_dependents(files@),
            forall|i: int| 0 <= i < files@.len() ==> out@.contains(files@[i]),
    {
        proof {
            self.lemma_inv_wf();
        }
        let n = self.nodes.len();
        let ghost target = self.transitive_dependents(files@);
        let mut visited: Vec<bool> = vec![false; n];
        let mut out: HashSet<FileId> = HashSet::new();
        let mut stack: Vec<FileId> = Vec::new();
        let mut s: usize = 0;
        while s < files.len()
            invariant
                self.wf(),
                n == self.len(),
                target == self.transitive_dependents(files@),
                s <= files@.len(),
                visited@.len() == n,
                stack@.len() == 0,
                forall|x: FileId| out@.contains(x) ==> target.contains(x),
                forall|x: int| 0 <= x < n && visited@[x] ==> out@.contains(x as FileId),
                forall|j: int| 0 <= j < s ==> out@.contains(files@[j]),
                forall|j: int| 0 <= j < s && files@[j] < n ==> visited@[files@[j] as int],
                forall|x: FileId, y: FileId|
                    x < n && visited@[x as int] && #[trigger] self.has_edge(y, x)
                        ==> visited@[y as int],
            decreases files@.len() - s,
        {
            let start = files[s];
            proof {
                self.lemma_depends_on_self(start);
                assert(target.contains(start));
            }
            if start as usize >= n {
                out.insert(start);
            } else {
                stack.push(start);
                assert(stack@[0] == start);
                while stack.len() > 0
                    invariant
                        self.wf(),
                        n == self.len(),
                        target == self.transitive_dependents(files@),
                        s < files@.len(),
                        start == files@[s as int],
                        start < n,
                        visited@.len() == n,
                        forall|x: FileId| out@.contains(x) ==> target.contains(x),
                        forall|x: int| 0 <= x < n && visited@[x] ==> out@.contains(x as FileId),
                        forall|j: int| 0 <= j < s ==> out@.contains(files@[j]),
                        forall|j: int| 0 <= j < s && files@[j] < n ==> visited@[files@[j] as int],
                        forall|j: int|
                            0 <= j < stack@.len() ==> (#[trigger] stack@[j]) < n
                                && target.contains(stack@[j]),
                        visited@[start as int] || stack@.contains(start),
                        forall|x: FileId, y: FileId|
                            x < n && visited@[x as int] && #[trigger] self.has_edge(y, x)
                                ==> visited@[y as int] || stack@.contains(y),
                    decreases unvisited(visited@), stack@.len(),
                {
                    let ghost stack_before = stack@;
                    let current = stack.pop().unwrap();
                    assert(stack_before =~= stack@.push(current));
                    assert forall|y: FileId| stack_before.contains(y) implies stack@.contains(y)
                        || y == current by {
                        let j = choose|j: int| 0 <= j < stack_before.len() && stack_before[j] == y;
                        if j < stack@.len() {
                            assert(stack@[j] == y);
                        }
                    }
                    if !visited[current as usize] {
                        proof {
                            lemma_unvisited_mark(visited@, current as int);
                        }
                        visited.set(current as usize, true);
                        out.insert(current);
                        let deps = self.get_dependents(current);
                        assert forall|j: int| 0 <= j < deps@.len() implies (#[trigger] deps@[j])
                            < n by {
                            assert(deps@.contains(deps@[j]));
                            assert(self.has_edge(deps@[j], current));
                        }
                        let mut k: usize = 0;
                        while k < deps.len()
                            invariant
                                self.wf(),
                                n == self.len(),
                                target == self.transitive_dependents(files@),
                                s < files@.len(),
                                start == files@[s as int],
                                start < n,
                                current < n,
                                visited@.len() == n,
                                visited@[current as int],
                                target.contains(current),
                                k <= deps@.len(),
                                forall|x: FileId| deps@.contains(x) <==> self.has_edge(x, current),
                                forall|j: int| 0 <= j < deps@.len() ==> (#[trigger] deps@[j]) < n,
                                forall|x: FileId| out@.contains(x) ==> target.contains(x),
                                forall|x: int|
                                    0 <= x < n && visited@[x] ==> out@.contains(x as FileId),
                                forall|j: int| 0 <= j < s ==> out@.contains(files@[j]),
                                forall|j: int|
                                    0 <= j < s && files@[j] < n ==> visited@[files@[j] as int],
                                forall|j: int|
                                    0 <= j < stack@.len() ==> (#[trigger] stack@[j]) < n
                                        && target.contains(stack@[j]),
                                visited@[start as int] || stack@.contains(start),
                                forall|x: FileId, y: FileId|
                                    x < n && x != current && visited@[x as int]
                                        && #[trigger] self.has_edge(y, x) ==> visited@[y as int]
                                        || stack@.contains(y),
                                forall|j: int|
                                    0 <= j < k ==> visited@[(#[trigger] deps@[j]) as int]
                                        || stack@.contains(deps@[j]),
                            decreases deps@.len() - k,
                        {
                            let d = deps[k];
                            proof {
                                assert(deps@.contains(d));
                                assert(self.has_edge(d, current));
                                self.lemma_depends_on_target(d, current, files@);
                            }
                            let ghost stack_prior = stack@;
                            if !visited[d as usize] {
                                stack.push(d);
                                assert(stack@[stack@.len() - 1] == d);
                                assert forall|y: FileId| stack_prior.contains(y) implies stack@.contains(
                                    y,
                                ) by {
                                    let j = choose|j: int|
                                        0 <= j < stack_prior.len() && stack_prior[j] == y;
                                    assert(stack@[j] == y);
                                }
                            }
                            k += 1;
                        }
                        proof {
                            assert forall|x: FileId, y: FileId|
                                x < n && visited@[x as int] && #[trigger] self.has_edge(
                                    y,
                                    x,
                                ) implies visited@[y as int] || stack@.contains(y) by {
                                if x == current {
                                    assert(deps@.contains(y));
                                    let j = choose|j: int| 0 <= j < deps@.len() && deps@[j] == y;
                                    assert(visited@[deps@[j] as int] || stack@.contains(deps@[j]));
                                }
                            }
                        }
                    }
                }
            }
            s += 1;
        }
        proof {
            let closed = Set::new(|x: FileId| x < n && visited@[x as int]);
            assert forall|x: FileId| target.contains(x) implies out@.contains(x) by {
                let i = choose|i: int|
                    0 <= i < files@.len() && self.depends_on(x, #[trigger] files@[i]);
                let to = files@[i];
                let chain = choose|chain: Seq<FileId>| #[trigger]
                    self.is_chain(chain) && chain.first() == x && chain.last() == to;
                if to < n {
                    assert(closed.contains(chain.last()));
                    self.lemma_closed_holds_chain(closed, chain, 0);
                    assert(closed.contains(x));
                } else {
                    if chain.len() > 1 {
                        assert(self.has_edge(chain[chain.len() - 2], chain[chain.len() - 2 + 1]));
                    }
                    assert(x == to);
                }
            }
            assert(out@ =~= target);
        }
        out
    }

    /// Who imports a file that depends on one of `files` depends on one too.
    proof fn lemma_depends_on_target(&self, y: FileId, x: FileId, files: Seq<FileId>)
        requires
            self.has_edge(y, x),
            self.transitive_dependents(files).contains(x),
        ensures
            self.transitive_dependents(files).contains(y),
    {
        let i = choose|i: int| 0 <= i < files.len() && self.depends_on(x, #[trigger] files[i]);
        self.lemma_depends_on_step(y, x, files[i]);
    }
}

impl Default for DependencyGraph {
    fn default() -> (graph: Self)
        ensures
            graph.wf(),
            graph.len() == 0,
            graph.edges() == Set::<(FileId, FileId)>::empty(),
    {
        Self::new()
    }
}

} // verus!
