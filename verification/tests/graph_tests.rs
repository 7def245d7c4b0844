use scopetest::fs::{EntryKind, FileEntry, FileTree};
use scopetest::graph::{DependencyGraph, FileNode, SerializedGraph};
use std::collections::HashSet;

fn file(path: &str, modified_time: u64) -> FileEntry {
    FileEntry {
        path: path.to_string(),
        kind: EntryKind::File,
        canonical: path.to_string(),
        modified_time,
        content_hash: 7,
        content: None,
    }
}

#[test]
fn test_add_file() {
    let tree = FileTree::new();
    let mut graph = DependencyGraph::new();
    let id = graph.add_file("/test/a.ts".to_string(), false, &tree);

    assert_eq!(graph.file_count(), 1);
    assert_eq!(graph.get_file_path(id), Some("/test/a.ts"));
}

#[test]
fn test_add_dependency() {
    let tree = FileTree::new();
    let mut graph = DependencyGraph::new();
    let a = graph.add_file("/test/a.ts".to_string(), false, &tree);
    let b = graph.add_file("/test/b.ts".to_string(), false, &tree);

    graph.add_dependency(a, b);

    assert_eq!(graph.edge_count(), 1);
    assert_eq!(graph.get_dependencies(a), vec![b]);
    assert_eq!(graph.get_dependents(b), vec![a]);
}

#[test]
fn test_transitive_dependents() {
    let tree = FileTree::new();
    let mut graph = DependencyGraph::new();
    let a = graph.add_file("/test/a.ts".to_string(), false, &tree);
    let b = graph.add_file("/test/b.ts".to_string(), false, &tree);
    let c = graph.add_file("/test/c.ts".to_string(), true, &tree);

    graph.add_dependency(b, a);
    graph.add_dependency(c, b);

    let dependents = graph.get_transitive_dependents(&[a]);

    assert!(dependents.contains(&a));
    assert!(dependents.contains(&b));
    assert!(dependents.contains(&c));
}

#[test]
fn test_get_test_files() {
    let tree = FileTree::new();
    let mut graph = DependencyGraph::new();
    graph.add_file("/test/a.ts".to_string(), false, &tree);
    graph.add_file("/test/a.spec.ts".to_string(), true, &tree);
    graph.add_file("/test/b.ts".to_string(), false, &tree);
    graph.add_file("/test/b.test.ts".to_string(), true, &tree);

    let tests = graph.get_test_files();
    assert_eq!(tests.len(), 2);
}

#[test]
fn test_serialize_deserialize() {
    let tree = FileTree::new();
    let mut graph = DependencyGraph::new();
    let a = graph.add_file("/test/a.ts".to_string(), false, &tree);
    let b = graph.add_file("/test/b.ts".to_string(), true, &tree);
    graph.add_dependency(a, b);

    let serialized = graph.serialize();
    let restored = DependencyGraph::deserialize(serialized).unwrap();

    assert_eq!(restored.file_count(), 2);
    assert_eq!(restored.edge_count(), 1);
}

#[test]
fn test_cyclic_deps() {
    let tree = FileTree::new();
    let mut graph = DependencyGraph::new();
    let a = graph.add_file("/a.ts".to_string(), false, &tree);
    let b = graph.add_file("/b.ts".to_string(), false, &tree);
    let c = graph.add_file("/c.ts".to_string(), true, &tree);
    graph.add_dependency(a, b);
    graph.add_dependency(b, c);
    graph.add_dependency(c, a);
    assert_eq!(graph.get_transitive_dependents(&[a]).len(), 3);
}

#[test]
fn test_diamond_deps() {
    let tree = FileTree::new();
    let mut graph = DependencyGraph::new();
    let a = graph.add_file("/a.ts".to_string(), false, &tree);
    let b = graph.add_file("/b.ts".to_string(), false, &tree);
    let c = graph.add_file("/c.ts".to_string(), false, &tree);
    let d = graph.add_file("/d.spec.ts".to_string(), true, &tree);
    graph.add_dependency(b, a);
    graph.add_dependency(c, a);
    graph.add_dependency(d, b);
    graph.add_dependency(d, c);
    let deps = graph.get_transitive_dependents(&[a]);
    let unique: HashSet<_> = deps.iter().collect();
    assert_eq!(unique.len(), 4);
}

#[test]
fn test_empty_graph() {
    let graph = DependencyGraph::new();
    let restored = DependencyGraph::deserialize(graph.serialize()).unwrap();
    assert_eq!(restored.file_count(), 0);
}

#[test]
fn add_file_twice_keeps_the_id_and_the_record() {
    let tree = FileTree::new();
    let mut graph = DependencyGraph::new();
    let first = graph.add_file("/a.ts".to_string(), false, &tree);
    let second = graph.add_file("/a.ts".to_string(), true, &tree);
    assert_eq!(first, second);
    assert_eq!(graph.file_count(), 1);
    assert!(!graph.get_file_node(first).unwrap().is_test);
}

#[test]
fn add_file_stores_the_canonical_path_and_the_snapshot() {
    let mut tree = FileTree::new();
    tree.insert(FileEntry {
        path: "/link/a.ts".to_string(),
        kind: EntryKind::File,
        canonical: "/real/a.ts".to_string(),
        modified_time: 5,
        content_hash: 9,
        content: None,
    });
    tree.insert(FileEntry {
        path: "/real/a.ts".to_string(),
        kind: EntryKind::File,
        canonical: "/real/a.ts".to_string(),
        modified_time: 11,
        content_hash: 13,
        content: None,
    });
    let mut graph = DependencyGraph::new();
    let id = graph.add_file("/link/a.ts".to_string(), false, &tree);
    let node = graph.get_file_node(id).unwrap();
    assert_eq!(node.path, "/real/a.ts");
    assert_eq!(node.last_modified, 11);
    assert_eq!(node.content_hash, 13);
    assert_eq!(graph.get_file_id("/link/a.ts", &tree), Some(id));
    assert_eq!(graph.get_file_id("/real/a.ts", &tree), Some(id));
    assert_eq!(graph.get_file_id("/other.ts", &tree), None);
    assert!(graph.contains_file("/link/a.ts", &tree));
}

#[test]
fn unknown_file_has_zero_snapshot() {
    let tree = FileTree::new();
    let node = FileNode::new("/nowhere.ts".to_string(), true, &tree);
    assert_eq!(node.last_modified, 0);
    assert_eq!(node.content_hash, 0);
    assert!(node.is_test);
}

#[test]
fn duplicate_edges_are_kept_once() {
    let tree = FileTree::new();
    let mut graph = DependencyGraph::new();
    let a = graph.add_file("/a.ts".to_string(), false, &tree);
    let b = graph.add_file("/b.ts".to_string(), false, &tree);
    graph.add_dependency(a, b);
    graph.add_dependency(a, b);
    assert_eq!(graph.edge_count(), 1);
    graph.add_dependency(a, a);
    assert_eq!(graph.edge_count(), 2);
    let mut deps = graph.get_dependencies(a);
    deps.sort();
    assert_eq!(deps, vec![a, b]);
}

#[test]
fn id_and_path_determine_each_other() {
    let tree = FileTree::new();
    let mut graph = DependencyGraph::new();
    let paths = ["/a.ts", "/b.ts", "/c.ts"];
    let ids: Vec<u32> = paths.iter().map(|p| graph.add_file(p.to_string(), false, &tree)).collect();
    for (path, id) in paths.iter().zip(ids.iter()) {
        assert_eq!(graph.get_file_path(*id), Some(*path));
        assert_eq!(graph.get_file_id(path, &tree), Some(*id));
    }
    assert_eq!(graph.get_file_path(3), None);
    assert_eq!(graph.get_all_files(), vec![0, 1, 2]);
    assert_eq!(graph.get_all_paths(), vec!["/a.ts", "/b.ts", "/c.ts"]);
}

#[test]
fn transitive_dependents_contain_the_inputs() {
    let tree = FileTree::new();
    let mut graph = DependencyGraph::new();
    let a = graph.add_file("/a.ts".to_string(), false, &tree);
    let b = graph.add_file("/b.ts".to_string(), false, &tree);
    let found = graph.get_transitive_dependents(&[a, b, 17]);
    assert!(found.contains(&a));
    assert!(found.contains(&b));
    assert!(found.contains(&17));
    assert_eq!(found.len(), 3);
    assert_eq!(graph.get_transitive_dependents(&[]).len(), 0);
}

#[test]
fn chain_of_k_files_has_k_dependents_of_its_tail() {
    for k in 2usize..8 {
        let tree = FileTree::new();
        let mut graph = DependencyGraph::new();
        let mut ids = Vec::new();
        for i in 0..k {
            ids.push(graph.add_file(format!("/f{}.ts", i), false, &tree));
        }
        for i in 0..k - 1 {
            graph.add_dependency(ids[i + 1], ids[i]);
        }
        assert_eq!(graph.get_transitive_dependents(&[ids[0]]).len(), k);
        assert_eq!(graph.get_transitive_dependents(&[ids[k - 1]]).len(), 1);
    }
}

#[test]
fn self_loops_do_not_trap_the_traversal() {
    let tree = FileTree::new();
    let mut graph = DependencyGraph::new();
    let a = graph.add_file("/a.ts".to_string(), false, &tree);
    let b = graph.add_file("/b.ts".to_string(), false, &tree);
    graph.add_dependency(a, a);
    graph.add_dependency(b, a);
    let found = graph.get_transitive_dependents(&[a]);
    assert_eq!(found.len(), 2);
}

#[test]
fn remove_file_moves_the_last_file_into_the_gap() {
    let tree = FileTree::new();
    let mut graph = DependencyGraph::new();
    let a = graph.add_file("/a.ts".to_string(), false, &tree);
    let b = graph.add_file("/b.ts".to_string(), false, &tree);
    let c = graph.add_file("/c.ts".to_string(), true, &tree);
    graph.add_dependency(b, a);
    graph.add_dependency(c, b);
    graph.add_dependency(c, a);
    graph.remove_file(a);
    assert_eq!(graph.file_count(), 2);
    assert_eq!(graph.edge_count(), 1);
    assert_eq!(graph.get_file_id("/a.ts", &tree), None);
    // the file with the highest id took the id of the removed one
    assert_eq!(graph.get_file_id("/c.ts", &tree), Some(a));
    assert_eq!(graph.get_file_path(a), Some("/c.ts"));
    assert_eq!(graph.get_file_id("/b.ts", &tree), Some(b));
    assert_eq!(graph.get_dependencies(a), vec![b]);
    assert_eq!(graph.get_dependents(b), vec![a]);
    graph.remove_file(9);
    assert_eq!(graph.file_count(), 2);
}

#[test]
fn update_file_takes_a_new_record_and_drops_outgoing_edges() {
    let mut tree = FileTree::new();
    let mut graph = DependencyGraph::new();
    let a = graph.add_file("/a.ts".to_string(), false, &tree);
    let b = graph.add_file("/b.ts".to_string(), false, &tree);
    graph.add_dependency(a, b);
    graph.add_dependency(b, a);
    tree.insert(file("/a.ts", 42));
    assert_eq!(graph.update_file("/a.ts", true, &tree), Some(a));
    let node = graph.get_file_node(a).unwrap();
    assert!(node.is_test);
    assert_eq!(node.last_modified, 42);
    assert_eq!(node.content_hash, 7);
    assert_eq!(graph.get_dependencies(a), Vec::<u32>::new());
    assert_eq!(graph.get_dependencies(b), vec![a]);
    assert_eq!(graph.update_file("/missing.ts", true, &tree), None);
    assert_eq!(graph.edge_count(), 1);
}

#[test]
fn clear_dependencies_leaves_incoming_edges() {
    let tree = FileTree::new();
    let mut graph = DependencyGraph::new();
    let a = graph.add_file("/a.ts".to_string(), false, &tree);
    let b = graph.add_file("/b.ts".to_string(), false, &tree);
    let c = graph.add_file("/c.ts".to_string(), false, &tree);
    graph.add_dependency(a, b);
    graph.add_dependency(a, c);
    graph.add_dependency(b, a);
    graph.clear_dependencies(a);
    assert_eq!(graph.edge_count(), 1);
    assert_eq!(graph.get_dependents(a), vec![b]);
}

#[test]
fn stale_files_are_those_missing_or_modified() {
    let mut tree = FileTree::new();
    tree.insert(file("/a.ts", 1));
    tree.insert(file("/b.ts", 2));
    tree.insert(file("/c.ts", 3));
    let mut graph = DependencyGraph::new();
    graph.add_file("/a.ts".to_string(), false, &tree);
    graph.add_file("/b.ts".to_string(), false, &tree);
    graph.add_file("/c.ts".to_string(), false, &tree);
    assert_eq!(graph.get_stale_files(&tree), Vec::<String>::new());
    let mut later = FileTree::new();
    later.insert(file("/a.ts", 1));
    later.insert(file("/b.ts", 20));
    assert_eq!(graph.get_stale_files(&later), vec!["/b.ts", "/c.ts"]);
}

#[test]
fn round_trip_keeps_files_edges_and_tests() {
    let tree = FileTree::new();
    let mut graph = DependencyGraph::new();
    for i in 0..9 {
        graph.add_file(format!("/f{}.ts", i), i % 2 == 0, &tree);
    }
    graph.add_dependency(1, 0);
    graph.add_dependency(2, 1);
    graph.add_dependency(8, 3);
    let restored = DependencyGraph::deserialize(graph.serialize()).unwrap();
    assert_eq!(restored.file_count(), 9);
    assert_eq!(restored.get_all_paths(), graph.get_all_paths());
    assert_eq!(restored.get_test_files(), graph.get_test_files());
    for id in 0..9 {
        let mut one = graph.get_dependencies(id);
        let mut other = restored.get_dependencies(id);
        one.sort();
        other.sort();
        assert_eq!(one, other);
    }
    let copy = graph.clone();
    assert_eq!(copy.edge_count(), 3);
    assert_eq!(DependencyGraph::default().file_count(), 0);
}

#[test]
fn inconsistent_data_is_recognised() {
    let node = |p: &str| FileNode { path: p.to_string(), is_test: false, last_modified: 0, content_hash: 0 };
    let good = SerializedGraph { version: 1, nodes: vec![node("/a"), node("/b")], edges: vec![(0, 1)] };
    assert!(good.is_consistent());
    let twice = SerializedGraph { version: 1, nodes: vec![node("/a"), node("/a")], edges: vec![] };
    assert!(!twice.is_consistent());
    let dangling = SerializedGraph { version: 1, nodes: vec![node("/a")], edges: vec![(0, 1)] };
    assert!(!dangling.is_consistent());
    let repeated = SerializedGraph { version: 1, nodes: vec![node("/a"), node("/b")], edges: vec![(0, 1), (0, 1)] };
    assert!(repeated.is_consistent());
    assert_eq!(DependencyGraph::deserialize(repeated).unwrap().edge_count(), 1);
}

#[test]
fn data_of_another_version_gives_no_graph() {
    let tree = FileTree::new();
    let mut graph = DependencyGraph::new();
    graph.add_file("/a.ts".to_string(), false, &tree);
    for version in [0u32, 2, 7, u32::MAX] {
        let mut data = graph.serialize();
        data.version = version;
        match DependencyGraph::deserialize(data) {
            Err(mismatch) => assert_eq!(mismatch.found, version),
            Ok(_) => panic!("another version is refused"),
        }
    }
    let data = graph.serialize();
    assert_eq!(data.version, 1);
    assert_eq!(DependencyGraph::deserialize(data).unwrap().file_count(), 1);
}
