use scopetest::affected::{AffectedTestFinder, DependencyPath};
use scopetest::fs::FileTree;
use scopetest::git::ChangeSet;
use scopetest::graph::DependencyGraph;

fn create_test_graph() -> DependencyGraph {
    let tree = FileTree::new();
    let mut graph = DependencyGraph::new();

    let utils = graph.add_file("/src/utils.ts".to_string(), false, &tree);
    let component = graph.add_file("/src/component.ts".to_string(), false, &tree);
    let test = graph.add_file("/src/test.spec.ts".to_string(), true, &tree);

    graph.add_dependency(component, utils);
    graph.add_dependency(test, component);

    graph
}

fn modified(paths: &[&str]) -> ChangeSet {
    ChangeSet { modified: paths.iter().map(|p| p.to_string()).collect(), ..Default::default() }
}

#[test]
fn test_find_affected_direct() {
    let graph = create_test_graph();
    let tree = FileTree::new();
    let finder = AffectedTestFinder::new(&graph);

    let changes = ChangeSet { modified: vec!["/src/component.ts".to_string()], ..Default::default() };

    let result = finder.find_affected(&changes, &tree);

    assert_eq!(result.tests.len(), 1);
    assert!(result.tests[0].contains("test.spec.ts"));
}

#[test]
fn test_find_affected_transitive() {
    let graph = create_test_graph();
    let tree = FileTree::new();
    let finder = AffectedTestFinder::new(&graph);

    let changes = ChangeSet { modified: vec!["/src/utils.ts".to_string()], ..Default::default() };

    let result = finder.find_affected(&changes, &tree);

    assert_eq!(result.tests.len(), 1);
    assert!(result.tests[0].contains("test.spec.ts"));
    assert!(result.sources.len() >= 1);
}

#[test]
fn test_find_affected_no_changes() {
    let graph = create_test_graph();
    let tree = FileTree::new();
    let finder = AffectedTestFinder::new(&graph);

    let changes = ChangeSet { modified: vec!["/src/unknown.ts".to_string()], ..Default::default() };

    let result = finder.find_affected(&changes, &tree);

    assert!(result.tests.is_empty());
}

#[test]
fn diamond_change_at_the_bottom_affects_everything() {
    let tree = FileTree::new();
    let mut graph = DependencyGraph::new();
    let a = graph.add_file("/p/a.ts".to_string(), false, &tree);
    let b = graph.add_file("/p/b.ts".to_string(), false, &tree);
    let c = graph.add_file("/p/c.ts".to_string(), false, &tree);
    let d = graph.add_file("/p/d.spec.ts".to_string(), true, &tree);
    graph.add_dependency(b, a);
    graph.add_dependency(c, a);
    graph.add_dependency(d, b);
    graph.add_dependency(d, c);
    let finder = AffectedTestFinder::new(&graph);
    let result = finder.find_affected(&modified(&["/p/a.ts"]), &tree);
    assert_eq!(result.tests, vec!["/p/d.spec.ts"]);
    assert_eq!(result.sources, vec!["/p/a.ts", "/p/b.ts", "/p/c.ts"]);
    assert_eq!(finder.get_totals(), (1, 3));
}

#[test]
fn cycle_is_followed_once() {
    let tree = FileTree::new();
    let mut graph = DependencyGraph::new();
    let a = graph.add_file("/a.ts".to_string(), false, &tree);
    let b = graph.add_file("/b.ts".to_string(), false, &tree);
    let c = graph.add_file("/c.ts".to_string(), true, &tree);
    graph.add_dependency(a, b);
    graph.add_dependency(b, c);
    graph.add_dependency(c, a);
    let finder = AffectedTestFinder::new(&graph);
    let result = finder.find_affected(&modified(&["/a.ts"]), &tree);
    assert_eq!(result.tests, vec!["/c.ts"]);
    assert_eq!(result.sources, vec!["/a.ts", "/b.ts"]);
}

#[test]
fn results_are_sorted_and_leave_out_node_modules() {
    let tree = FileTree::new();
    let mut graph = DependencyGraph::new();
    let base = graph.add_file("/p/z.ts".to_string(), false, &tree);
    let names = ["/p/m.ts", "/p/node_modules/x/i.ts", "/p/b.ts", "/p/a-b/x.ts", "/p/a/b.ts"];
    for name in names {
        let id = graph.add_file(name.to_string(), false, &tree);
        graph.add_dependency(id, base);
    }
    for name in ["/p/t2.spec.ts", "/p/node_modules/t.spec.ts", "/p/t1.spec.ts"] {
        let id = graph.add_file(name.to_string(), true, &tree);
        graph.add_dependency(id, base);
    }
    let finder = AffectedTestFinder::new(&graph);
    let result = finder.find_affected(&modified(&["/p/z.ts"]), &tree);
    assert_eq!(result.sources, vec!["/p/a/b.ts", "/p/a-b/x.ts", "/p/b.ts", "/p/m.ts", "/p/z.ts"]);
    assert_eq!(result.tests, vec!["/p/node_modules/t.spec.ts", "/p/t1.spec.ts", "/p/t2.spec.ts"]);
}

#[test]
fn a_larger_change_set_affects_no_less() {
    let graph = create_test_graph();
    let tree = FileTree::new();
    let finder = AffectedTestFinder::new(&graph);
    let small = finder.find_affected(&modified(&["/src/component.ts"]), &tree);
    let large = finder.find_affected(&modified(&["/src/component.ts", "/src/utils.ts"]), &tree);
    for path in small.tests.iter().chain(small.sources.iter()) {
        assert!(large.tests.contains(path) || large.sources.contains(path));
    }
    assert_eq!(small.sources, vec!["/src/component.ts"]);
    assert_eq!(large.sources, vec!["/src/component.ts", "/src/utils.ts"]);
}

#[test]
fn added_and_renamed_paths_count_as_changed_and_deleted_ones_do_not() {
    let graph = create_test_graph();
    let tree = FileTree::new();
    let finder = AffectedTestFinder::new(&graph);
    let deleted = ChangeSet { deleted: vec!["/src/utils.ts".to_string()], ..Default::default() };
    assert!(finder.find_affected(&deleted, &tree).tests.is_empty());
    let renamed = ChangeSet {
        renamed: vec![("/src/old.ts".to_string(), "/src/utils.ts".to_string())],
        ..Default::default()
    };
    assert_eq!(finder.find_affected(&renamed, &tree).tests, vec!["/src/test.spec.ts"]);
    let added = ChangeSet { added: vec!["/src/component.ts".to_string()], ..Default::default() };
    assert_eq!(finder.find_affected(&added, &tree).sources, vec!["/src/component.ts"]);
}

#[test]
fn find_why_gives_the_shortest_chain_from_the_test() {
    let tree = FileTree::new();
    let mut graph = DependencyGraph::new();
    let a = graph.add_file("/a.ts".to_string(), false, &tree);
    let b = graph.add_file("/b.ts".to_string(), false, &tree);
    let c = graph.add_file("/c.ts".to_string(), false, &tree);
    let t = graph.add_file("/t.spec.ts".to_string(), true, &tree);
    // t -> c -> b -> a and the shortcut t -> b
    graph.add_dependency(t, c);
    graph.add_dependency(c, b);
    graph.add_dependency(b, a);
    graph.add_dependency(t, b);
    let finder = AffectedTestFinder::new(&graph);
    let why = finder.find_why("/t.spec.ts", &modified(&["/a.ts"]), &tree).unwrap();
    assert_eq!(why.chain, vec!["/t.spec.ts", "/b.ts", "/a.ts"]);
    assert_eq!(why.format(), "/t.spec.ts \u{2192} /b.ts \u{2192} /a.ts");
    let itself = finder.find_why("/t.spec.ts", &modified(&["/t.spec.ts"]), &tree).unwrap();
    assert_eq!(itself.chain, vec!["/t.spec.ts"]);
    assert!(finder.find_why("/a.ts", &modified(&["/t.spec.ts"]), &tree).is_none());
    assert!(finder.find_why("/nowhere.ts", &modified(&["/a.ts"]), &tree).is_none());
    assert!(finder.find_why("/t.spec.ts", &modified(&["/nowhere.ts"]), &tree).is_none());
}

#[test]
fn find_all_paths_gives_one_chain_for_each_changed_file() {
    let tree = FileTree::new();
    let mut graph = DependencyGraph::new();
    let a = graph.add_file("/a.ts".to_string(), false, &tree);
    let b = graph.add_file("/b.ts".to_string(), false, &tree);
    graph.add_file("/lone.ts".to_string(), false, &tree);
    let t = graph.add_file("/t.spec.ts".to_string(), true, &tree);
    graph.add_dependency(t, b);
    graph.add_dependency(b, a);
    let finder = AffectedTestFinder::new(&graph);
    let changes = modified(&["/b.ts", "/lone.ts", "/a.ts"]);
    let paths = finder.find_all_paths_to_test("/t.spec.ts", &changes, &tree);
    let chains: Vec<Vec<String>> = paths.iter().map(|p| p.chain.clone()).collect();
    assert_eq!(chains, vec![vec!["/t.spec.ts", "/b.ts", "/a.ts"], vec!["/t.spec.ts", "/b.ts"]]);
    assert!(finder.find_all_paths_to_test("/nowhere.ts", &changes, &tree).is_empty());
}

#[test]
fn format_joins_with_arrows() {
    let empty = DependencyPath { chain: vec![] };
    assert_eq!(empty.format(), "");
    let one = DependencyPath { chain: vec!["a".to_string()] };
    assert_eq!(one.clone().format(), "a");
}

#[test]
fn only_a_segment_named_node_modules_hides_a_source() {
    let tree = FileTree::new();
    let mut graph = DependencyGraph::new();
    let u = graph.add_file("/src/node_modules_util.ts".to_string(), false, &tree);
    let v = graph.add_file("/src/my_node_modules/v.ts".to_string(), false, &tree);
    let w = graph.add_file("/src/node_modules/w/index.ts".to_string(), false, &tree);
    let x = graph.add_file("node_modules/x.ts".to_string(), false, &tree);
    let t = graph.add_file("/src/u.spec.ts".to_string(), true, &tree);
    graph.add_dependency(t, u);
    graph.add_dependency(u, v);
    graph.add_dependency(v, w);
    graph.add_dependency(w, x);
    let finder = AffectedTestFinder::new(&graph);
    let result = finder.find_affected(&modified(&["node_modules/x.ts"]), &tree);
    assert_eq!(result.tests, vec!["/src/u.spec.ts"]);
    assert_eq!(result.sources, vec!["/src/my_node_modules/v.ts", "/src/node_modules_util.ts"]);
    let single = finder.find_affected(&modified(&["/src/node_modules_util.ts"]), &tree);
    assert_eq!(single.sources, vec!["/src/node_modules_util.ts"]);
    assert_eq!(single.tests, vec!["/src/u.spec.ts"]);
}
