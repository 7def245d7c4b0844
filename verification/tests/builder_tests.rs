use scopetest::affected::AffectedTestFinder;
use scopetest::builder::{
    add_files, assemble, link, refresh_files, remove_files, BuildError, ClassifiedFile,
    GraphBuilder, ParsedFile, ResolvedFile,
};
use scopetest::config::Config;
use scopetest::fs::{EntryKind, FileEntry, FileTree};
use scopetest::git::ChangeSet;
use scopetest::graph::DependencyGraph;
use scopetest::syntax::parse_source;

fn project(files: &[(&str, &str)], modified: u64) -> FileTree {
    let mut tree = FileTree::new();
    for (path, text) in files {
        let mut dir = String::new();
        for segment in path.split('/').filter(|s| !s.is_empty()).collect::<Vec<_>>().split_last().unwrap().1 {
            dir.push('/');
            dir.push_str(segment);
            tree.insert(FileEntry {
                path: dir.clone(),
                kind: EntryKind::Directory,
                canonical: dir.clone(),
                modified_time: 0,
                content_hash: 0,
                content: None,
            });
        }
        tree.insert(FileEntry {
            path: path.to_string(),
            kind: EntryKind::File,
            canonical: path.to_string(),
            modified_time: modified,
            content_hash: text.len() as u64,
            content: Some(text.to_string()),
        });
    }
    tree
}

fn parse_all(files: &[String], tree: &FileTree) -> Vec<ParsedFile> {
    files
        .iter()
        .filter_map(|path| {
            let text = tree.read_to_string(path)?;
            let imports = parse_source(text, path).ok()?;
            Some(ParsedFile { path: path.clone(), imports })
        })
        .collect()
}

fn build(tree: &FileTree) -> (GraphBuilder, DependencyGraph) {
    let builder = GraphBuilder::new("/p".to_string(), Config::default(), tree);
    let files = builder.discover_files(&tree.paths(), tree);
    let parsed = parse_all(&files, tree);
    let graph = builder.build(&files, &parsed, tree).unwrap();
    (builder, graph)
}

fn modified(paths: &[&str]) -> ChangeSet {
    ChangeSet { modified: paths.iter().map(|p| p.to_string()).collect(), ..Default::default() }
}

#[test]
fn test_discover_files() {
    let tree = project(
        &[
            ("/p/src/a.ts", "export const a = 1;"),
            ("/p/src/b.tsx", "export const b = 2;"),
            ("/p/src/c.css", "body {}"),
        ],
        1,
    );

    let builder = GraphBuilder::new("/p".to_string(), Config::default(), &tree);
    let files = builder.discover_files(&tree.paths(), &tree);

    assert_eq!(files.len(), 2);
}

#[test]
fn test_build_graph() {
    let tree = project(
        &[
            ("/p/src/a.ts", r#"import { b } from './b';"#),
            ("/p/src/b.ts", "export const b = 1;"),
            ("/p/src/a.spec.ts", r#"import { a } from './a';"#),
        ],
        1,
    );

    let (_, graph) = build(&tree);

    assert_eq!(graph.file_count(), 3);
    assert!(graph.edge_count() > 0);
}

#[test]
fn test_incremental_update() {
    let before = project(
        &[("/p/src/a.ts", "export const a = 1;"), ("/p/src/b.ts", "export const b = 2;")],
        1,
    );
    let (builder, mut graph) = build(&before);

    assert_eq!(graph.file_count(), 2);

    let after = project(
        &[
            ("/p/src/a.ts", "export const a = 1;"),
            ("/p/src/b.ts", "export const b = 2;"),
            ("/p/src/c.ts", r#"import { a } from './a';"#),
        ],
        1,
    );
    let current = builder.discover_files(&after.paths(), &after);
    let plan = builder.plan_update(&graph, &current, &after);
    let parsed = parse_all(&plan.to_parse, &after);
    let _updated = builder.update_incremental(&mut graph, &plan, &parsed, &after).unwrap();

    assert_eq!(graph.file_count(), 3);
    assert!(graph.contains_file("/p/src/c.ts", &after));
}

#[test]
fn discovery_passes_over_what_is_ignored() {
    let tree = project(
        &[
            ("/p/src/a.ts", ""),
            ("/p/node_modules/x/index.js", ""),
            ("/p/dist/out.js", ""),
            ("/p/src/notes.md", ""),
            ("/p/src/dir.ts/inner.txt", ""),
        ],
        1,
    );
    let builder = GraphBuilder::new("/p".to_string(), Config::default(), &tree);
    let mut walked = tree.paths();
    walked.push("/p/src/ghost.ts".to_string());
    assert_eq!(builder.discover_files(&walked, &tree), vec!["/p/src/a.ts"]);
    assert_eq!(builder.ignore_flags(&walked).iter().filter(|f| **f).count(), 4);
    let none = vec![false; walked.len()];
    assert_eq!(
        builder.select_files(&walked, &none, &tree),
        vec!["/p/src/a.ts", "/p/node_modules/x/index.js", "/p/dist/out.js"]
    );
    let all = vec![true; walked.len()];
    assert!(builder.select_files(&walked, &all, &tree).is_empty());
    let classified = builder.classify(&vec!["/p/x.spec.ts".to_string(), "/p/x.ts".to_string()]);
    assert!(classified[0].is_test);
    assert!(!classified[1].is_test);
}

#[test]
fn add_then_delete_incrementally() {
    let start = project(&[("/p/a.ts", ""), ("/p/b.ts", "")], 1);
    let (builder, mut graph) = build(&start);
    assert_eq!(graph.file_count(), 2);
    assert_eq!(graph.edge_count(), 0);

    let idle = builder.plan_update(&graph, &builder.discover_files(&start.paths(), &start), &start);
    assert!(idle.stale.is_empty() && idle.new_files.is_empty() && idle.deleted_files.is_empty());
    assert_eq!(builder.update_incremental(&mut graph, &idle, &vec![], &start).unwrap(), 0);

    let added = project(&[("/p/a.ts", ""), ("/p/b.ts", ""), ("/p/c.ts", "import './a';")], 1);
    let current = builder.discover_files(&added.paths(), &added);
    let plan = builder.plan_update(&graph, &current, &added);
    assert_eq!(plan.new_files, vec!["/p/c.ts"]);
    assert_eq!(plan.to_parse, vec!["/p/c.ts"]);
    let parsed = parse_all(&plan.to_parse, &added);
    let touched = builder.update_incremental(&mut graph, &plan, &parsed, &added).unwrap();
    assert!(touched >= 1);
    assert_eq!(touched, 1);
    let a = graph.get_file_id("/p/a.ts", &added).unwrap();
    let c = graph.get_file_id("/p/c.ts", &added).unwrap();
    assert_eq!(graph.get_dependencies(c), vec![a]);

    let current = builder.discover_files(&start.paths(), &start);
    let plan = builder.plan_update(&graph, &current, &start);
    assert_eq!(plan.deleted_files, vec!["/p/c.ts"]);
    assert_eq!(plan.stale, vec!["/p/c.ts"]);
    assert!(plan.to_parse.is_empty());
    let touched = builder.update_incremental(&mut graph, &plan, &vec![], &start).unwrap();
    assert_eq!(touched, 1);
    assert_eq!(graph.file_count(), 2);
    assert_eq!(graph.edge_count(), 0);
    assert!(!graph.contains_file("/p/c.ts", &start));
}

#[test]
fn a_modified_file_is_parsed_again() {
    let first = project(&[("/p/a.ts", "import './b';"), ("/p/b.ts", ""), ("/p/c.ts", "")], 1);
    let (builder, mut graph) = build(&first);
    assert_eq!(graph.edge_count(), 1);
    let mut second = project(&[("/p/b.ts", ""), ("/p/c.ts", "")], 1);
    second.insert(FileEntry {
        path: "/p/a.ts".to_string(),
        kind: EntryKind::File,
        canonical: "/p/a.ts".to_string(),
        modified_time: 2,
        content_hash: 0,
        content: Some("import './c';".to_string()),
    });
    let current = builder.discover_files(&second.paths(), &second);
    let plan = builder.plan_update(&graph, &current, &second);
    assert_eq!(plan.stale, vec!["/p/a.ts"]);
    assert_eq!(plan.to_parse, vec!["/p/a.ts"]);
    let parsed = parse_all(&plan.to_parse, &second);
    assert_eq!(builder.update_incremental(&mut graph, &plan, &parsed, &second).unwrap(), 1);
    let a = graph.get_file_id("/p/a.ts", &second).unwrap();
    let c = graph.get_file_id("/p/c.ts", &second).unwrap();
    assert_eq!(graph.get_dependencies(a), vec![c]);
    assert_eq!(graph.edge_count(), 1);
    assert_eq!(graph.get_file_node(a).unwrap().last_modified, 2);
}

#[test]
fn a_change_behind_a_barrel_reaches_the_test() {
    let tree = project(
        &[
            ("/p/lib/index.ts", "export * from './impl';"),
            ("/p/lib/impl.ts", "export const X = 1;"),
            ("/p/user.ts", "import { X } from './lib/index';"),
            ("/p/user.spec.ts", "import './user';"),
        ],
        1,
    );
    let (_, graph) = build(&tree);
    let finder = AffectedTestFinder::new(&graph);
    let result = finder.find_affected(&modified(&["/p/lib/impl.ts"]), &tree);
    assert_eq!(result.tests, vec!["/p/user.spec.ts"]);
    assert_eq!(result.sources, vec!["/p/lib/impl.ts", "/p/lib/index.ts", "/p/user.ts"]);
}

#[test]
fn a_change_behind_an_alias_reaches_the_importer() {
    let tree = project(
        &[
            ("/p/tsconfig.json", r#"{"compilerOptions": {"paths": {"@lib/*": ["src/lib/*"]}}}"#),
            ("/p/a.ts", "import { x } from '@lib/x';"),
            ("/p/src/lib/x.ts", "export const x = 1;"),
        ],
        1,
    );
    let (builder, graph) = build(&tree);
    assert_eq!(builder.resolver.config.paths.len(), 1);
    let finder = AffectedTestFinder::new(&graph);
    let result = finder.find_affected(&modified(&["/p/src/lib/x.ts"]), &tree);
    assert!(result.sources.contains(&"/p/a.ts".to_string()));
    assert_eq!(result.sources, vec!["/p/a.ts", "/p/src/lib/x.ts"]);
}

#[test]
fn a_file_that_cannot_be_parsed_is_a_leaf() {
    let tree = project(&[("/p/a.ts", "import { from ;;; (("), ("/p/b.ts", "import './a';")], 1);
    let (_, graph) = build(&tree);
    assert_eq!(graph.file_count(), 2);
    let a = graph.get_file_id("/p/a.ts", &tree).unwrap();
    let b = graph.get_file_id("/p/b.ts", &tree).unwrap();
    assert!(graph.get_dependencies(a).is_empty());
    assert_eq!(graph.get_dependencies(b), vec![a]);
}

#[test]
fn assembling_from_links() {
    let tree = FileTree::new();
    let files: Vec<ClassifiedFile> = ["/a", "/b", "/a", "/c"]
        .iter()
        .enumerate()
        .map(|(i, p)| ClassifiedFile { path: p.to_string(), is_test: i == 1 })
        .collect();
    let links = vec![
        ResolvedFile { path: "/a".to_string(), targets: vec!["/b".to_string(), "/x".to_string(), "/b".to_string()] },
        ResolvedFile { path: "/y".to_string(), targets: vec!["/a".to_string()] },
        ResolvedFile { path: "/c".to_string(), targets: vec!["/c".to_string(), "/a".to_string()] },
    ];
    let graph = assemble(&files, &links, &tree).unwrap();
    assert_eq!(graph.get_all_paths(), vec!["/a", "/b", "/c"]);
    assert_eq!(graph.get_test_files(), vec![1]);
    assert_eq!(graph.edge_count(), 3);
    assert_eq!(graph.get_dependencies(0), vec![1]);
    let mut from_c = graph.get_dependencies(2);
    from_c.sort();
    assert_eq!(from_c, vec![0, 2]);
    assert_eq!(BuildError::WalkError("w".to_string()).to_string(), "Failed to walk directory: w");
    assert_eq!(BuildError::GraphError("g".to_string()).to_string(), "Failed to build graph: g");
}

#[test]
fn the_steps_of_an_update() {
    let tree = FileTree::new();
    let mut graph = DependencyGraph::new();
    let classified = |paths: &[&str]| -> Vec<ClassifiedFile> {
        paths.iter().map(|p| ClassifiedFile { path: p.to_string(), is_test: false }).collect()
    };
    add_files(&mut graph, &classified(&["/a", "/b", "/c"]), &tree).unwrap();
    link(
        &mut graph,
        &vec![ResolvedFile { path: "/a".to_string(), targets: vec!["/b".to_string(), "/c".to_string()] }],
        &tree,
    )
    .unwrap();
    assert_eq!(graph.edge_count(), 2);
    refresh_files(&mut graph, &vec![ClassifiedFile { path: "/a".to_string(), is_test: true }], &tree);
    assert_eq!(graph.edge_count(), 0);
    assert!(graph.get_file_node(0).unwrap().is_test);
    remove_files(&mut graph, &vec!["/a".to_string(), "/zz".to_string()], &tree);
    assert_eq!(graph.file_count(), 2);
    assert_eq!(graph.get_file_id("/a", &tree), None);
    assert!(graph.get_file_id("/c", &tree).is_some());
}

fn paths_and_imports(graph: &DependencyGraph) -> (Vec<String>, Vec<(String, String)>) {
    let mut paths = graph.get_all_paths();
    paths.sort();
    let mut imports = Vec::new();
    for id in graph.get_all_files() {
        for to in graph.get_dependencies(id) {
            imports.push((
                graph.get_file_path(id).unwrap().to_string(),
                graph.get_file_path(to).unwrap().to_string(),
            ));
        }
    }
    imports.sort();
    (paths, imports)
}

#[test]
fn an_update_comes_to_the_graph_of_a_full_build() {
    let first = project(
        &[("/p/a.ts", "import './b';"), ("/p/b.ts", ""), ("/p/old.ts", "import './a';")],
        1,
    );
    let (builder, mut graph) = build(&first);
    // every remaining file is touched, one is deleted and one is added
    let second = project(
        &[("/p/a.ts", "import './c';"), ("/p/b.ts", "import './a';"), ("/p/c.ts", "import './b';")],
        2,
    );
    let current = builder.discover_files(&second.paths(), &second);
    let plan = builder.plan_update(&graph, &current, &second);
    assert_eq!(plan.deleted_files, vec!["/p/old.ts"]);
    assert_eq!(plan.to_parse, vec!["/p/a.ts", "/p/b.ts", "/p/c.ts"]);
    let parsed = parse_all(&plan.to_parse, &second);
    let touched = builder.update_incremental(&mut graph, &plan, &parsed, &second).unwrap();
    assert_eq!(touched, 4);
    let (_, rebuilt) = build(&second);
    assert_eq!(paths_and_imports(&graph), paths_and_imports(&rebuilt));
    assert_eq!(
        paths_and_imports(&graph).1,
        vec![
            ("/p/a.ts".to_string(), "/p/c.ts".to_string()),
            ("/p/b.ts".to_string(), "/p/a.ts".to_string()),
            ("/p/c.ts".to_string(), "/p/b.ts".to_string()),
        ]
    );
}

#[test]
fn an_import_of_an_untouched_file_is_not_resolved_again() {
    let first = project(&[("/p/a.ts", "import './late';")], 1);
    let (builder, mut graph) = build(&first);
    assert_eq!(graph.edge_count(), 0);
    let second = project(&[("/p/a.ts", "import './late';"), ("/p/late.ts", "")], 1);
    let current = builder.discover_files(&second.paths(), &second);
    let plan = builder.plan_update(&graph, &current, &second);
    assert_eq!(plan.to_parse, vec!["/p/late.ts"]);
    let parsed = parse_all(&plan.to_parse, &second);
    builder.update_incremental(&mut graph, &plan, &parsed, &second).unwrap();
    // the same files as a full build, but the edge from the untouched file is missing
    let (_, rebuilt) = build(&second);
    assert_eq!(paths_and_imports(&graph).0, paths_and_imports(&rebuilt).0);
    assert_eq!(graph.edge_count(), 0);
    assert_eq!(rebuilt.edge_count(), 1);
}
