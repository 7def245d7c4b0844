use scopetest::fs::{EntryKind, FileEntry, FileTree};
use scopetest::resolver::{Manifest, PathResolver, ProjectSettings, ResolveError, ResolverConfig};

fn entry(path: &str, kind: EntryKind, content: Option<&str>) -> FileEntry {
    FileEntry {
        path: path.to_string(),
        kind,
        canonical: path.to_string(),
        modified_time: 1,
        content_hash: 1,
        content: content.map(|c| c.to_string()),
    }
}

fn tree_of(files: &[&str], dirs: &[&str]) -> FileTree {
    let mut tree = FileTree::new();
    for dir in dirs {
        tree.insert(entry(dir, EntryKind::Directory, None));
    }
    for file in files {
        tree.insert(entry(file, EntryKind::File, Some("")));
    }
    tree
}

#[test]
fn test_resolve_relative_import() {
    let tree = tree_of(&["/tmp/p/src/foo.ts", "/tmp/p/src/bar.ts"], &["/tmp/p", "/tmp/p/src"]);

    let resolver = PathResolver::new("/tmp/p".to_string());
    let result = resolver.resolve("/tmp/p/src/bar.ts", "./foo", &tree);

    assert!(result.is_ok());
    assert!(result.unwrap().ends_with("foo.ts"));
}

#[test]
fn test_resolve_index_file() {
    let tree = tree_of(
        &["/tmp/p/src/utils/index.ts", "/tmp/p/src/main.ts"],
        &["/tmp/p", "/tmp/p/src", "/tmp/p/src/utils"],
    );

    let resolver = PathResolver::new("/tmp/p".to_string());
    let result = resolver.resolve("/tmp/p/src/main.ts", "./utils", &tree);

    assert!(result.is_ok());
    assert!(result.unwrap().ends_with("index.ts"));
}

#[test]
fn test_resolve_parent_dir_import() {
    let tree = tree_of(
        &["/tmp/p/src/Component/index.tsx", "/tmp/p/src/Component/__tests__/index.spec.tsx"],
        &["/tmp/p", "/tmp/p/src", "/tmp/p/src/Component", "/tmp/p/src/Component/__tests__"],
    );

    let resolver = PathResolver::new("/tmp/p".to_string());
    let result = resolver.resolve("/tmp/p/src/Component/__tests__/index.spec.tsx", "..", &tree);

    assert!(result.is_ok(), "Failed to resolve: {:?}", result);
    let resolved = result.unwrap();
    assert!(resolved.ends_with("index.tsx"), "Expected index.tsx, got {:?}", resolved);
    assert_eq!(resolved, "/tmp/p/src/Component/index.tsx");
}

#[test]
fn typescript_wins_over_javascript_and_files_over_directories() {
    let tree = tree_of(
        &["/p/a.js", "/p/a.ts", "/p/b.jsx", "/p/b/index.ts", "/p/c", "/p/c.ts", "/p/d/index.js", "/p/d/index.tsx"],
        &["/p", "/p/b", "/p/d"],
    );
    let resolver = PathResolver::new("/p".to_string());
    let from = "/p/main.ts";
    assert_eq!(resolver.resolve(from, "./a", &tree).unwrap(), "/p/a.ts");
    assert_eq!(resolver.resolve(from, "./a.js", &tree).unwrap(), "/p/a.js");
    assert_eq!(resolver.resolve(from, "./b", &tree).unwrap(), "/p/b.jsx");
    assert_eq!(resolver.resolve(from, "./c", &tree).unwrap(), "/p/c");
    assert_eq!(resolver.resolve(from, "./d", &tree).unwrap(), "/p/d/index.tsx");
    assert_eq!(resolver.resolve(from, "/p/x/../a", &tree).unwrap(), "/p/a.ts");
    assert_eq!(resolver.resolve(from, "./sub/../././a", &tree).unwrap(), "/p/a.ts");
    assert_eq!(
        resolver.candidates_of("/p/a"),
        vec![
            "/p/a.ts", "/p/a.tsx", "/p/a.js", "/p/a.jsx", "/p/a/index.ts", "/p/a/index.tsx",
            "/p/a/index.js", "/p/a/index.jsx"
        ]
    );
}

#[test]
fn an_extension_is_appended_and_does_not_replace() {
    let tree = tree_of(&["/p/button.ts", "/p/button.styles.ts"], &["/p"]);
    let resolver = PathResolver::new("/p".to_string());
    assert_eq!(resolver.resolve("/p/m.ts", "./button.styles", &tree).unwrap(), "/p/button.styles.ts");
    assert!(resolver.resolve("/p/m.ts", "./button.other", &tree).is_err());
}

#[test]
fn what_is_not_found_is_named() {
    let tree = tree_of(&["/p/a.ts"], &["/p"]);
    let resolver = PathResolver::new("/p".to_string());
    match resolver.resolve("/p/sub/m.ts", "../missing", &tree) {
        Err(ResolveError::NotFound(what)) => assert_eq!(what, "/p/missing"),
        other => panic!("unexpected {:?}", other),
    }
    match resolver.resolve("/p/m.ts", "react", &tree) {
        Err(ResolveError::NotFound(what)) => assert_eq!(what, "External module: react"),
        other => panic!("unexpected {:?}", other),
    }
    assert_eq!(
        ResolveError::NotFound("x".to_string()).to_string(),
        "Could not resolve import: x"
    );
    assert_eq!(
        ResolveError::ConfigError("y".to_string()).to_string(),
        "Failed to read tsconfig: y"
    );
}

#[test]
fn path_alias_from_the_project_configuration() {
    let mut tree = tree_of(&["/p/src/lib/x.ts", "/p/a.ts", "/p/alt/y.ts"], &["/p", "/p/src", "/p/src/lib"]);
    tree.insert(entry(
        "/p/tsconfig.json",
        EntryKind::File,
        Some(r#"{"compilerOptions": {"baseUrl": ".", "paths": {"@lib/*": ["missing/*", "src/lib/*"], "@alt/*": ["alt/*"], "bad": "no array", "mixed": [1, "alt/y"]}}}"#),
    ));
    let mut resolver = PathResolver::new("/p".to_string());
    assert!(resolver.load_tsconfig("/p/tsconfig.json", &tree).is_ok());
    assert_eq!(resolver.config.base_url.as_deref(), Some("/p/."));
    assert_eq!(resolver.config.paths.len(), 3);
    assert_eq!(resolver.resolve("/p/a.ts", "@lib/x", &tree).unwrap(), "/p/src/lib/x.ts");
    assert_eq!(resolver.resolve("/p/a.ts", "@alt/y", &tree).unwrap(), "/p/alt/y.ts");
    assert_eq!(resolver.resolve("/p/a.ts", "mixed", &tree).unwrap(), "/p/alt/y.ts");
    assert!(resolver.resolve("/p/a.ts", "@lib/none", &tree).is_err());
    assert_eq!(resolver.resolve_alias("@lib/x", &tree).unwrap(), "/p/src/lib/x.ts");
    assert_eq!(resolver.resolve_alias("lib/x", &tree), None);
}

#[test]
fn a_configuration_that_cannot_be_read_changes_nothing() {
    let mut tree = tree_of(&[], &["/p"]);
    tree.insert(entry("/p/broken.json", EntryKind::File, Some("{ not json")));
    tree.insert(entry("/p/unread.json", EntryKind::File, None));
    let mut resolver = PathResolver::new("/p".to_string());
    resolver.set_alias("@a/*".to_string(), vec!["a/*".to_string()]);
    for path in ["/p/broken.json", "/p/unread.json", "/p/absent.json"] {
        match resolver.load_tsconfig(path, &tree) {
            Err(ResolveError::ConfigError(_)) => {}
            other => panic!("unexpected {:?}", other),
        }
        assert_eq!(resolver.config.paths, vec![("@a/*".to_string(), vec!["a/*".to_string()])]);
        assert_eq!(resolver.config.base_url, None);
    }
    tree.insert(entry("/p/empty.json", EntryKind::File, Some("{}")));
    assert!(resolver.load_tsconfig("/p/empty.json", &tree).is_ok());
    assert_eq!(resolver.config.paths.len(), 1);
}

#[test]
fn aliases_are_set_in_order_and_replaced_in_place() {
    let mut resolver = PathResolver::new("/p".to_string());
    resolver.apply_tsconfig(
        "/p/conf/tsconfig.json",
        ProjectSettings {
            base_url: Some("src".to_string()),
            paths: vec![
                ("a".to_string(), vec!["1".to_string()]),
                ("b".to_string(), vec!["2".to_string()]),
                ("a".to_string(), vec!["3".to_string()]),
            ],
        },
    );
    assert_eq!(resolver.config.base_url.as_deref(), Some("/p/conf/src"));
    assert_eq!(
        resolver.config.paths,
        vec![("a".to_string(), vec!["3".to_string()]), ("b".to_string(), vec!["2".to_string()])]
    );
    let settings = PathResolver::read_tsconfig(r#"{"compilerOptions": {"baseUrl": "./x"}}"#).unwrap();
    assert_eq!(settings.base_url.as_deref(), Some("./x"));
    assert!(settings.paths.is_empty());
    assert!(PathResolver::read_tsconfig("[").is_none());
    assert!(ResolverConfig::default().extensions.is_empty());
}

#[test]
fn package_names_and_subpaths() {
    let resolver = PathResolver::new("/p".to_string());
    let parse = |s: &str| resolver.parse_package_import(s);
    assert_eq!(parse("lodash"), ("lodash".to_string(), "".to_string()));
    assert_eq!(parse("lodash/fp/get"), ("lodash".to_string(), "fp/get".to_string()));
    assert_eq!(parse("@scope/pkg"), ("@scope/pkg".to_string(), "".to_string()));
    assert_eq!(parse("@scope/pkg/deep/er"), ("@scope/pkg".to_string(), "deep/er".to_string()));
    assert_eq!(parse("@scope"), ("@scope".to_string(), "".to_string()));
    assert_eq!(parse("pkg/"), ("pkg".to_string(), "".to_string()));
    assert_eq!(parse(""), ("".to_string(), "".to_string()));
    assert_eq!(resolver.normalize_path("/a/./b/../c//d/"), "/a/c/d");
    assert_eq!(resolver.normalize_path("../a"), "a");
    assert_eq!(resolver.normalize_path("a/../.."), "");
}

fn workspace() -> FileTree {
    let mut tree = tree_of(
        &[
            "/p/node_modules/plain/index.js",
            "/p/node_modules/@s/ui/lib/main.ts",
            "/p/node_modules/@s/ui/src/index.ts",
            "/p/node_modules/@s/ui/button.tsx",
            "/p/node_modules/srcy/src/index.ts",
            "/outside/esc/index.ts",
        ],
        &["/p", "/p/node_modules", "/p/node_modules/plain", "/p/node_modules/@s/ui", "/p/node_modules/srcy", "/outside/esc"],
    );
    tree.insert(entry(
        "/p/node_modules/@s/ui/package.json",
        EntryKind::File,
        Some(r#"{"source": "nowhere.ts", "main": "lib/main", "module": 3, "types": "src/index.ts"}"#),
    ));
    tree.insert(entry("/p/node_modules/srcy/package.json", EntryKind::File, Some("{}")));
    tree.insert(entry("/p/node_modules/bare", EntryKind::Directory, None));
    tree.insert(entry("/p/node_modules/bare/src/index.ts", EntryKind::File, Some("")));
    let mut link = entry("/p/node_modules/esc", EntryKind::Directory, None);
    link.canonical = "/outside/esc".to_string();
    tree.insert(link);
    tree
}

#[test]
fn workspace_packages_resolve_through_their_manifest() {
    let tree = workspace();
    let resolver = PathResolver::new("/p".to_string());
    assert_eq!(resolver.resolve("/p/a.ts", "plain", &tree).unwrap(), "/p/node_modules/plain/index.js");
    assert_eq!(resolver.resolve("/p/a.ts", "@s/ui", &tree).unwrap(), "/p/node_modules/@s/ui/lib/main.ts");
    assert_eq!(resolver.resolve("/p/a.ts", "@s/ui/button", &tree).unwrap(), "/p/node_modules/@s/ui/button.tsx");
    assert_eq!(resolver.resolve("/p/a.ts", "srcy", &tree).unwrap(), "/p/node_modules/srcy/src/index.ts");
    // without a manifest the directory of the package itself is resolved
    assert!(resolver.resolve("/p/a.ts", "bare", &tree).is_err());
    assert!(resolver.resolve("/p/a.ts", "esc", &tree).is_err());
    assert!(resolver.resolve("/p/a.ts", "absent", &tree).is_err());
    assert_eq!(
        resolver.resolve_workspace_package("plain", &tree).unwrap(),
        "/p/node_modules/plain/index.js"
    );
}

#[test]
fn the_fields_of_a_manifest_count_in_their_order() {
    let tree = workspace();
    let resolver = PathResolver::new("/p".to_string());
    let package = "/p/node_modules/@s/ui";
    let fields = |list: [Option<&str>; 4]| list.iter().map(|f| f.map(|s| s.to_string())).collect::<Vec<_>>();
    assert_eq!(
        resolver.package_entry_from_fields(package, &fields([None, Some("lib/main"), None, Some("button")]), &tree),
        "/p/node_modules/@s/ui/lib/main"
    );
    assert_eq!(
        resolver.package_entry_from_fields(package, &fields([Some("gone"), None, None, Some("button")]), &tree),
        "/p/node_modules/@s/ui/button"
    );
    assert_eq!(
        resolver.package_entry_from_fields(package, &fields([None, None, None, None]), &tree),
        "/p/node_modules/@s/ui/src/index"
    );
    assert_eq!(
        resolver.package_entry_from_fields("/p/node_modules/plain", &fields([None, None, None, None]), &tree),
        "/p/node_modules/plain/index"
    );
    match PathResolver::read_manifest(r#"{"main": "m.js", "types": 1}"#) {
        Manifest::Fields(read) => assert_eq!(read, fields([None, Some("m.js"), None, None])),
        Manifest::Unreadable => panic!("readable"),
    }
    assert!(matches!(PathResolver::read_manifest("nope"), Manifest::Unreadable));
    let unreadable = resolver.resolve_given("/p/a.ts", "@s/ui", &Manifest::Unreadable, &tree);
    assert!(unreadable.is_err());
    let read = Manifest::Fields(fields([None, None, None, Some("button")]));
    assert_eq!(
        resolver.resolve_given("/p/a.ts", "@s/ui", &read, &tree).unwrap(),
        "/p/node_modules/@s/ui/button.tsx"
    );
    assert_eq!(
        resolver.resolve_in_workspace("@s/ui/lib/main", &Manifest::Unreadable, &tree).unwrap(),
        "/p/node_modules/@s/ui/lib/main.ts"
    );
}

#[test]
fn resolving_a_result_again_gives_the_same_path() {
    let tree = workspace();
    let resolver = PathResolver::new("/p".to_string());
    for specifier in ["plain", "@s/ui", "@s/ui/button", "./node_modules/plain"] {
        let first = resolver.resolve("/p/a.ts", specifier, &tree).unwrap();
        assert_eq!(resolver.resolve("/p/other/b.ts", &first, &tree).unwrap(), first);
    }
}

#[test]
fn an_alias_that_finds_nothing_gives_way_to_the_package() {
    let mut tree = workspace();
    tree.insert(entry("/p/local/plain.ts", EntryKind::File, Some("")));
    let mut resolver = PathResolver::new("/p".to_string());
    resolver.set_alias("plain".to_string(), vec!["nowhere/plain".to_string()]);
    assert_eq!(resolver.resolve("/p/a.ts", "plain", &tree).unwrap(), "/p/node_modules/plain/index.js");
    resolver.set_alias("plain".to_string(), vec!["nowhere/plain".to_string(), "local/plain".to_string()]);
    assert_eq!(resolver.resolve("/p/a.ts", "plain", &tree).unwrap(), "/p/local/plain.ts");
    // a relative specifier is never looked up among aliases or packages
    resolver.set_alias("./".to_string(), vec!["local/".to_string()]);
    assert!(resolver.resolve("/p/a.ts", "./plain", &tree).is_err());
}

#[test]
fn a_directory_that_is_found_is_not_found_again_as_itself() {
    let tree = tree_of(&["/p/x.ts", "/p/a.ts.ts"], &["/p/a.ts"]);
    let resolver = PathResolver::new("/p".to_string());
    let first = resolver.resolve("/p/x.ts", "./a", &tree).unwrap();
    assert_eq!(first, "/p/a.ts");
    assert_eq!(resolver.resolve("/p/x.ts", &first, &tree).unwrap(), "/p/a.ts.ts");
}
