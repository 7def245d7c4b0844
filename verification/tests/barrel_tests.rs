use scopetest::barrel::{
    collect_exports, get_declaration_names, is_pure_barrel, resolve_path, BarrelAnalyzer,
    BarrelCache, ExportSource, ExportTable,
};
use scopetest::fs::{EntryKind, FileEntry, FileTree};
use scopetest::parser::{Binding, Decl, Stmt, VariableDeclarator};
use scopetest::syntax::{dialect_for, parse_program, Programs};

fn project(files: &[(&str, &str)]) -> FileTree {
    let mut tree = FileTree::new();
    for (path, text) in files {
        tree.insert(FileEntry {
            path: path.to_string(),
            kind: EntryKind::File,
            canonical: path.to_string(),
            modified_time: 0,
            content_hash: 0,
            content: Some(text.to_string()),
        });
    }
    tree
}

fn program(text: &str) -> Vec<Stmt> {
    parse_program(text, dialect_for("index.ts")).unwrap()
}

fn rows(table: &ExportTable) -> Vec<(String, String, Option<String>)> {
    (0..table.len())
        .map(|i| {
            let entry = table.entry(i);
            (entry.name.clone(), entry.source.source_path.clone(), entry.source.original_name.clone())
        })
        .collect()
}

fn row(name: &str, path: &str, original: Option<&str>) -> (String, String, Option<String>) {
    (name.to_string(), path.to_string(), original.map(|o| o.to_string()))
}

#[test]
fn what_makes_a_barrel() {
    assert!(is_pure_barrel(&program("export * from './a';")));
    assert!(is_pure_barrel(&program("import x from './x'; export { a as b } from './a'; export { x }; export default x;")));
    assert!(!is_pure_barrel(&program("import x from './x'; export { x };")));
    assert!(!is_pure_barrel(&program("export * from './a'; export const y = 1;")));
    assert!(!is_pure_barrel(&program("export * from './a'; export default 3;")));
    assert!(!is_pure_barrel(&program("export * from './a'; function f() {}")));
    assert!(!is_pure_barrel(&program("export * from './a'; const z = 1;")));
    assert!(!is_pure_barrel(&program("")));
    assert!(is_pure_barrel(&vec![
        Stmt::TsExportAssignment,
        Stmt::TsNamespaceExport,
        Stmt::ExportAll { source: "./a".to_string() },
    ]));
    assert!(!is_pure_barrel(&vec![Stmt::ExportAll { source: "./a".to_string() }, Stmt::Other]));
}

#[test]
fn names_of_declarations() {
    let names = |text: &str| match &program(text)[0] {
        Stmt::ExportNamed { declaration: Some(d), .. } => get_declaration_names(d),
        _ => panic!("no declaration"),
    };
    assert_eq!(names("export const a = 1, { b, c: [d, , e = 2], ...f } = x;"), vec!["a", "b", "d", "e"]);
    assert_eq!(names("export function g() {}"), vec!["g"]);
    assert_eq!(names("export class H {}"), vec!["H"]);
    assert_eq!(names("export type T = number;"), vec!["T"]);
    assert_eq!(names("export interface I {}"), vec!["I"]);
    assert_eq!(names("export enum E { A }"), vec!["E"]);
    assert!(get_declaration_names(&Decl::Other).is_empty());
    assert!(get_declaration_names(&Decl::Function(None)).is_empty());
    let nested = Decl::Variable(vec![VariableDeclarator {
        id: Binding::Array(vec![
            None,
            Some(Binding::Assignment(Box::new(Binding::Object(vec![
                Binding::Identifier("x".to_string()),
                Binding::Identifier("y".to_string()),
            ])))),
        ]),
        init: None,
    }]);
    assert_eq!(get_declaration_names(&nested), vec!["x", "y"]);
}

#[test]
fn targets_of_a_barrel() {
    let tree = project(&[("/p/lib/a.ts", ""), ("/p/lib/b/index.js", ""), ("/p/lib/c.jsx", ""), ("/p/lib/c.js", "")]);
    assert_eq!(resolve_path("/p/lib", "./a", &tree), "/p/lib/a.ts");
    assert_eq!(resolve_path("/p/lib", "./b", &tree), "/p/lib/b/index.js");
    assert_eq!(resolve_path("/p/lib", "./c", &tree), "/p/lib/c.js");
    assert_eq!(resolve_path("/p/lib/sub", "../a", &tree), "/p/lib/a.ts");
    assert_eq!(resolve_path("/p/lib", "./none", &tree), "/p/lib/none");
    assert_eq!(resolve_path("/p/lib", "react", &tree), "react");
}

#[test]
fn exports_of_a_program() {
    let tree = project(&[("/p/a.ts", ""), ("/p/b.ts", "")]);
    let mut nested = ExportTable::new();
    nested.insert("n".to_string(), ExportSource { source_path: "/p/deep.ts".to_string(), original_name: None });
    nested.insert("a".to_string(), ExportSource { source_path: "/p/deep.ts".to_string(), original_name: None });
    let text = "export { a, x as y } from './a'; export * from './b'; export * from './c'; export const own = 1; export default a; export { a as a2 } from 'pkg';";
    let table = collect_exports(&program(text), "/p/index.ts", &tree, &vec![nested]);
    assert_eq!(
        rows(&table),
        vec![
            row("a", "/p/deep.ts", None),
            row("y", "/p/a.ts", Some("x")),
            row("n", "/p/deep.ts", None),
            row("own", "/p/index.ts", None),
            row("default", "/p/index.ts", None),
            row("a2", "pkg", Some("a")),
        ]
    );
    assert_eq!(table.get("y").unwrap().source_path, "/p/a.ts");
    assert!(table.get("zz").is_none());
    assert_eq!(rows(&table.clone()), rows(&table));
}

#[test]
fn barrels_are_followed_and_cycles_end() {
    let tree = project(&[
        ("/p/index.ts", "export * from './lib'; export { top } from './top';"),
        ("/p/lib/index.ts", "export * from './impl'; export * from '../index';"),
        ("/p/lib/impl.ts", "export const X = 1; export function f() {}"),
        ("/p/top.ts", "export const top = 1;"),
        ("/p/plain/index.ts", "export const value = 1;"),
        ("/p/broken/index.ts", "export { from ;;; (("),
    ]);
    let programs = Programs::read(&tree);
    let mut analyzer = BarrelAnalyzer::new("/p".to_string());
    assert!(analyzer.is_barrel_file("/p/index.ts", &programs));
    assert!(!analyzer.is_barrel_file("/p/top.ts", &programs));
    assert!(!analyzer.is_barrel_file("/p/plain/index.ts", &programs));
    assert!(!analyzer.is_barrel_file("/p/broken/index.ts", &programs));
    assert!(!analyzer.is_barrel_file("/p/absent/index.ts", &programs));

    assert!(analyzer.get_cached_exports("/p/index.ts", &tree).is_none());
    assert!(analyzer.check_and_cache_barrel("/p/index.ts", &programs, &tree));
    assert!(analyzer.check_and_cache_barrel("/p/index.ts", &programs, &tree));
    assert!(!analyzer.check_and_cache_barrel("/p/plain/index.ts", &programs, &tree));
    assert!(analyzer.cache.is_known_non_barrel("/p/plain/index.ts"));
    assert!(analyzer.cache.is_barrel("/p/index.ts"));
    let cached = analyzer.get_cached_exports("/p/index.ts", &tree).unwrap();
    assert_eq!(
        rows(cached),
        vec![row("X", "/p/lib/impl.ts", None), row("f", "/p/lib/impl.ts", None), row("top", "/p/top.ts", None)]
    );
    let origins = analyzer.resolve_barrel_imports(
        "/p/index.ts",
        &vec!["f".to_string(), "unknown".to_string(), "top".to_string()],
        &programs,
        &tree,
    );
    assert_eq!(
        origins,
        vec![("f".to_string(), "/p/lib/impl.ts".to_string()), ("top".to_string(), "/p/top.ts".to_string())]
    );
    assert_eq!(rows(&analyzer.analyze_barrel("/p/lib/index.ts", &programs, &tree)).len(), 3);
    assert!(analyzer.analyze_barrel("/p/absent.ts", &programs, &tree).is_empty());
    let mut visiting = Vec::new();
    let shallow = analyzer.analyze_barrel_uncached("/p/index.ts", &programs, &tree, 0, &mut visiting);
    assert_eq!(rows(&shallow), vec![row("top", "/p/top.ts", None)]);
}

#[test]
fn finding_barrels() {
    let tree = project(&[
        ("/p/index.ts", "export * from './a';"),
        ("/p/a.ts", ""),
        ("/p/lib/index.js", "export { x } from './x';"),
        ("/p/lib/other.ts", "export * from './x';"),
        ("/p/node_modules/m/index.ts", "export * from './a';"),
        ("/p/.hidden/index.ts", "export * from './a';"),
        ("/p/lib/.cache/index.ts", "export * from './a';"),
        ("/p/plain/index.ts", "export const v = 1;"),
        ("/q/index.ts", "export * from './a';"),
    ]);
    let programs = Programs::read(&tree);
    let analyzer = BarrelAnalyzer::new("/p".to_string());
    assert_eq!(analyzer.find_barrels("/p", &programs, &tree), vec!["/p/index.ts", "/p/lib/index.js"]);
    assert_eq!(analyzer.find_barrels("/p/lib/", &programs, &tree), vec!["/p/lib/index.js"]);
    assert!(analyzer.find_barrels("/nowhere", &programs, &tree).is_empty());
}

#[test]
fn the_cache_keeps_what_it_is_told() {
    let mut cache = BarrelCache::new();
    assert!(!cache.is_barrel("/a"));
    assert!(cache.get("/a").is_none());
    let mut table = ExportTable::new();
    assert!(table.is_empty());
    table.insert("x".to_string(), ExportSource { source_path: "/one".to_string(), original_name: None });
    table.insert("x".to_string(), ExportSource { source_path: "/two".to_string(), original_name: None });
    assert_eq!(table.len(), 1);
    cache.insert("/a".to_string(), table);
    assert!(cache.is_barrel("/a"));
    assert_eq!(cache.get("/a").unwrap().get("x").unwrap().source_path, "/two");
    cache.mark_non_barrel("/b".to_string());
    cache.mark_non_barrel("/b".to_string());
    assert!(cache.is_known_non_barrel("/b"));
    assert!(!cache.is_known_non_barrel("/a"));
}

#[test]
fn only_the_exact_directory_names_are_passed_over() {
    let tree = project(&[
        ("/p/my_node_modules/index.ts", "export * from './a';"),
        ("/p/node_modules_old/index.ts", "export * from './a';"),
        ("/p/a.b/index.ts", "export * from './a';"),
        ("/p/lib/node_modules/m/index.ts", "export * from './a';"),
        ("/p/lib/.git/index.ts", "export * from './a';"),
    ]);
    let programs = Programs::read(&tree);
    let analyzer = BarrelAnalyzer::new("/p".to_string());
    assert_eq!(
        analyzer.find_barrels("/p", &programs, &tree),
        vec!["/p/my_node_modules/index.ts", "/p/node_modules_old/index.ts", "/p/a.b/index.ts"]
    );
}

#[test]
fn programs_are_kept_for_the_files_that_parse() {
    let tree = project(&[
        ("/p/a.ts", "import x from './x'; const y: number = 1;"),
        ("/p/a.js", "const y: number = 1;"),
        ("/p/broken.ts", "export { from ;;; (("),
        ("/p/empty.ts", ""),
    ]);
    let mut programs = Programs::read(&tree);
    assert_eq!(programs.get("/p/a.ts").unwrap().len(), 2);
    assert!(programs.get("/p/a.js").is_none());
    assert!(programs.get("/p/broken.ts").is_none());
    assert!(programs.get("/p/empty.ts").unwrap().is_empty());
    assert!(programs.get("/p/absent.ts").is_none());
    programs.insert("/p/absent.ts".to_string(), vec![Stmt::Other]);
    assert_eq!(programs.get("/p/absent.ts").unwrap().len(), 1);
    assert!(Programs::new().get("/p/a.ts").is_none());
}

#[test]
fn a_module_is_followed_once_on_each_way() {
    let tree = project(&[
        ("/p/index.ts", "export * from './left'; export * from './right';"),
        ("/p/left.ts", "export * from './base'; export const l = 1;"),
        ("/p/right.ts", "export * from './base'; export const r = 1;"),
        ("/p/base.ts", "export const b = 1; export * from './index';"),
    ]);
    let programs = Programs::read(&tree);
    let analyzer = BarrelAnalyzer::new("/p".to_string());
    let mut visiting = Vec::new();
    let deep = analyzer.analyze_barrel_uncached("/p/index.ts", &programs, &tree, 4, &mut visiting);
    assert!(visiting.is_empty());
    assert_eq!(
        rows(&deep),
        vec![row("b", "/p/base.ts", None), row("l", "/p/left.ts", None), row("r", "/p/right.ts", None)]
    );
    let one = analyzer.analyze_barrel_uncached("/p/index.ts", &programs, &tree, 1, &mut visiting);
    assert_eq!(rows(&one), vec![row("l", "/p/left.ts", None), row("r", "/p/right.ts", None)]);
    let mut inside = vec!["/p/left.ts".to_string()];
    let cut = analyzer.analyze_barrel_uncached("/p/index.ts", &programs, &tree, 4, &mut inside);
    assert_eq!(inside, vec!["/p/left.ts".to_string()]);
    assert_eq!(rows(&cut), vec![row("b", "/p/base.ts", None), row("r", "/p/right.ts", None)]);
}
