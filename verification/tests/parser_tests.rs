use scopetest::parser::{
    extract_imports_from_program, Arg, Expr, ImportInfo, ImportType, ParseError, Stmt,
    VariableDeclarator, Binding,
};
use scopetest::syntax::{dialect_for, parse_file, parse_program, parse_source, Dialect};

fn parse_ts(source: &str) -> Vec<ImportInfo> {
    parse_source(source, "test.ts").unwrap()
}

fn pairs(imports: &[ImportInfo]) -> Vec<(&str, ImportType)> {
    imports.iter().map(|i| (i.source.as_str(), i.import_type)).collect()
}

#[test]
fn test_static_import() {
    let imports = parse_ts(r#"import { foo } from './foo';"#);
    assert_eq!(imports.len(), 1);
    assert_eq!(imports[0].source, "./foo");
    assert_eq!(imports[0].import_type, ImportType::StaticImport);
}

#[test]
fn test_default_import() {
    let imports = parse_ts(r#"import foo from './foo';"#);
    assert_eq!(imports.len(), 1);
    assert_eq!(imports[0].source, "./foo");
}

#[test]
fn test_namespace_import() {
    let imports = parse_ts(r#"import * as foo from './foo';"#);
    assert_eq!(imports.len(), 1);
    assert_eq!(imports[0].source, "./foo");
}

#[test]
fn test_dynamic_import() {
    let imports = parse_ts(r#"const foo = import('./foo');"#);
    assert_eq!(imports.len(), 1);
    assert_eq!(imports[0].source, "./foo");
    assert_eq!(imports[0].import_type, ImportType::DynamicImport);
}

#[test]
fn test_require() {
    let imports = parse_ts(r#"const foo = require('./foo');"#);
    assert_eq!(imports.len(), 1);
    assert_eq!(imports[0].source, "./foo");
    assert_eq!(imports[0].import_type, ImportType::Require);
}

#[test]
fn test_re_export_named() {
    let imports = parse_ts(r#"export { foo } from './foo';"#);
    assert_eq!(imports.len(), 1);
    assert_eq!(imports[0].source, "./foo");
    assert_eq!(imports[0].import_type, ImportType::ReExport);
}

#[test]
fn test_re_export_all() {
    let imports = parse_ts(r#"export * from './foo';"#);
    assert_eq!(imports.len(), 1);
    assert_eq!(imports[0].source, "./foo");
    assert_eq!(imports[0].import_type, ImportType::ReExport);
}

#[test]
fn test_multiple_imports() {
    let imports = parse_ts(
        r#"
            import { a } from './a';
            import b from './b';
            const c = require('./c');
            export * from './d';
        "#,
    );
    assert_eq!(imports.len(), 4);
}

#[test]
fn imports_come_in_source_order() {
    let imports = parse_ts(
        r#"
            import { a } from './a';
            const c = require('./c'), d = import('./d');
            export * from './e';
            await import('./f');
            load(...require('./g'), ...[require('./hidden')]);
            export { x } from './h';
            export { y };
            import('./' + name);
            require(name);
            other('./i');
        "#,
    );
    assert_eq!(
        pairs(&imports),
        vec![
            ("./a", ImportType::StaticImport),
            ("./c", ImportType::Require),
            ("./d", ImportType::DynamicImport),
            ("./e", ImportType::ReExport),
            ("./f", ImportType::DynamicImport),
            ("./g", ImportType::Require),
            ("./h", ImportType::ReExport),
        ]
    );
}

#[test]
fn typescript_only_syntax_gives_no_imports() {
    let imports = parse_ts(
        r#"
            type A = { a: number };
            interface B { b: string }
            enum C { One, Two }
            export type D = A | B;
            declare const e: number;
        "#,
    );
    assert!(imports.is_empty());
}

#[test]
fn snippets_of_the_import_grammar_give_an_import_each() {
    for name in ["a", "bc", "foo", "zzzzzz"] {
        let snippets = [
            format!("import {{ {} }} from './{}';", name, name),
            format!("import {} from './{}';", name, name),
            format!("export * from './{}';", name),
        ];
        for count in 1..=snippets.len() {
            let code = snippets[..count].join("\n");
            let imports = parse_ts(&code);
            assert_eq!(imports.len(), count);
            assert!(imports.iter().all(|i| i.source == format!("./{}", name)));
        }
    }
}

#[test]
fn the_extension_selects_the_dialect() {
    assert!(dialect_for("a.ts").typescript);
    assert!(!dialect_for("a.ts").jsx);
    assert!(dialect_for("a.tsx").jsx);
    assert!(!dialect_for("a.js").typescript);
    assert!(dialect_for("a.cjs").script);
    assert!(dialect_for("a.d.ts").definition);
    assert!(!dialect_for("a.unknown").typescript);
    let jsx = parse_source("const x = <div/>; import y from './y';", "view.jsx").unwrap();
    assert_eq!(pairs(&jsx), vec![("./y", ImportType::StaticImport)]);
    let typed = "const x: number = 1; import y from './y';";
    assert_eq!(parse_source(typed, "a.ts").unwrap().len(), 1);
}

#[test]
fn broken_text_is_a_syntax_error() {
    let broken = parse_source("import { from ;;; ((", "a.ts");
    match broken {
        Err(ParseError::SyntaxError(message)) => assert!(!message.is_empty()),
        other => panic!("expected a syntax error, got {:?}", other.map(|v| v.len())),
    }
    assert_eq!(
        ParseError::SyntaxError("x".to_string()).to_string(),
        "Failed to parse file: x"
    );
    assert_eq!(ParseError::IoError("y".to_string()).to_string(), "Failed to read file: y");
}

#[test]
fn programs_are_written_down_as_parsed() {
    let program = parse_program(
        "export const { a, b: [c, , d = 1] } = require('./x'); export default a; export = a;",
        dialect_for("a.ts"),
    )
    .unwrap();
    assert_eq!(program.len(), 3);
    match &program[0] {
        Stmt::ExportNamed { source: None, specifiers, declaration: Some(_) } => {
            assert!(specifiers.is_empty())
        }
        _ => panic!("expected an export with a declaration"),
    }
    assert!(matches!(program[1], Stmt::ExportDefault { identifier: true }));
    assert!(matches!(program[2], Stmt::TsExportAssignment));
    // an initializer of an exported declaration is no top-level initializer
    assert!(extract_imports_from_program(&program).is_empty());
}

#[test]
fn extraction_from_a_hand_written_program() {
    let call = |callee: &str, arguments: Vec<Arg>| Expr::Call {
        callee: Some(callee.to_string()),
        arguments,
    };
    let program = vec![
        Stmt::Import { source: "a".to_string() },
        Stmt::ExportNamed { source: None, specifiers: vec![], declaration: None },
        Stmt::ExportNamed { source: Some("b".to_string()), specifiers: vec![], declaration: None },
        Stmt::ExportAll { source: "c".to_string() },
        Stmt::Expr(Expr::Await(Box::new(Expr::Import(Some("d".to_string()))))),
        Stmt::Expr(Expr::Import(None)),
        Stmt::Variable(vec![
            VariableDeclarator { id: Binding::Identifier("x".to_string()), init: None },
            VariableDeclarator {
                id: Binding::Identifier("y".to_string()),
                init: Some(call(
                    "require",
                    vec![
                        Arg::StringLiteral("e".to_string()),
                        Arg::Spread(call("require", vec![Arg::StringLiteral("f".to_string())])),
                        Arg::Other,
                    ],
                )),
            },
        ]),
        Stmt::Expr(call("require", vec![Arg::Other, Arg::StringLiteral("no".to_string())])),
        Stmt::Expr(call("required", vec![Arg::StringLiteral("no".to_string())])),
        Stmt::Expr(Expr::Call { callee: None, arguments: vec![Arg::StringLiteral("no".to_string())] }),
        Stmt::Expr(call("require", vec![])),
        Stmt::Other,
    ];
    let imports = extract_imports_from_program(&program);
    assert_eq!(
        pairs(&imports),
        vec![
            ("a", ImportType::StaticImport),
            ("b", ImportType::ReExport),
            ("c", ImportType::ReExport),
            ("d", ImportType::DynamicImport),
            ("e", ImportType::Require),
            ("f", ImportType::Require),
        ]
    );
    assert_eq!(imports[0].clone().source, "a");
}

#[test]
fn every_known_extension_has_its_dialect() {
    let d = |typescript: bool, definition: bool, script: bool, jsx: bool| Dialect {
        typescript,
        definition,
        script,
        jsx,
    };
    assert_eq!(dialect_for("/p/a.js"), d(false, false, false, true));
    assert_eq!(dialect_for("/p/a.mjs"), d(false, false, false, true));
    assert_eq!(dialect_for("/p/a.jsx"), d(false, false, false, true));
    assert_eq!(dialect_for("/p/a.cjs"), d(false, false, true, true));
    assert_eq!(dialect_for("/p/a.ts"), d(true, false, false, false));
    assert_eq!(dialect_for("/p/a.mts"), d(true, false, false, false));
    assert_eq!(dialect_for("/p/a.cts"), d(true, false, true, false));
    assert_eq!(dialect_for("/p/a.tsx"), d(true, false, false, true));
    assert_eq!(dialect_for("/p/a.d.ts"), d(true, true, false, false));
    assert_eq!(dialect_for("/p/a.d.mts"), d(true, true, false, false));
    assert_eq!(dialect_for("/p/a.d.cts"), d(true, true, true, false));
    assert_eq!(dialect_for("/p/.d.ts"), d(true, true, false, false));
    assert_eq!(dialect_for("/p/d.ts"), d(true, false, false, false));
    assert_eq!(dialect_for("/p/a.d.tsx"), d(true, false, false, true));
}

#[test]
fn a_name_without_a_known_extension_is_a_plain_module() {
    let plain = Dialect { typescript: false, definition: false, script: false, jsx: false };
    assert_eq!(dialect_for("/p/a.css"), plain);
    assert_eq!(dialect_for("/p/a.TS"), plain);
    assert_eq!(dialect_for("/p/a"), plain);
    assert_eq!(dialect_for("/p/.ts"), plain);
    assert_eq!(dialect_for("/p/a."), plain);
    assert_eq!(dialect_for("/p.ts/a"), plain);
    assert_eq!(dialect_for("a..ts"), Dialect { typescript: true, ..plain });
}

#[test]
fn a_file_that_cannot_be_read_is_no_syntax_error() {
    match parse_file("/p/a.ts", Err("permission denied".to_string())) {
        Err(ParseError::IoError(why)) => assert_eq!(why, "permission denied"),
        _ => panic!("what could not be read cannot be parsed"),
    }
    let imports = parse_file("/p/a.ts", Ok("import x from './x';".to_string())).unwrap();
    assert_eq!(pairs(&imports), vec![("./x", ImportType::StaticImport)]);
    assert!(matches!(
        parse_file("/p/a.js", Ok("const y: number = 1;".to_string())),
        Err(ParseError::SyntaxError(_))
    ));
}
