use scopetest::output::{CoverageThreshold, OutputFormat, OutputFormatter};

#[test]
fn test_jest_pattern_empty() {
    let pattern = OutputFormatter::format_jest_pattern(&[]);
    assert_eq!(pattern, "^$");
}

#[test]
fn test_jest_pattern_single() {
    let tests = vec!["/src/foo.spec.ts".to_string()];
    let pattern = OutputFormatter::format_jest_pattern(&tests);
    assert_eq!(pattern, "foo\\.spec\\.ts");
}

#[test]
fn test_jest_pattern_multiple() {
    let tests = vec!["/src/foo.spec.ts".to_string(), "/src/bar.test.ts".to_string()];
    let pattern = OutputFormatter::format_jest_pattern(&tests);
    assert!(pattern.contains("foo\\.spec\\.ts"));
    assert!(pattern.contains("bar\\.test\\.ts"));
    assert!(pattern.contains("|"));
}

#[test]
fn test_format_list() {
    let files = vec!["/src/a.ts".to_string(), "/src/b.ts".to_string()];
    let list = OutputFormatter::format_list(&files);
    assert!(list.contains("/src/a.ts"));
    assert!(list.contains("/src/b.ts"));
}

#[test]
fn test_jest_escaping() {
    let tests = vec!["/src/[1].spec.ts".to_string(), "/src/(2).spec.ts".to_string()];
    let pattern = OutputFormatter::format_jest_pattern(&tests);
    assert!(regex::Regex::new(&pattern).is_ok());
}

#[test]
fn test_list_format() {
    let files = vec!["/a.ts".to_string(), "/b.ts".to_string()];
    assert_eq!(OutputFormatter::format_list(&files).lines().count(), 2);
}

#[test]
fn every_meta_character_is_escaped() {
    let tests = vec!["/d/a\\.+*?()|[]{}^$#&-~b%!".to_string()];
    let pattern = OutputFormatter::format_jest_pattern(&tests);
    assert_eq!(pattern, "a\\\\\\.\\+\\*\\?\\(\\)\\|\\[\\]\\{\\}\\^\\$\\#\\&\\-\\~b%!");
}

#[test]
fn paths_without_a_file_name_are_passed_over() {
    let tests = vec!["/src/".to_string(), "/src/a.ts".to_string(), "..".to_string()];
    assert_eq!(OutputFormatter::format_jest_pattern(&tests), "a\\.ts");
    assert_eq!(OutputFormatter::format_jest_pattern(&["/".to_string()]), "");
    assert_eq!(OutputFormatter::pattern_of_names(0, &vec!["x".to_string()]), "^$");
    assert_eq!(OutputFormatter::pattern_of_names(2, &vec!["x".to_string(), "y".to_string()]), "x|y");
}

#[test]
fn lists_are_joined_exactly() {
    let files = vec!["/a.ts".to_string(), "/b.ts".to_string(), "/c.ts".to_string()];
    assert_eq!(OutputFormatter::format_list(&files), "/a.ts\n/b.ts\n/c.ts");
    assert_eq!(OutputFormatter::format_coverage_from(&files), "/a.ts,/b.ts,/c.ts");
    assert_eq!(OutputFormatter::format_list(&vec![]), "");
    assert_eq!(OutputFormatter::format_coverage_from(&vec!["x".to_string()]), "x");
}

#[test]
fn formats_are_read_without_regard_to_case() {
    assert_eq!(OutputFormat::parse("jest"), Ok(OutputFormat::Jest));
    assert_eq!(OutputFormat::parse("JSON"), Ok(OutputFormat::Json));
    assert_eq!("List".parse::<OutputFormat>(), Ok(OutputFormat::List));
    assert_eq!(OutputFormat::parse("coVerage"), Ok(OutputFormat::Coverage));
    assert_eq!(OutputFormat::parse("xml"), Err("Unknown format: xml".to_string()));
    assert_eq!(OutputFormat::parse(""), Err("Unknown format: ".to_string()));
    assert_eq!(OutputFormat::parse("jest "), Err("Unknown format: jest ".to_string()));
}

#[test]
fn stats_count_the_lists() {
    let output = OutputFormatter::json_output(
        vec!["t".to_string()],
        vec!["a".to_string(), "b".to_string()],
        100,
        500,
    );
    assert_eq!(output.stats.total_tests, 100);
    assert_eq!(output.stats.affected_tests, 1);
    assert_eq!(output.stats.total_sources, 500);
    assert_eq!(output.stats.affected_sources, 2);
    assert_eq!(output.tests, vec!["t"]);
    let threshold = CoverageThreshold::default();
    assert_eq!(
        (threshold.branches, threshold.lines, threshold.functions, threshold.statements),
        (80, 80, 80, 80)
    );
}

#[test]
fn test_empty_json() {
    let json = OutputFormatter::format_json(&[], &[], 100, 500);
    let v: serde_json::Value = serde_json::from_str(&json).unwrap();
    assert_eq!(v["stats"]["affected_tests"], 0);
}

#[test]
fn the_json_document_is_laid_out_line_by_line() {
    let tests = vec!["/t1.spec.ts".to_string(), "/t 2.spec.ts".to_string()];
    let sources = vec!["/a \"quoted\"\\path\n.ts".to_string()];
    let json = OutputFormatter::format_json(&tests, &sources, 12, 345);
    let expected = "{\n  \"tests\": [\n    \"/t1.spec.ts\",\n    \"/t 2.spec.ts\"\n  ],\n  \"sources\": [\n    \"/a \\\"quoted\\\"\\\\path\\n.ts\"\n  ],\n  \"stats\": {\n    \"total_tests\": 12,\n    \"affected_tests\": 2,\n    \"total_sources\": 345,\n    \"affected_sources\": 1\n  }\n}";
    assert_eq!(json, expected);
    let empty = OutputFormatter::format_json(&[], &[], 0, 0);
    assert_eq!(
        empty,
        "{\n  \"tests\": [],\n  \"sources\": [],\n  \"stats\": {\n    \"total_tests\": 0,\n    \"affected_tests\": 0,\n    \"total_sources\": 0,\n    \"affected_sources\": 0\n  }\n}"
    );
}

#[test]
fn every_json_document_can_be_parsed() {
    for n in 0usize..5 {
        let tests: Vec<String> = (0..n).map(|i| format!("/t{}.spec.ts", i)).collect();
        let json = OutputFormatter::format_json(&tests, &[], n + 5, 10);
        let v: serde_json::Value = serde_json::from_str(&json).unwrap();
        assert_eq!(v["tests"].as_array().unwrap().len(), n);
        assert_eq!(v["stats"]["total_tests"], n + 5);
        assert_eq!(v["stats"]["total_sources"], 10);
    }
    let odd = vec!["tab\there".to_string(), "uni\u{2192}code \u{1}".to_string(), "".to_string()];
    let json = OutputFormatter::format_json(&odd, &odd, usize::MAX, 7);
    let v: serde_json::Value = serde_json::from_str(&json).unwrap();
    assert_eq!(v["sources"][0], "tab\there");
    assert_eq!(v["sources"][1], "uni\u{2192}code \u{1}");
    assert_eq!(v["sources"][2], "");
    assert_eq!(v["stats"]["total_tests"], usize::MAX);
    assert_eq!(v["stats"]["affected_sources"], 3);
}

#[test]
fn coverage_thresholds_for_each_source_once() {
    let sources = vec!["/a.ts".to_string(), "/b.ts".to_string(), "/a.ts".to_string()];
    let text = OutputFormatter::format_coverage_threshold(&sources, CoverageThreshold::default());
    let expected = "{\n  \"coverageThreshold\": {\n    \"/a.ts\": {\n      \"branches\": 80,\n      \"lines\": 80,\n      \"functions\": 80,\n      \"statements\": 80\n    },\n    \"/b.ts\": {\n      \"branches\": 80,\n      \"lines\": 80,\n      \"functions\": 80,\n      \"statements\": 80\n    }\n  }\n}";
    assert_eq!(text, expected);
    let v: serde_json::Value = serde_json::from_str(&text).unwrap();
    assert_eq!(v["coverageThreshold"]["/b.ts"]["lines"], 80);
    let custom = CoverageThreshold { branches: 0, lines: 100, functions: 255, statements: 9 };
    let one = OutputFormatter::format_coverage_threshold(&["x".to_string()], custom);
    let v: serde_json::Value = serde_json::from_str(&one).unwrap();
    assert_eq!(v["coverageThreshold"]["x"]["branches"], 0);
    assert_eq!(v["coverageThreshold"]["x"]["lines"], 100);
    assert_eq!(v["coverageThreshold"]["x"]["functions"], 255);
    assert_eq!(v["coverageThreshold"]["x"]["statements"], 9);
    let none = OutputFormatter::format_coverage_threshold(&[], CoverageThreshold::default());
    assert_eq!(none, "{\n  \"coverageThreshold\": {}\n}");
    assert_eq!(OutputFormatter::distinct_sources(&sources), vec!["/a.ts", "/b.ts"]);
}

#[test]
fn every_character_is_written_as_json_asks() {
    let path = "a\"b\\c/d\u{8}\t\n\u{c}\r\u{0}\u{1}\u{1f}\u{7f} \u{e9}\u{4e16}".to_string();
    let text = OutputFormatter::format_json(&[path.clone()], &[], 1, 0);
    let literal = "\"a\\\"b\\\\c/d\\b\\t\\n\\f\\r\\u0000\\u0001\\u001f\u{7f} \u{e9}\u{4e16}\"";
    let expected = format!(
        "{{\n  \"tests\": [\n    {}\n  ],\n  \"sources\": [],\n  \"stats\": {{\n    \"total_tests\": 1,\n    \"affected_tests\": 1,\n    \"total_sources\": 0,\n    \"affected_sources\": 0\n  }}\n}}",
        literal
    );
    assert_eq!(text, expected);
    let parsed: serde_json::Value = serde_json::from_str(&text).unwrap();
    assert_eq!(parsed["tests"][0].as_str().unwrap(), path);
    let threshold = OutputFormatter::format_coverage_threshold(&[path.clone()], CoverageThreshold::default());
    assert!(threshold.contains(literal));
    let parsed: serde_json::Value = serde_json::from_str(&threshold).unwrap();
    assert!(parsed["coverageThreshold"][path.as_str()].is_object());
}
