use scopetest::config::{
    classify_ignored, classify_test, default_base, default_cache_enabled, default_expand_barrels,
    default_extensions, default_ignore_patterns, default_test_patterns, match_outcomes, Config,
    ConfigError,
};
use scopetest::parser::is_supported_extension;

#[test]
fn test_default_config() {
    let config = Config::default();
    assert!(!config.test_patterns.is_empty());
    assert!(!config.ignore_patterns.is_empty());
    assert!(config.cache_enabled);
}

#[test]
fn test_is_test_file() {
    let config = Config::default();

    assert!(config.is_test_file("src/foo.spec.ts"));
    assert!(config.is_test_file("src/foo.test.tsx"));
    assert!(!config.is_test_file("src/foo.ts"));
}

#[test]
fn test_should_ignore() {
    let config = Config::default();

    assert!(config.should_ignore("node_modules/foo/index.js"));
    assert!(config.should_ignore("dist/bundle.js"));
    assert!(!config.should_ignore("src/foo.ts"));
}

#[test]
fn test_is_supported_extension() {
    let config = Config::default();

    assert!(config.is_supported_extension("foo.ts"));
    assert!(config.is_supported_extension("foo.tsx"));
    assert!(config.is_supported_extension("foo.js"));
    assert!(!config.is_supported_extension("foo.css"));
}

#[test]
fn defaults_are_as_documented() {
    assert_eq!(
        default_test_patterns(),
        vec![
            "**/*.spec.ts", "**/*.spec.tsx", "**/*.test.ts", "**/*.test.tsx", "**/*.spec.js",
            "**/*.spec.jsx", "**/*.test.js", "**/*.test.jsx"
        ]
    );
    assert_eq!(
        default_ignore_patterns(),
        vec!["**/node_modules/**", "**/dist/**", "**/build/**", "**/.git/**", "**/coverage/**"]
    );
    assert_eq!(default_extensions(), vec![".ts", ".tsx", ".js", ".jsx", ".mjs", ".cjs"]);
    assert!(default_cache_enabled());
    assert_eq!(default_base(), "main");
    assert!(default_expand_barrels());
    let config = Config::default();
    assert_eq!(config.default_base, "main");
    assert!(config.expand_barrels);
}

#[test]
fn test_marker_counts_without_patterns() {
    let mut config = Config::default();
    config.test_patterns = vec![];
    assert!(config.is_test_file("a/b.spec.ts"));
    assert!(config.is_test_file("b.test.js"));
    assert!(!config.is_test_file("spec/b.ts"));
    assert!(!config.is_test_file("a.spec.dir/b.ts"));
    assert!(!config.is_test_file("b.spec"));
    config.test_patterns = vec!["[".to_string(), "**/__tests__/**".to_string()];
    assert!(config.is_test_file("src/__tests__/b.ts"));
    assert!(!config.is_test_file("src/b.ts"));
}

#[test]
fn file_names_decide_for_the_default_patterns() {
    let config = Config::default();
    for name in ["a", "zz", "component", "abcdefgh"] {
        assert!(config.is_test_file(&format!("{}.spec.ts", name)));
        assert!(!config.is_test_file(&format!("{}.ts", name)));
    }
}

#[test]
fn verdicts_follow_from_the_outcomes() {
    assert!(classify_test(&vec![None, Some(false), Some(true)], "a.ts"));
    assert!(!classify_test(&vec![None, Some(false)], "a.ts"));
    assert!(classify_test(&vec![], "a.test.ts"));
    assert!(classify_ignored(&vec![Some(true)], "a.ts"));
    assert!(classify_ignored(&vec![], "x/node_modules/a.ts"));
    assert!(!classify_ignored(&vec![Some(false), None], "a.ts"));
}

#[test]
fn node_modules_is_always_ignored() {
    let mut config = Config::default();
    config.ignore_patterns = vec![];
    assert!(config.should_ignore("a/node_modules/b.ts"));
    assert!(!config.should_ignore("dist/bundle.js"));
}

#[test]
fn extensions_are_read_from_the_file_name() {
    let config = Config::default();
    assert!(config.is_supported_extension("a/b.c/d.mjs"));
    assert!(config.is_supported_extension("x.d.ts"));
    assert!(!config.is_supported_extension("a.ts/b"));
    assert!(!config.is_supported_extension(".ts"));
    assert!(!config.is_supported_extension("a/.ts"));
    assert!(!config.is_supported_extension("ts"));
    assert!(!config.is_supported_extension("a."));
    assert!(!config.is_supported_extension("a/.."));
    assert!(!config.is_supported_extension(""));
    assert!(is_supported_extension("foo.cjs"));
    assert!(!is_supported_extension("foo.css"));
    let mut narrow = Config::default();
    narrow.extensions = vec![".vue".to_string()];
    assert!(narrow.is_supported_extension("a.vue"));
    assert!(!narrow.is_supported_extension("a.ts"));
}

#[test]
fn config_errors_have_messages() {
    assert_eq!(ConfigError::ReadError("x".to_string()).to_string(), "Failed to read config: x");
    assert_eq!(ConfigError::ParseError("y".to_string()).to_string(), "Failed to parse config: y");
}

#[test]
fn each_pattern_gives_its_own_answer() {
    let patterns = vec![
        "**/*.spec.ts".to_string(),
        "[".to_string(),
        "src/*.ts".to_string(),
        "src/a?c.ts".to_string(),
        "a**".to_string(),
    ];
    assert_eq!(
        match_outcomes(&patterns, "src/abc.ts"),
        vec![Some(false), None, Some(true), Some(true), None]
    );
    assert_eq!(
        match_outcomes(&patterns, "deep/down/x.spec.ts"),
        vec![Some(true), None, Some(false), Some(false), None]
    );
    assert_eq!(match_outcomes(&vec![], "src/abc.ts"), Vec::<Option<bool>>::new());
}

#[test]
fn a_pattern_that_cannot_be_read_matches_nothing() {
    let mut config = Config::default();
    config.test_patterns = vec!["[".to_string(), "***".to_string()];
    config.ignore_patterns = vec!["[".to_string()];
    assert!(!config.is_test_file("src/a.ts"));
    assert!(config.is_test_file("src/a.test.ts"));
    assert!(!config.should_ignore("src/a.ts"));
}

#[test]
fn only_a_segment_named_node_modules_is_passed_over() {
    let mut config = Config::default();
    config.ignore_patterns = vec![];
    assert!(config.should_ignore("node_modules/a.ts"));
    assert!(config.should_ignore("/p/node_modules/a/b.ts"));
    assert!(config.should_ignore("/p/node_modules"));
    assert!(!config.should_ignore("/p/node_modules_util.ts"));
    assert!(!config.should_ignore("/p/my_node_modules/a.ts"));
    assert!(!config.should_ignore("/p/node_modules.ts"));
    assert!(!classify_ignored(&vec![Some(false)], "/p/xnode_modules/a.ts"));
    assert!(classify_ignored(&vec![Some(false)], "/p/node_modules/a.ts"));
}
