use scopetest::fs::{EntryKind, FileEntry, FileTree};
use scopetest::graph::DependencyGraph;
use scopetest::path;
use scopetest::search::search;
use scopetest::sorting::sort_paths;
use scopetest::text;
use std::collections::HashSet;

fn chars(s: &str) -> Vec<char> {
    s.chars().collect()
}

#[test]
fn characters_and_back() {
    for s in ["", "a", "héllo wörld", "/p/→/x.ts"] {
        assert_eq!(text::to_chars(s), chars(s));
        assert_eq!(text::from_chars(&chars(s)), s);
    }
}

#[test]
fn order_is_by_code_point() {
    let less = |a: &str, b: &str| path::before(&chars(a), &chars(b));
    assert!(less("", "a"));
    assert!(!less("a", ""));
    assert!(!less("a", "a"));
    assert!(less("a", "ab"));
    assert!(less("ab", "b"));
    assert!(less("a/b", "a-b/x"));
    assert!(!less("a-b/x", "a/b"));
    assert!(less("a", "a/b"));
    assert!(less("a/z", "a!"));
    assert!(less("/a", "a"));
    assert!(less("a/", "a/b"));
    assert!(!less("/", "/"));
    assert!(less("Z", "a"));
    assert!(less("z", "é"));
    assert!(!less("é", "z"));
}

#[test]
fn searching_and_splitting() {
    let has = |hay: &str, needle: &str| text::contains(&chars(hay), &chars(needle));
    assert!(has("abc", ""));
    assert!(has("", ""));
    assert!(!has("", "a"));
    assert!(has("abc", "bc"));
    assert!(has("abc", "abc"));
    assert!(!has("abc", "abcd"));
    assert!(!has("abc", "ac"));
    assert!(text::starts_with(&chars("abc"), &chars("ab")));
    assert!(!text::starts_with(&chars("abc"), &chars("bc")));
    assert!(text::matches_at(&chars("abc"), &chars("c"), 2));
    assert!(!text::matches_at(&chars("abc"), &chars("c"), 3));
    let split = |s: &str, sep: char| -> Vec<String> {
        text::split(&chars(s), sep).iter().map(|p| p.iter().collect()).collect()
    };
    assert_eq!(split("a/b//c/", '/'), vec!["a", "b", "", "c", ""]);
    assert_eq!(split("", '/'), vec![""]);
    assert_eq!(split("abc", '/'), vec!["abc"]);
    assert_eq!(split("/", '/'), vec!["", ""]);
    let join = |parts: &[&str], sep: &str| {
        text::join(&parts.iter().map(|p| p.to_string()).collect(), sep)
    };
    assert_eq!(join(&[], ", "), "");
    assert_eq!(join(&["a"], ", "), "a");
    assert_eq!(join(&["a", "", "b"], ", "), "a, , b");
    assert_eq!(text::slice(&chars("hello"), 1, 3), chars("el"));
}

#[test]
fn paths_as_text() {
    assert_eq!(path::join("/a", "b"), "/a/b");
    assert_eq!(path::join("/a/", "b"), "/a/b");
    assert_eq!(path::join("/a", "/b"), "/b");
    assert_eq!(path::join("", "b"), "b");
    assert_eq!(path::join("a", ""), "a/");
    assert_eq!(path::parent("/a/b.ts"), "/a");
    assert_eq!(path::parent("/a"), "/");
    assert_eq!(path::parent("a"), "");
    assert_eq!(path::parent(""), "");
    assert_eq!(path::normalize("/a/b/../c/./d"), "/a/c/d");
    assert_eq!(path::normalize("a//b/"), "a/b");
    assert_eq!(path::normalize("/"), "/");
    assert_eq!(path::normalize("/.."), "");
    assert_eq!(path::normalize("./a/.."), "");
    assert_eq!(path::normalize("../../a"), "a");
    let name = |p: &str| path::file_name_chars(&chars(p)).map(|n| n.iter().collect::<String>());
    assert_eq!(name("/a/b.ts"), Some("b.ts".to_string()));
    assert_eq!(name("b"), Some("b".to_string()));
    assert_eq!(name("/a/"), None);
    assert_eq!(name("/a/.."), None);
    assert_eq!(name("."), None);
    let ext = |p: &str| path::extension_chars(&chars(p)).map(|n| n.iter().collect::<String>());
    assert_eq!(ext("a.tar.gz"), Some("gz".to_string()));
    assert_eq!(ext("a."), Some("".to_string()));
    assert_eq!(ext(".profile"), None);
    assert_eq!(ext("a.b/c"), None);
    assert_eq!(path::find_last(&chars("a/b/c"), '/'), Some(3));
    assert_eq!(path::find_last(&chars("abc"), '/'), None);
}

#[test]
fn sorting_keeps_every_path() {
    let sort = |paths: &[&str]| sort_paths(&paths.iter().map(|p| p.to_string()).collect());
    assert_eq!(sort(&[]), Vec::<String>::new());
    assert_eq!(sort(&["b", "a", "c"]), vec!["a", "b", "c"]);
    assert_eq!(sort(&["b", "a", "b", "ab", ""]), vec!["", "a", "ab", "b", "b"]);
    let mut many: Vec<String> = (0..200).map(|i| format!("/p/{}.ts", (i * 37) % 200)).collect();
    let sorted = sort_paths(&many);
    many.sort();
    assert_eq!(sorted, many);
}

#[test]
fn the_snapshot_answers_from_its_listing() {
    let mut tree = FileTree::new();
    assert_eq!(tree.len(), 0);
    let entry = |path: &str, kind: EntryKind, modified: u64| FileEntry {
        path: path.to_string(),
        kind,
        canonical: format!("/real{}", path),
        modified_time: modified,
        content_hash: 3,
        content: Some("text".to_string()),
    };
    tree.insert(entry("/a", EntryKind::Directory, 1));
    tree.insert(entry("/a/f.ts", EntryKind::File, 2));
    tree.insert(entry("/a/f.ts", EntryKind::File, 5));
    assert_eq!(tree.len(), 2);
    assert_eq!(tree.paths(), vec!["/a", "/a/f.ts"]);
    assert!(tree.is_listed("/a") && tree.is_dir("/a") && !tree.is_file("/a"));
    assert!(tree.is_listed("/a/f.ts") && tree.is_file("/a/f.ts") && !tree.is_dir("/a/f.ts"));
    assert!(!tree.is_listed("/b") && !tree.is_file("/b") && !tree.is_dir("/b"));
    assert_eq!(tree.get("/a/f.ts").unwrap().modified_time, 5);
    assert!(tree.get("/b").is_none());
    assert_eq!(tree.canonicalize("/a/f.ts"), Some("/real/a/f.ts".to_string()));
    assert_eq!(tree.canonicalize("/b"), None);
    assert_eq!(tree.read_to_string("/a/f.ts"), Some(&"text".to_string()));
    assert_eq!(tree.read_to_string("/b"), None);
}

#[test]
fn shortest_walks_in_both_directions() {
    let tree = FileTree::new();
    let mut graph = DependencyGraph::new();
    for name in ["/0", "/1", "/2", "/3", "/4"] {
        graph.add_file(name.to_string(), false, &tree);
    }
    // 0 -> 1 -> 2 -> 3, 0 -> 2, 4 alone
    graph.add_dependency(0, 1);
    graph.add_dependency(1, 2);
    graph.add_dependency(2, 3);
    graph.add_dependency(0, 2);
    let goals = |ids: &[u32]| ids.iter().copied().collect::<HashSet<u32>>();
    assert_eq!(search(&graph, 0, &goals(&[3]), true), Some(vec![0, 2, 3]));
    assert_eq!(search(&graph, 0, &goals(&[3, 1]), true), Some(vec![0, 1]));
    assert_eq!(search(&graph, 0, &goals(&[0]), true), Some(vec![0]));
    assert_eq!(search(&graph, 3, &goals(&[0]), true), None);
    assert_eq!(search(&graph, 3, &goals(&[0]), false), Some(vec![3, 2, 0]));
    assert_eq!(search(&graph, 0, &goals(&[4]), true), None);
    assert_eq!(search(&graph, 0, &goals(&[]), true), None);
}

#[test]
fn text_is_kept_for_sources_manifests_and_configurations() {
    for path in ["/p/a.ts", "/p/a.cjs", "/p/node_modules/x/package.json", "/p/tsconfig.json", "tsconfig.json"] {
        assert!(scopetest::fs::holds_text(path), "{}", path);
    }
    for path in ["/p/a.css", "/p/package.json5", "/p/tsconfig.json/x", "/p/readme", ""] {
        assert!(!scopetest::fs::holds_text(path), "{}", path);
    }
    assert!(text::ends_with(&chars("abc"), &chars("bc")));
    assert!(text::ends_with(&chars("abc"), &chars("")));
    assert!(text::ends_with(&chars("abc"), &chars("abc")));
    assert!(!text::ends_with(&chars("abc"), &chars("xabc")));
    assert!(!text::ends_with(&chars("abc"), &chars("ab")));
}
