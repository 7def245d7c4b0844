use scopetest::cache::{CacheError, CacheManager, CacheRead};
use scopetest::fs::{EntryKind, FileEntry, FileTree};
use scopetest::graph::{DependencyGraph, FileNode, SerializedGraph};

fn blob(version: u32) -> Vec<u8> {
    let mut bytes = version.to_le_bytes().to_vec();
    bytes.extend_from_slice(&[0u8; 16]);
    bytes
}

fn listed(path: &str) -> FileTree {
    let mut tree = FileTree::new();
    tree.insert(FileEntry {
        path: path.to_string(),
        kind: EntryKind::File,
        canonical: path.to_string(),
        modified_time: 0,
        content_hash: 0,
        content: None,
    });
    tree
}

#[test]
fn test_cache_roundtrip() {
    let cache = CacheManager::new("/tmp/project");
    let tree = FileTree::new();

    let mut graph = DependencyGraph::new();
    graph.add_file("/test/a.ts".to_string(), false, &tree);
    graph.add_file("/test/b.ts".to_string(), true, &tree);

    let write = cache.save(&graph);
    assert_eq!(write.dir, "/tmp/project/.scopetest");
    assert_eq!(write.path, "/tmp/project/.scopetest/cache.bin");

    let loaded = cache
        .load(CacheRead::Read { bytes: blob(write.data.version), decoded: Some(write.data) })
        .unwrap();
    assert!(loaded.is_some());
    assert_eq!(loaded.unwrap().file_count(), 2);
}

#[test]
fn test_cache_invalidate() {
    let cache = CacheManager::new("/tmp/project");

    let graph = DependencyGraph::new();
    let write = cache.save(&graph);
    let tree = listed(&write.path);

    assert!(cache.is_present(&tree));
    assert_eq!(cache.invalidate(&tree), Some("/tmp/project/.scopetest/cache.bin".to_string()));
    let gone = FileTree::new();
    assert!(!cache.is_present(&gone));
    assert_eq!(cache.invalidate(&gone), None);
}

#[test]
fn an_absent_cache_is_no_error() {
    let cache = CacheManager::new("/p/");
    assert_eq!(cache.cache_path(), "/p/.scopetest/cache.bin");
    assert!(matches!(cache.load(CacheRead::Absent), Ok(None)));
    match cache.load(CacheRead::Failed("denied".to_string())) {
        Err(CacheError::ReadError(reason)) => assert_eq!(reason, "denied"),
        _ => panic!("expected a read error"),
    }
}

#[test]
fn blobs_are_judged_by_version_and_content() {
    let node = |p: &str| FileNode { path: p.to_string(), is_test: false, last_modified: 0, content_hash: 0 };
    let data = |version: u32| SerializedGraph { version, nodes: vec![node("/a"), node("/b")], edges: vec![(1, 0)] };
    assert!(CacheManager::check(&blob(1), &Some(data(1))).is_ok());
    assert!(matches!(CacheManager::check(&blob(2), &Some(data(1))), Err(CacheError::VersionMismatch)));
    assert!(matches!(CacheManager::check(&blob(256), &Some(data(1))), Err(CacheError::VersionMismatch)));
    assert!(matches!(CacheManager::check(&blob(1 << 24), &None), Err(CacheError::VersionMismatch)));
    assert!(matches!(CacheManager::check(&blob(1), &Some(data(3))), Err(CacheError::VersionMismatch)));
    assert!(matches!(CacheManager::check(&blob(1), &None), Err(CacheError::Corrupted)));
    assert!(matches!(CacheManager::check(&vec![1, 0, 0], &Some(data(1))), Err(CacheError::Corrupted)));
    let dangling = SerializedGraph { version: 1, nodes: vec![node("/a")], edges: vec![(0, 4)] };
    assert!(matches!(CacheManager::check(&blob(1), &Some(dangling)), Err(CacheError::Corrupted)));
    let cache = CacheManager::new("/p");
    let twice = SerializedGraph { version: 1, nodes: vec![node("/a"), node("/a")], edges: vec![] };
    assert!(matches!(
        cache.load(CacheRead::Read { bytes: blob(1), decoded: Some(twice) }),
        Err(CacheError::Corrupted)
    ));
    let graph = cache.load(CacheRead::Read { bytes: blob(1), decoded: Some(data(1)) }).unwrap().unwrap();
    assert_eq!(graph.get_dependencies(1), vec![0]);
}

#[test]
fn write_outcomes_and_messages() {
    assert!(CacheManager::written(Ok(())).is_ok());
    match CacheManager::written(Err("full".to_string())) {
        Err(CacheError::WriteError(reason)) => assert_eq!(reason, "full"),
        _ => panic!("expected a write error"),
    }
    assert_eq!(CacheError::ReadError("r".to_string()).to_string(), "Failed to read cache: r");
    assert_eq!(CacheError::WriteError("w".to_string()).to_string(), "Failed to write cache: w");
    assert_eq!(CacheError::VersionMismatch.to_string(), "Cache version mismatch");
    assert_eq!(CacheError::Corrupted.to_string(), "Cache corrupted");
}
