//! A snapshot of the part of the file system that the library consults.
//!
//! Nothing here touches the disk: the caller lists what it found, and every
//! later question (does this path exist, is it a file, where does it really
//! live) is answered from that listing.

use crate::text::{ends_with, has_suffix, to_chars};
use vstd::hash_map::StringHashMap;
use vstd::prelude::*;

verus! {

/// What a path names.
#[derive(Clone, Copy, Debug, PartialEq, Eq, Structural)]
pub enum EntryKind {
    File,
    Directory,
}

/// One path of the snapshot.
pub struct FileEntry {
    /// The path as it was listed.
    pub path: String,
    pub kind: EntryKind,
    /// The path with every symbolic link resolved.
    pub canonical: String,
    /// Seconds since the epoch at which the entry was last modified.
    pub modified_time: u64,
    /// A 64-bit hash of the file's bytes, zero where they could not be read.
    pub content_hash: u64,
    /// The text of the file, where the snapshot holds it.
    pub content: Option<String>,
}

/// A snapshot has to hold the text of the file `path`: it is a source
/// file that can be parsed, a package manifest or a project configuration.
pub open spec fn is_read(path: Seq<char>) -> bool {
    crate::config::extension_among(path, seq![".ts"@, ".tsx"@, ".js"@, ".jsx"@, ".mjs"@, ".cjs"@])
        || has_suffix(path, "package.json"@) || has_suffix(path, "tsconfig.json"@)
}

/// Decides [`is_read`].
pub fn holds_text(path: &str) -> (read: bool)
    ensures
        read == is_read(path@),
{
    let chars = to_chars(path);
    crate::parser::is_supported_extension(path) || ends_with(&chars, &to_chars("package.json"))
        || ends_with(&chars, &to_chars("tsconfig.json"))
}

/// The listed paths, each at most once.
pub struct FileTree {
    entries: Vec<FileEntry>,
    index: StringHashMap<usize>,
}

impl FileTree {
    /// The index names exactly the listed entries.
    pub closed spec fn wf(&self) -> bool {
        &&& forall|p: Seq<char>| #[trigger]
            self.index@.contains_key(p) ==> self.index@[p] < self.entries@.len()
                && self.entries@[self.index@[p] as int].path@ == p
        &&& forall|i: int|
            0 <= i < self.entries@.len() ==> self.index@.contains_key(
                #[trigger] self.entries@[i].path@,
            ) && self.index@[self.entries@[i].path@] == i
    }

    /// The entry listed for `path`, if there is one.
    pub closed spec fn entry(&self, path: Seq<char>) -> Option<FileEntry> {
        if self.index@.contains_key(path) {
            Some(self.entries@[self.index@[path] as int])
        } else {
            None
        }
    }

    /// `path` is listed.
    pub open spec fn has(&self, path: Seq<char>) -> bool {
        self.entry(path) is Some
    }

    /// `path` is listed as a regular file.
    pub open spec fn has_file(&self, path: Seq<char>) -> bool {
        self.entry(path) matches Some(e) && e.kind == EntryKind::File
    }

    /// `path` is listed as a directory.
    pub open spec fn has_dir(&self, path: Seq<char>) -> bool {
        self.entry(path) matches Some(e) && e.kind == EntryKind::Directory
    }

    /// The canonical form of `path`, known only for listed paths.
    pub open spec fn canonical_of(&self, path: Seq<char>) -> Option<Seq<char>> {
        match self.entry(path) {
            Some(e) => Some(e.canonical@),
            None => None,
        }
    }

    /// The canonical form of `path` where the snapshot knows one, else `path`.
    pub open spec fn canonical_or_same(&self, path: Seq<char>) -> Seq<char> {
        match self.entry(path) {
            Some(e) => e.canonical@,
            None => path,
        }
    }

    /// The modification time listed for `path`, zero where it is not listed.
    pub open spec fn modified_or_zero(&self, path: Seq<char>) -> u64 {
        match self.entry(path) {
            Some(e) => e.modified_time,
            None => 0,
        }
    }

    /// The content hash listed for `path`, zero where it is not listed.
    pub open spec fn hash_or_zero(&self, path: Seq<char>) -> u64 {
        match self.entry(path) {
            Some(e) => e.content_hash,
            None => 0,
        }
    }

    /// The text that the snapshot holds for `path`.
    pub open spec fn content_of(&self, path: Seq<char>) -> Option<Seq<char>> {
        match self.entry(path) {
            Some(e) => match e.content {
                Some(text) => Some(text@),
                None => None,
            },
            None => None,
        }
    }

    /// A snapshot that lists nothing.
    pub fn new() -> (tree: FileTree)
        ensures
            tree.wf(),
            forall|p: Seq<char>| tree.entry(p) is None,
    {
        FileTree { entries: Vec::new(), index: StringHashMap::new() }
    }

    /// Lists `entry`, in place of whatever was listed for the same path.
    pub fn insert(&mut self, entry: FileEntry)
        requires
            old(self).wf(),
        ensures
            final(self).wf(),
            final(self).entry(entry.path@) == Some(entry),
            forall|p: Seq<char>| p != entry.path@ ==> final(self).entry(p) == old(self).entry(p),
    {
        match self.index.get(entry.path.as_str()) {
            Some(at) => {
                let at: usize = *at;
                self.entries.set(at, entry);
            },
            None => {
                let at: usize = self.entries.len();
                self.index.insert(entry.path.clone(), at);
                self.entries.push(entry);
            },
        }
    }

    /// How many paths are listed.
    pub closed spec fn count(&self) -> nat {
        self.entries@.len()
    }

    /// The listed paths, in the order in which they were first listed.
    pub closed spec fn listed(&self) -> Seq<Seq<char>> {
        self.entries@.map_values(|e: FileEntry| e.path@)
    }

    /// How many paths are listed.
    pub fn len(&self) -> (count: usize)
        ensures
            count == self.count(),
    {
        self.entries.len()
    }

    /// The listed paths, in the order in which they were first listed.
    pub fn paths(&self) -> (paths: Vec<String>)
        requires
            self.wf(),
        ensures
            paths.deep_view() == self.listed(),
            self.listed().no_duplicates(),
            forall|p: Seq<char>| self.listed().contains(p) <==> self.has(p),
    {
        let mut paths: Vec<String> = Vec::new();
        let mut i: usize = 0;
        while i < self.entries.len()
            invariant
                i <= self.entries@.len(),
                paths@.len() == i,
                forall|k: int| 0 <= k < i ==> (#[trigger] paths@[k])@ == self.entries@[k].path@,
            decreases self.entries@.len() - i,
        {
            paths.push(self.entries[i].path.clone());
            i += 1;
        }
        proof {
            assert(paths.deep_view() =~= self.listed());
            assert forall|j: int, k: int|
                0 <= j < self.listed().len() && 0 <= k < self.listed().len()
                    && j != k implies self.listed()[j] != self.listed()[k] by {
                assert(self.index@[self.entries@[j].path@] == j);
                assert(self.index@[self.entries@[k].path@] == k);
            }
            assert forall|p: Seq<char>| self.listed().contains(p) <==> self.has(p) by {
                if self.listed().contains(p) {
                    let k = choose|k: int| 0 <= k < self.listed().len() && self.listed()[k] == p;
                    assert(self.index@.contains_key(self.entries@[k].path@));
                }
                if self.has(p) {
                    let k = self.index@[p] as int;
                    assert(self.listed()[k] == p);
                }
            }
        }
        paths
    }

    /// The entry listed for `path`.
    pub fn get(&self, path: &str) -> (found: Option<&FileEntry>)
        requires
            self.wf(),
        ensures
            match found {
                Some(e) => self.entry(path@) == Some(*e),
                None => self.entry(path@) is None,
            },
    {
        match self.index.get(path) {
            Some(at) => Some(&self.entries[*at]),
            None => None,
        }
    }

    /// Whether `path` is listed at all.
    pub fn is_listed(&self, path: &str) -> (found: bool)
        requires
            self.wf(),
        ensures
            found == self.has(path@),
    {
        self.index.contains_key(path)
    }

    /// Whether `path` is listed as a regular file.
    pub fn is_file(&self, path: &str) -> (found: bool)
        requires
            self.wf(),
        ensures
            found == self.has_file(path@),
    {
        match self.get(path) {
            Some(e) => e.kind == EntryKind::File,
            None => false,
        }
    }

    /// Whether `path` is listed as a directory.
    pub fn is_dir(&self, path: &str) -> (found: bool)
        requires
            self.wf(),
        ensures
            found == self.has_dir(path@),
    {
        match self.get(path) {
            Some(e) => e.kind == EntryKind::Directory,
            None => false,
        }
    }

    /// The text that the snapshot holds for `path`.
    pub fn read_to_string(&self, path: &str) -> (text: Option<&String>)
        requires
            self.wf(),
        ensures
            match text {
                Some(t) => self.content_of(path@) == Some(t@),
                None => self.content_of(path@) is None,
            },
    {
        match self.get(path) {
            Some(e) => match &e.content {
                Some(text) => Some(text),
                None => None,
            },
            None => None,
        }
    }

    /// The canonical form of a listed path.
    pub fn canonicalize(&self, path: &str) -> (canonical: Option<String>)
        requires
            self.wf(),
        ensures
            match canonical {
                Some(c) => self.canonical_of(path@) == Some(c@),
                None => self.canonical_of(path@) is None,
            },
    {
        match self.get(path) {
            Some(e) => Some(e.canonical.clone()),
            None => None,
        }
    }
}

} // verus!
