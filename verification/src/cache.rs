//! The stored form of the graph.
//!
//! Reading and writing the file is left to the caller. What is decided
//! here: where the cache lives, whether a blob carries the right version,
//! and whether what was decoded from it is a graph.

use crate::fs::FileTree;
use crate::graph::{DependencyGraph, SerializedGraph, GRAPH_VERSION};
use crate::path::joined_path;
use vstd::prelude::*;
use vstd::string::StringExecFns;

verus! {

/// The version of the stored form.
pub const CACHE_VERSION: u32 = GRAPH_VERSION;

/// What went wrong with the cache.
#[derive(Debug)]
pub enum CacheError {
    /// The file is there but could not be read.
    ReadError(String),
    /// The file could not be written or removed.
    WriteError(String),
    /// The blob was written in another version of the format.
    VersionMismatch,
    /// The blob does not hold a graph.
    Corrupted,
}

impl CacheError {
    /// The message of the error.
    pub open spec fn message(&self) -> Seq<char> {
        match self {
            CacheError::ReadError(m) => "Failed to read cache: "@ + m@,
            CacheError::WriteError(m) => "Failed to write cache: "@ + m@,
            CacheError::VersionMismatch => "Cache version mismatch"@,
            CacheError::Corrupted => "Cache corrupted"@,
        }
    }

    /// The message of the error, as text.
    pub fn to_string(&self) -> (text: String)
        ensures
            text@ == self.message(),
    {
        match self {
            CacheError::ReadError(m) => String::from_str("Failed to read cache: ").concat(
                m.as_str(),
            ),
            CacheError::WriteError(m) => String::from_str("Failed to write cache: ").concat(
                m.as_str(),
            ),
            CacheError::VersionMismatch => String::from_str("Cache version mismatch"),
            CacheError::Corrupted => String::from_str("Cache corrupted"),
        }
    }
}

/// What reading the cache file gave.
pub enum CacheRead {
    /// There is no cache file.
    Absent,
    /// The file is there but could not be read; the text says why.
    Failed(String),
    /// The bytes of the file, and the graph decoded from them where they
    /// could be decoded.
    Read { bytes: Vec<u8>, decoded: Option<SerializedGraph> },
}

/// The number that the first four bytes of a blob spell, lowest byte first.
pub open spec fn version_prefix(bytes: Seq<u8>) -> Option<int> {
    if bytes.len() < 4 {
        None
    } else {
        Some(bytes[0] + 256 * bytes[1] + 65536 * bytes[2] + 16777216 * bytes[3])
    }
}

/// What a blob and what was decoded from it come to: the blob has to begin
/// with the current version, and what it decodes to has to carry that
/// version and be consistent.
pub open spec fn verdict_on(bytes: Seq<u8>, decoded: Option<SerializedGraph>) -> Result<
    (),
    CacheError,
> {
    match version_prefix(bytes) {
        None => Err(CacheError::Corrupted),
        Some(version) => if version != CACHE_VERSION {
            Err(CacheError::VersionMismatch)
        } else {
            match decoded {
                None => Err(CacheError::Corrupted),
                Some(data) => if data.version != CACHE_VERSION {
                    Err(CacheError::VersionMismatch)
                } else if !data.consistent() {
                    Err(CacheError::Corrupted)
                } else {
                    Ok(())
                },
            }
        },
    }
}

/// What is to be written, and where.
pub struct CacheWrite {
    /// The directory that has to exist.
    pub dir: String,
    /// The file to write.
    pub path: String,
    /// The graph to encode.
    pub data: SerializedGraph,
}

/// Keeps the graph of one project.
pub struct CacheManager {
    cache_dir: String,
}

impl CacheManager {
    /// The directory of the cache.
    pub closed spec fn dir(&self) -> Seq<char> {
        self.cache_dir@
    }

    /// The file of the cache.
    pub open spec fn file(&self) -> Seq<char> {
        joined_path(self.dir(), "cache.bin"@)
    }

    /// The cache of the project at `project_root`: it lives in the directory
    /// `.scopetest` below the root.
    pub fn new(project_root: &str) -> (cache: Self)
        ensures
            cache.dir() == joined_path(project_root@, ".scopetest"@),
    {
        CacheManager { cache_dir: crate::path::join(project_root, ".scopetest") }
    }

    /// The path of the cache file.
    pub fn cache_path(&self) -> (path: String)
        ensures
            path@ == self.file(),
    {
        crate::path::join(self.cache_dir.as_str(), "cache.bin")
    }

    /// Whether the snapshot lists a cache file.
    pub fn is_present(&self, tree: &FileTree) -> (present: bool)
        requires
            tree.wf(),
        ensures
            present == tree.has(self.file()),
    {
        tree.is_listed(self.cache_path().as_str())
    }

    /// Decides whether a blob holds a graph of the current version.
    pub fn check(bytes: &Vec<u8>, decoded: &Option<SerializedGraph>) -> (verdict: Result<
        (),
        CacheError,
    >)
        ensures
            verdict == verdict_on(bytes@, *decoded),
    {
        if bytes.len() < 4 {
            return Err(CacheError::Corrupted);
        }
        let version: u32 = bytes[0] as u32 + 256 * (bytes[1] as u32) + 65536 * (bytes[2] as u32)
            + 16777216 * (bytes[3] as u32);
        if version != CACHE_VERSION {
            return Err(CacheError::VersionMismatch);
        }
        match decoded {
            None => Err(CacheError::Corrupted),
            Some(data) => {
                if data.version != CACHE_VERSION {
                    Err(CacheError::VersionMismatch)
                } else if !data.is_consistent() {
                    Err(CacheError::Corrupted)
                } else {
                    Ok(())
                }
            },
        }
    }

    /// The graph that the cache holds: none where there is no file, the
    /// graph where the blob holds one of the current version, and an error
    /// where the file could not be read, carries another version, or does
    /// not decode to a consistent graph.
    pub fn load(&self, read: CacheRead) -> (loaded: Result<Option<DependencyGraph>, CacheError>)
        ensures
            match read {
                CacheRead::Absent => loaded matches Ok(None),
                CacheRead::Failed(reason) => loaded matches Err(CacheError::ReadError(m)) && m@
                    == reason@,
                CacheRead::Read { bytes, decoded } => match verdict_on(bytes@, decoded) {
                    Err(e) => loaded == Err::<Option<DependencyGraph>, CacheError>(e),
                    Ok(()) => loaded matches Ok(Some(graph)) && graph.wf()
                        && decoded->Some_0.is_image_of(&graph),
                },
            },
    {
        match read {
            CacheRead::Absent => Ok(None),
            CacheRead::Failed(reason) => Err(CacheError::ReadError(reason)),
            CacheRead::Read { bytes, decoded } => {
                match Self::check(&bytes, &decoded) {
                    Err(e) => Err(e),
                    Ok(()) => match decoded {
                        Some(data) => match DependencyGraph::deserialize(data) {
                            Ok(graph) => Ok(Some(graph)),
                            Err(_) => Err(CacheError::VersionMismatch),
                        },
                        None => Err(CacheError::Corrupted),
                    },
                }
            },
        }
    }

    /// What has to be written to keep `graph`.
    pub fn save(&self, graph: &DependencyGraph) -> (write: CacheWrite)
        requires
            graph.wf(),
        ensures
            write.dir@ == self.dir(),
            write.path@ == self.file(),
            write.data.version == CACHE_VERSION,
            write.data.is_image_of(graph),
            write.data.consistent(),
    {
        CacheWrite {
            dir: self.cache_dir.clone(),
            path: self.cache_path(),
            data: graph.serialize(),
        }
    }

    /// The file that has to be removed to drop the cache, if there is one.
    pub fn invalidate(&self, tree: &FileTree) -> (remove: Option<String>)
        requires
            tree.wf(),
        ensures
            match remove {
                Some(path) => tree.has(self.file()) && path@ == self.file(),
                None => !tree.has(self.file()),
            },
    {
        let path = self.cache_path();
        if tree.is_listed(path.as_str()) {
            Some(path)
        } else {
            None
        }
    }

    /// The outcome of a write or a removal as the cache reports it.
    pub fn written(outcome: Result<(), String>) -> (reported: Result<(), CacheError>)
        ensures
            match outcome {
                Ok(()) => reported is Ok,
                Err(reason) => reported matches Err(CacheError::WriteError(m)) && m@ == reason@,
            },
    {
        match outcome {
            Ok(()) => Ok(()),
            Err(reason) => Err(CacheError::WriteError(reason)),
        }
    }
}

/// Storing a graph and restoring it gives the graph back: the same files
/// with the same records under the same ids, hence the same tests, and the
/// same edges.
pub proof fn lemma_round_trip(graph: &DependencyGraph, data: &SerializedGraph, restored: &DependencyGraph)
    requires
        data.is_image_of(graph),
        data.is_image_of(restored),
    ensures
        restored.nodes() == graph.nodes(),
        restored.edges() == graph.edges(),
        restored.all_ids().filter(restored.test_flag()) == graph.all_ids().filter(
            graph.test_flag(),
        ),
{
    assert(restored.all_ids() =~= graph.all_ids());
    assert(restored.test_flag() =~= graph.test_flag());
}

} // verus!
