//! Smart test selection for JavaScript and TypeScript projects: which
//! tests have to run again after a change, found by following the imports
//! of the project backwards from the changed files.
//!
//! The library is verified with Verus. It does not touch the disk: what
//! it needs to know of the file system comes in a [`fs::FileTree`], a
//! snapshot that the caller takes, and what version control reports comes
//! as text.
//!
//! * [`parser`] and [`syntax`]: the imports that a source file names;
//! * [`resolver`]: the file that an import means;
//! * [`barrel`]: index modules that only pass on what others export;
//! * [`graph`]: the files and their imports, with the traversal against
//!   the imports;
//! * [`builder`]: building the graph and bringing it up to date;
//! * [`cache`]: the stored form of the graph;
//! * [`affected`] and [`search`]: the affected tests, and why they are
//!   affected;
//! * [`config`], [`git`], [`output`]: settings, change sets and rendering;
//! * [`grammar`] and [`document_lemmas`]: a grammar of JSON texts, and the
//!   proof that the rendered documents are such texts;
//! * [`adjacency`] and [`json`]: what is taken on trust from `petgraph`
//!   and `serde_json`;
//! * [`text`], [`path`], [`sorting`], [`seqs`], [`edge_lemmas`]: helpers.

pub mod adjacency;
pub mod affected;
pub mod barrel;
pub mod builder;
pub mod cache;
pub mod config;
pub mod document_lemmas;
pub mod edge_lemmas;
pub mod fs;
pub mod git;
pub mod grammar;
pub mod graph;
pub mod json;
pub mod output;
pub mod parser;
pub mod path;
pub mod resolver;
pub mod search;
pub mod seqs;
pub mod sorting;
pub mod syntax;
pub mod text;

pub use affected::{AffectedResult, DependencyPath};
pub use barrel::BarrelAnalyzer;
pub use config::Config;
pub use graph::{DependencyGraph, FileId, FileNode};
pub use parser::{ImportInfo, ImportType};
