//! Selection and aggregation engine of a source-code collector.
//!
//! The engine decides which files of a scanned directory tree are collected,
//! joins their contents into one annotated buffer, and rebuilds the collected
//! paths into a tree that renders the same in whatever order they came.
//!
//! Walking the directory, reading the files and filling the clipboard are
//! left to the caller, who hands the engine paths as lists of components and
//! files as bytes.
pub mod aggregate;
pub mod comment;
pub mod driver;
pub mod filter;
pub mod matcher;
pub mod paths;
pub mod run_laws;
pub mod segments;
pub mod text;
pub mod tree;
pub mod tree_laws;
pub mod tree_lines;

pub use aggregate::{Aggregator, Disposition, FileRead};
pub use comment::{get_comment_syntax, CommentStyle};
pub use driver::{Event, Offer, Report, Stage};
pub use filter::{Decision, FilterConfig, WalkEntry};
pub use matcher::ConfigError;
pub use tree::TreeNode;
