//! Decision core of a dotfiles installer: a template tree is rendered into a
//! build tree, and the build tree is exposed in a link tree through symbolic
//! links. Everything that touches the file system is left to the caller; this
//! crate decides what is to be done at each step, where a failure is located,
//! and how the results of concurrent branches are merged.
//!
//! - [`walker`]: the decisions of the traversal, one directory level at a time.
//! - [`builder`], [`linker`], [`peeker`]: what the three traversals do with a
//!   directory and with a file.
//! - [`env`], [`host`]: the binding set and the values computed for it.
//! - [`error`]: located failures, their collection and its report.
//! - [`config`], [`path`], [`text`]: the configuration of a run, paths and strings.
//! - [`mirror`], [`record`]: what holds of a traversal as a whole.

pub mod builder;
pub mod config;
pub mod env;
pub mod error;
pub mod host;
pub mod linker;
pub mod mirror;
pub mod path;
pub mod peeker;
pub mod record;
pub mod text;
pub mod walker;
