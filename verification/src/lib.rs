//! An engine for editing ZIP archives held in memory: it lists entries
//! and removes entries matching shell-style wildcard patterns, decoding
//! entry names that may be stored in encodings other than UTF-8, and
//! producing the rewritten archive without recompressing any entry.
//!
//! - [`cli`] parses one invocation: options, subcommands, archive paths.
//! - [`pattern`] matches wildcard patterns against decoded names.
//! - [`encoding`] decodes raw entry-name bytes: strict UTF-8 first, the
//!   configured fallback encoding otherwise.
//! - [`archive`] is the trusted view of the underlying ZIP codec.
//! - [`model`] states what a listing prints and which entries a removal
//!   keeps, and proves the laws that relate them.
//! - [`list`] and [`remove`] run the two operations over archive bytes.
//! - [`sink`] decides where rewritten bytes go, including the
//!   temporary-file-then-rename plan for atomic in-place overwrite.
//!
//! Reading and writing real files, printing, and process exits stay with
//! the caller: every function here is a computation over values.

use vstd::prelude::*;

pub mod archive;
pub mod cli;
pub mod cmd;
pub mod list;
pub mod encoding;
pub mod errors;
pub mod model;
pub mod remove;
pub mod sink;
pub mod pattern;
pub mod text;

verus! {

} // verus!
