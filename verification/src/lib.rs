//! Classifies the regular files of a repository snapshot by language and by
//! four boolean facets (generated, documentation, vendored, detectable), and
//! aggregates the classified entries into per-language byte totals.
//!
//! Paths, language names and file contents are byte strings, as they are in a
//! repository's trees. Repository access itself (resolving a revision, listing
//! a tree, reading a blob, opening a sub-repository) is left to the caller,
//! which feeds the results in as plain values.

pub mod analysis;
pub mod bytes;
pub mod classify;
pub mod handlers;
pub mod language;
pub mod summary;
pub mod summary_map;
pub mod traverse;
