//! A verified file-reference store for assembling file contents into a single
//! prompt string.
//!
//! The store keeps an insertion-ordered collection of distinct file paths,
//! each tagged with a display name and a monotonically increasing order value.
//! Callers add single files or whole directory listings, remove entries by
//! exact path or by directory prefix, and assemble the referenced contents
//! into one delimited text blob. All disk access stays with the caller: the
//! store works on plain path strings and on read results handed in as values.
//!
//! Paths are `/`-separated strings without a trailing separator; directory
//! containment is decided segment-wise, so `/foo` covers `/foo/bar` but not
//! `/foobar`.

pub mod assemble;
pub mod fsitem;
pub mod numfmt;
pub mod paths;
pub mod store;
pub mod ui;
