//! Content-addressed line editing: per-line and whole-file hashing, tagged
//! rendering, anchor resolution and ordered application of edit batches.

pub mod text;
pub mod hashing;
pub mod anchor;
pub mod ops;
pub mod tools;
pub mod laws;
