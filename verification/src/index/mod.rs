//! The search index and its file format.

pub mod v1;
