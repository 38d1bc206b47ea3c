//! Version 1 of the index: its data model and its file framing.

pub mod file_format;
pub mod structs;
