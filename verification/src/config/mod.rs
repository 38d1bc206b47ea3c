//! Configuration of an index build.

pub mod file;
