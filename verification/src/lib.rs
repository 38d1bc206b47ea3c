//! Stork search backend: command-line dispatch, index file framing and the
//! data model of a search index, with their contracts.

pub mod cli;
pub mod config;
pub mod index;
pub mod searcher;
pub mod text;

use vstd::prelude::*;

verus! {

/// What the search front end reports about a loaded index.
#[derive(Debug)]
pub struct SearchIndexInfo {
    pub name: String,
    pub size: usize,
    pub version: String,
}

} // verus!
