//! One input file of an index build.

use crate::index::v1::structs::Fields;
use vstd::prelude::*;

verus! {

/// A document to index: its title and URL, where its text comes from, and
/// its fields.
#[derive(Debug, Default)]
pub struct File {
    pub title: String,
    pub url: String,
    pub source: DataSource,
    pub id: Option<String>,
    pub fields: Fields,
}

/// Where the text of a document comes from: given inline, or read from a
/// path.
#[derive(Clone, Debug)]
pub enum DataSource {
    Contents(String),
    FilePath(String),
}

impl Default for DataSource {
    /// Empty inline contents.
    fn default() -> (d: Self)
        ensures
            d matches DataSource::Contents(s) && s@ == Seq::<char>::empty(),
    {
        DataSource::Contents(String::new())
    }
}

} // verus!
