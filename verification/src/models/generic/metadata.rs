//! The descriptive fields of a chart. They never affect timing or notes.

use vstd::prelude::*;

verus! {

#[derive(Debug, Clone)]
pub struct Metadata {
    pub title: String,
    pub alt_title: String,
    pub artist: String,
    pub alt_artist: String,
    pub creator: String,
    pub genre: String,
    pub source: String,
    pub tags: Vec<String>,
}

impl Metadata {
    pub open spec fn is_blank(&self) -> bool {
        &&& self.title@.len() == 0
        &&& self.alt_title@.len() == 0
        &&& self.artist@.len() == 0
        &&& self.alt_artist@.len() == 0
        &&& self.creator@.len() == 0
        &&& self.genre@.len() == 0
        &&& self.source@.len() == 0
        &&& self.tags@.len() == 0
    }

    /// Metadata with every field empty.
    pub fn empty() -> (m: Self)
        ensures
            m.is_blank(),
    {
        Metadata {
            title: String::new(),
            alt_title: String::new(),
            artist: String::new(),
            alt_artist: String::new(),
            creator: String::new(),
            genre: String::new(),
            source: String::new(),
            tags: Vec::new(),
        }
    }
}

} // verus!
