//! The descriptive part of a file, and its colours.

use vstd::prelude::*;

verus! {

#[derive(Debug, Clone)]
pub struct Metadata {
    pub title: String,
    pub title_rm: Option<String>,
    pub artist: String,
    pub artist_rm: Option<String>,
    pub mapper: String,
    pub difficulty: String,
    pub source: Option<String>,
    pub bg_source: Option<String>,
    pub cover_source: Option<String>,
    pub tags: String,
    pub previewtime: i32,
}

/// The romanised text if there is one that is not empty, otherwise the
/// text in its own script.
pub open spec fn preferred(romanised: Option<String>, native: String) -> Seq<char> {
    match romanised {
        Some(r) => if r@.len() > 0 {
            r@
        } else {
            native@
        },
        None => native@,
    }
}

fn prefer(romanised: &Option<String>, native: &String) -> (s: String)
    ensures
        s@ == preferred(*romanised, *native),
{
    match romanised {
        Some(r) => {
            if r.as_str().unicode_len() > 0 {
                r.clone()
            } else {
                native.clone()
            }
        },
        None => native.clone(),
    }
}

/// Nothing, or an empty text.
pub open spec fn blank(s: Option<String>) -> bool {
    s is Some && s->0@.len() == 0
}

impl Metadata {
    pub fn display_title(&self) -> (s: String)
        ensures
            s@ == preferred(self.title_rm, self.title),
    {
        prefer(&self.title_rm, &self.title)
    }

    pub fn display_artist(&self) -> (s: String)
        ensures
            s@ == preferred(self.artist_rm, self.artist),
    {
        prefer(&self.artist_rm, &self.artist)
    }

    pub open spec fn is_blank(&self) -> bool {
        &&& self.title@.len() == 0
        &&& blank(self.title_rm)
        &&& self.artist@.len() == 0
        &&& blank(self.artist_rm)
        &&& self.mapper@.len() == 0
        &&& self.difficulty@.len() == 0
        &&& blank(self.source)
        &&& blank(self.bg_source)
        &&& blank(self.cover_source)
        &&& self.tags@.len() == 0
        &&& self.previewtime == 0
    }
}

impl Default for Metadata {
    fn default() -> (m: Self)
        ensures
            m.is_blank(),
    {
        Metadata {
            title: String::new(),
            title_rm: Some(String::new()),
            artist: String::new(),
            artist_rm: Some(String::new()),
            mapper: String::new(),
            difficulty: String::new(),
            source: Some(String::new()),
            bg_source: Some(String::new()),
            cover_source: Some(String::new()),
            tags: String::new(),
            previewtime: 0,
        }
    }
}

#[derive(Debug, Clone)]
pub struct Colors {
    pub accent: String,
    pub primary: String,
    pub secondary: String,
    pub middle: String,
}

impl Default for Colors {
    fn default() -> (c: Self)
        ensures
            c.accent@.len() == 0,
            c.primary@.len() == 0,
            c.secondary@.len() == 0,
            c.middle@.len() == 0,
    {
        Colors {
            accent: String::new(),
            primary: String::new(),
            secondary: String::new(),
            middle: String::new(),
        }
    }
}

} // verus!
