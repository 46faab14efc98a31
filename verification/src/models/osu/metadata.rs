//! The `[Metadata]` section.

use vstd::prelude::*;
use crate::utils::sections::{entries, i32_entry, lookup, read_entries, Entries};
use crate::utils::text::{
    append_decimal, decimal, eq_ignore_case, join, joined, same_ignoring_case, split_words, words,
};

verus! {

#[derive(Debug, Clone)]
pub struct Metadata {
    pub title: String,
    pub title_unicode: String,
    pub artist: String,
    pub artist_unicode: String,
    pub creator: String,
    pub version: String,
    pub source: String,
    pub tags: Vec<String>,
    pub beatmap_id: i32,
    pub beatmap_set_id: i32,
}

/// The text under `key`, or nothing where there is no such entry.
pub open spec fn text_entry(e: Seq<(Seq<char>, Seq<char>)>, key: Seq<char>) -> Seq<char> {
    match lookup(e, key) {
        Some(v) => v,
        None => Seq::empty(),
    }
}

/// The first index at which `tag` stands in `tags`, or the length where it
/// stands nowhere.
pub open spec fn tag_index(tags: Seq<Seq<char>>, tag: Seq<char>) -> int
    decreases tags.len(),
{
    if tags.len() == 0 {
        0
    } else if tags[0] == tag {
        0
    } else {
        1 + tag_index(tags.drop_first(), tag)
    }
}

/// `tags` without every occurrence of `tag`.
pub open spec fn tags_without(tags: Seq<Seq<char>>, tag: Seq<char>) -> Seq<Seq<char>>
    decreases tags.len(),
{
    if tags.len() == 0 {
        Seq::empty()
    } else if tags.last() == tag {
        tags_without(tags.drop_last(), tag)
    } else {
        tags_without(tags.drop_last(), tag).push(tags.last())
    }
}

impl Default for Metadata {
    fn default() -> (m: Self)
        ensures
            m.is_blank(),
    {
        Self {
            title: String::new(),
            title_unicode: String::new(),
            artist: String::new(),
            artist_unicode: String::new(),
            creator: String::new(),
            version: String::new(),
            source: String::new(),
            tags: Vec::new(),
            beatmap_id: 0,
            beatmap_set_id: 0,
        }
    }
}

impl Metadata {
    pub open spec fn is_blank(&self) -> bool {
        &&& self.title@.len() == 0
        &&& self.title_unicode@.len() == 0
        &&& self.artist@.len() == 0
        &&& self.artist_unicode@.len() == 0
        &&& self.creator@.len() == 0
        &&& self.version@.len() == 0
        &&& self.source@.len() == 0
        &&& self.tags@.len() == 0
        &&& self.beatmap_id == 0
        &&& self.beatmap_set_id == 0
    }

    /// The message for the first entry that cannot be read, if there is one.
    pub open spec fn section_error(e: Seq<(Seq<char>, Seq<char>)>) -> Option<Seq<char>> {
        if i32_entry(e, "BeatmapID"@, 0) is Err {
            Some(i32_entry(e, "BeatmapID"@, 0)->Err_0)
        } else if i32_entry(e, "BeatmapSetID"@, 0) is Err {
            Some(i32_entry(e, "BeatmapSetID"@, 0)->Err_0)
        } else {
            None
        }
    }

    /// `self` holds what the entries say, and defaults for the rest.
    pub open spec fn holds(&self, e: Seq<(Seq<char>, Seq<char>)>) -> bool {
        &&& self.title@ == text_entry(e, "Title"@)
        &&& self.title_unicode@ == text_entry(e, "TitleUnicode"@)
        &&& self.artist@ == text_entry(e, "Artist"@)
        &&& self.artist_unicode@ == text_entry(e, "ArtistUnicode"@)
        &&& self.creator@ == text_entry(e, "Creator"@)
        &&& self.version@ == text_entry(e, "Version"@)
        &&& self.source@ == text_entry(e, "Source"@)
        &&& self.tags.deep_view() == words(text_entry(e, "Tags"@))
        &&& Ok::<i32, Seq<char>>(self.beatmap_id) == i32_entry(e, "BeatmapID"@, 0)
        &&& Ok::<i32, Seq<char>>(self.beatmap_set_id) == i32_entry(e, "BeatmapSetID"@, 0)
    }

    /// Reads the section.
    pub fn from_str(s: &str) -> (r: Result<Metadata, String>)
        ensures
            match r {
                Ok(m) => Self::section_error(entries(s@)) is None && m.holds(entries(s@)),
                Err(msg) => Self::section_error(entries(s@)) == Some(msg@),
            },
    {
        let e = read_entries(s);
        let mut m = Metadata::default();
        m.title = text_of(&e, "Title");
        m.title_unicode = text_of(&e, "TitleUnicode");
        m.artist = text_of(&e, "Artist");
        m.artist_unicode = text_of(&e, "ArtistUnicode");
        m.creator = text_of(&e, "Creator");
        m.version = text_of(&e, "Version");
        m.source = text_of(&e, "Source");
        let tags = text_of(&e, "Tags");
        m.tags = split_words(tags.as_str());
        m.beatmap_id = match e.i32_value("BeatmapID", 0) {
            Ok(n) => n,
            Err(msg) => {
                return Err(msg);
            },
        };
        m.beatmap_set_id = match e.i32_value("BeatmapSetID", 0) {
            Ok(n) => n,
            Err(msg) => {
                return Err(msg);
            },
        };
        Ok(m)
    }

    pub fn new(
        title: String,
        title_unicode: String,
        artist: String,
        artist_unicode: String,
        creator: String,
        version: String,
        source: String,
        tags: Vec<String>,
        beatmap_id: i32,
        beatmap_set_id: i32,
    ) -> (m: Self)
        ensures
            m.title == title,
            m.title_unicode == title_unicode,
            m.artist == artist,
            m.artist_unicode == artist_unicode,
            m.creator == creator,
            m.version == version,
            m.source == source,
            m.tags == tags,
            m.beatmap_id == beatmap_id,
            m.beatmap_set_id == beatmap_set_id,
    {
        Self {
            title,
            title_unicode,
            artist,
            artist_unicode,
            creator,
            version,
            source,
            tags,
            beatmap_id,
            beatmap_set_id,
        }
    }

    /// The title in its own script if there is one, otherwise the romanised
    /// title.
    pub fn display_title(&self) -> (s: &str)
        ensures
            s@ == if self.title_unicode@.len() > 0 {
                self.title_unicode@
            } else {
                self.title@
            },
    {
        if self.title_unicode.as_str().unicode_len() > 0 {
            self.title_unicode.as_str()
        } else {
            self.title.as_str()
        }
    }

    pub fn display_artist(&self) -> (s: &str)
        ensures
            s@ == if self.artist_unicode@.len() > 0 {
                self.artist_unicode@
            } else {
                self.artist@
            },
    {
        if self.artist_unicode.as_str().unicode_len() > 0 {
            self.artist_unicode.as_str()
        } else {
            self.artist.as_str()
        }
    }

    pub open spec fn tag_texts(&self) -> Seq<Seq<char>> {
        self.tags.deep_view()
    }

    fn position(&self, tag: &String) -> (at: usize)
        ensures
            at == tag_index(self.tag_texts(), tag@),
            at <= self.tags@.len(),
    {
        let ghost texts = self.tag_texts();
        let n = self.tags.len();
        let mut i: usize = 0;
        assert(texts.subrange(0, n as int) =~= texts);
        while i < n
            invariant
                i <= n,
                n == self.tags@.len(),
                texts == self.tag_texts(),
                tag_index(texts, tag@) == i + tag_index(texts.subrange(i as int, n as int), tag@),
            decreases n - i,
        {
            assert(texts.subrange(i as int, n as int).drop_first() =~= texts.subrange(
                i + 1,
                n as int,
            ));
            assert(texts.subrange(i as int, n as int)[0] == self.tags@[i as int]@);
            if self.tags[i] == *tag {
                return i;
            }
            i += 1;
        }
        i
    }

    /// Adds a tag unless the metadata has it already.
    pub fn add_tag(&mut self, tag: String)
        ensures
            final(self).tag_texts() == if tag_index(old(self).tag_texts(), tag@) < old(
                self,
            ).tag_texts().len() {
                old(self).tag_texts()
            } else {
                old(self).tag_texts().push(tag@)
            },
            *final(self) == (Metadata { tags: final(self).tags, ..*old(self) }),
    {
        if self.position(&tag) == self.tags.len() {
            let ghost before = self.tags;
            self.tags.push(tag);
            proof {
                crate::utils::text::lemma_texts_push(before, self.tags, tag);
            }
        }
    }

    /// Removes every occurrence of a tag.
    pub fn remove_tag(&mut self, tag: &str)
        ensures
            final(self).tag_texts() == tags_without(old(self).tag_texts(), tag@),
            *final(self) == (Metadata { tags: final(self).tags, ..*old(self) }),
    {
        let wanted = tag.to_owned();
        let mut kept: Vec<String> = Vec::new();
        let ghost texts = self.tag_texts();
        let n = self.tags.len();
        let mut i: usize = 0;
        assert(texts.subrange(0, 0) =~= Seq::<Seq<char>>::empty());
        assert(kept.deep_view() =~= Seq::<Seq<char>>::empty());
        while i < n
            invariant
                i <= n,
                n == self.tags@.len(),
                *self == *old(self),
                texts == self.tag_texts(),
                wanted@ == tag@,
                kept.deep_view() == tags_without(texts.subrange(0, i as int), tag@),
            decreases n - i,
        {
            assert(texts.subrange(0, i + 1).drop_last() =~= texts.subrange(0, i as int));
            assert(texts.subrange(0, i + 1).last() == self.tags@[i as int]@);
            if !(self.tags[i] == wanted) {
                let ghost before = kept;
                let t = self.tags[i].clone();
                kept.push(t);
                proof {
                    crate::utils::text::lemma_texts_push(before, kept, t);
                }
            }
            i += 1;
        }
        assert(texts.subrange(0, i as int) =~= texts);
        self.tags = kept;
    }

    /// Whether the metadata has the tag, whatever the case of its letters.
    pub fn has_tag(&self, tag: &str) -> (b: bool)
        ensures
            b == exists|i: int|
                0 <= i < self.tags@.len() && same_ignoring_case(
                    (#[trigger] self.tags@[i])@,
                    tag@,
                ),
    {
        let mut i: usize = 0;
        while i < self.tags.len()
            invariant
                i <= self.tags.len(),
                forall|k: int|
                    0 <= k < i ==> !same_ignoring_case((#[trigger] self.tags@[k])@, tag@),
            decreases self.tags.len() - i,
        {
            if eq_ignore_case(self.tags[i].as_str(), tag) {
                return true;
            }
            i += 1;
        }
        false
    }

    /// The tags with blanks between.
    pub fn tags_string(&self) -> (s: String)
        ensures
            s@ == joined(self.tag_texts(), " "@),
    {
        join(&self.tags, " ")
    }

    pub fn set_tags_from_string(&mut self, tags_str: &str)
        ensures
            final(self).tag_texts() == words(tags_str@),
            *final(self) == (Metadata { tags: final(self).tags, ..*old(self) }),
    {
        self.tags = split_words(tags_str);
    }

    pub fn is_submitted(&self) -> (b: bool)
        ensures
            b == (self.beatmap_id > 0 && self.beatmap_set_id > 0),
    {
        self.beatmap_id > 0 && self.beatmap_set_id > 0
    }

    pub fn has_unicode(&self) -> (b: bool)
        ensures
            b == (self.title_unicode@.len() > 0 || self.artist_unicode@.len() > 0),
    {
        self.title_unicode.as_str().unicode_len() > 0 || self.artist_unicode.as_str().unicode_len()
            > 0
    }

    /// The section as it stands in a file: one line for each field.
    pub open spec fn text(&self) -> Seq<char> {
        "Title: "@ + self.title@ + "\nTitleUnicode: "@ + self.title_unicode@ + "\nArtist: "@
            + self.artist@ + "\nArtistUnicode: "@ + self.artist_unicode@ + "\nCreator: "@
            + self.creator@ + "\nVersion: "@ + self.version@ + "\nSource: "@ + self.source@
            + "\nTags: "@ + joined(self.tag_texts(), " "@) + "\nBeatmapID: "@ + decimal(
            self.beatmap_id as int,
        ) + "\nBeatmapSetID: "@ + decimal(self.beatmap_set_id as int)
    }

    pub fn to_str(&self) -> (s: String)
        ensures
            s@ == self.text(),
    {
        let mut s = String::new();
        s.append("Title: ");
        s.append(self.title.as_str());
        s.append("\nTitleUnicode: ");
        s.append(self.title_unicode.as_str());
        s.append("\nArtist: ");
        s.append(self.artist.as_str());
        s.append("\nArtistUnicode: ");
        s.append(self.artist_unicode.as_str());
        s.append("\nCreator: ");
        s.append(self.creator.as_str());
        s.append("\nVersion: ");
        s.append(self.version.as_str());
        s.append("\nSource: ");
        s.append(self.source.as_str());
        s.append("\nTags: ");
        s.append(self.tags_string().as_str());
        s.append("\nBeatmapID: ");
        append_decimal(&mut s, self.beatmap_id as i64);
        s.append("\nBeatmapSetID: ");
        append_decimal(&mut s, self.beatmap_set_id as i64);
        assert(s@ =~= self.text());
        s
    }
}

/// The text under `key`, or an empty string.
pub fn text_of(e: &Entries, key: &str) -> (s: String)
    ensures
        s@ == text_entry(e.view(), key@),
{
    match e.text(key) {
        Some(s) => s,
        None => {
            let s = String::new();
            assert(s@ =~= text_entry(e.view(), key@));
            s
        },
    }
}

} // verus!
