//! The whole file of the INI-like format.

use vstd::prelude::*;
use crate::models::generic::sound::SoundBank;
use crate::models::osu::difficulty::Difficulty;
use crate::models::osu::editor::Editor;
use crate::models::osu::events::Events;
use crate::models::osu::general::General;
use crate::models::osu::hitobjects::{
    banked_lines, lines_in, samples_through, HitObjects, LineStyle,
};
use crate::models::osu::metadata::Metadata;
use crate::models::osu::timing_points::{point_lines, TimingPoints};
use crate::utils::text::joined;

verus! {

/// The game modes of the format.
#[derive(Debug, Clone, Copy, PartialEq, Eq, Structural)]
pub enum OsuMode {
    Standard,
    Taiko,
    Catch,
    Mania,
    Unknown,
}

impl OsuMode {
    pub open spec fn name(self) -> Seq<char> {
        match self {
            OsuMode::Standard => "osu!"@,
            OsuMode::Taiko => "osu!taiko"@,
            OsuMode::Catch => "osu!catch"@,
            OsuMode::Mania => "osu!mania"@,
            OsuMode::Unknown => "unknown"@,
        }
    }

    pub fn to_string(&self) -> (s: String)
        ensures
            s@ == self.name(),
    {
        match self {
            OsuMode::Standard => "osu!".to_owned(),
            OsuMode::Taiko => "osu!taiko".to_owned(),
            OsuMode::Catch => "osu!catch".to_owned(),
            OsuMode::Mania => "osu!mania".to_owned(),
            OsuMode::Unknown => "unknown".to_owned(),
        }
    }
}

#[derive(Debug, Clone)]
pub struct OsuFile {
    pub general: General,
    pub editor: Option<Editor>,
    pub metadata: Metadata,
    pub difficulty: Difficulty,
    pub events: Events,
    pub timing_points: TimingPoints,
    pub hitobjects: HitObjects,
}

impl OsuFile {
    /// The editor section with its header, if there is one.
    pub open spec fn editor_block(&self) -> Seq<char> {
        match self.editor {
            Some(e) => "[Editor]\n"@ + joined(e.lines(), "\n"@) + "\n\n"@,
            None => Seq::empty(),
        }
    }

    /// The file up to its hit objects: the version line, then each section
    /// under its header, the editor section only if there is one.
    pub open spec fn text_before_objects(&self) -> Seq<char> {
        "osu file format v14\n\n[General]\n"@ + joined(self.general.lines(), "\n"@)
            + "\n\n"@ + self.editor_block() + "[Metadata]\n"@ + self.metadata.text()
            + "\n\n[Difficulty]\n"@ + self.difficulty.text() + "\n\n[Events]\n"@
            + self.events.text() + "\n[TimingPoints]\n"@ + joined(
            point_lines(self.timing_points.timing_points@),
            "\n"@,
        ) + "\n\n[HitObjects]\n"@
    }

    /// The file with its hit objects written in a style.
    pub open spec fn text_in(&self, style: LineStyle) -> Seq<char> {
        self.text_before_objects() + joined(lines_in(self.hitobjects.hit_objects@, style), "\n"@)
    }

    /// The file in the mania mode when a bank keeps the samples.
    pub open spec fn banked_text(&self) -> Seq<char> {
        self.text_before_objects() + joined(banked_lines(self.hitobjects.hit_objects@), "\n"@)
    }

    fn editor_text(&self) -> (s: String)
        ensures
            s@ == self.editor_block(),
    {
        match &self.editor {
            Some(e) => {
                let mut s = "[Editor]\n".to_owned();
                s.append(e.to_str().as_str());
                s.append("\n\n");
                s
            },
            None => {
                let s = String::new();
                assert(s@ =~= self.editor_block());
                s
            },
        }
    }

    fn before_objects(&self) -> (s: String)
        ensures
            s@ == self.text_before_objects(),
    {
        let mut s = "osu file format v14\n\n[General]\n".to_owned();
        s.append(self.general.to_str().as_str());
        s.append("\n\n");
        s.append(self.editor_text().as_str());
        s.append("[Metadata]\n");
        s.append(self.metadata.to_str().as_str());
        s.append("\n\n[Difficulty]\n");
        s.append(self.difficulty.to_str().as_str());
        s.append("\n\n[Events]\n");
        s.append(self.events.to_str().as_str());
        s.append("\n[TimingPoints]\n");
        s.append(self.timing_points.to_osu_format().as_str());
        s.append("\n\n[HitObjects]\n");
        s
    }

    pub fn to_osu_format_taiko(&self) -> (s: String)
        ensures
            s@ == self.text_in(LineStyle::Taiko),
    {
        let mut s = self.before_objects();
        s.append(self.hitobjects.to_osu_format_taiko().as_str());
        s
    }

    pub fn to_osu_format_catch(&self) -> (s: String)
        ensures
            s@ == self.text_in(LineStyle::Catch),
    {
        let mut s = self.before_objects();
        s.append(self.hitobjects.to_osu_format_catch().as_str());
        s
    }

    /// The file in the mania mode, with the samples of the objects kept in
    /// the bank.
    pub fn to_osu_format_mania(&self, soundbank: &mut SoundBank) -> (s: String)
        ensures
            s@ == self.banked_text(),
            final(soundbank).samples() == samples_through(
                self.hitobjects.hit_objects@,
                old(soundbank).samples(),
            ),
            final(soundbank).audio_tracks == old(soundbank).audio_tracks,
            final(soundbank).sound_effects == old(soundbank).sound_effects,
    {
        let mut s = self.before_objects();
        s.append(self.hitobjects.to_osu_format_mania(soundbank).as_str());
        s
    }

    pub fn to_osu_format_mania_no_soundbank(&self) -> (s: String)
        ensures
            s@ == self.text_in(LineStyle::Mania),
    {
        let mut s = self.before_objects();
        s.append(self.hitobjects.to_osu_format_mania_no_soundbank().as_str());
        s
    }

    /// The file in the standard mode, which writes the hit objects as they
    /// are.
    pub fn to_osu_format_standard(&self) -> (s: String)
        ensures
            s@ == self.text_in(LineStyle::Plain),
    {
        self.to_osu_format()
    }

    pub fn to_osu_format(&self) -> (s: String)
        ensures
            s@ == self.text_in(LineStyle::Plain),
    {
        let mut s = self.before_objects();
        s.append(self.hitobjects.to_osu_format().as_str());
        s
    }
}

} // verus!
