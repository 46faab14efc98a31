//! The `[General]` section.

use vstd::prelude::*;
use crate::models::common::GameMode;
use crate::models::osu::chart::OsuMode;
use crate::models::osu::metadata::{text_entry, text_of};
use crate::models::osu::sound::SampleSet;
use crate::utils::numbers::{append_fixed, fixed_text};
use crate::utils::sections::{
    entries, fixed_entry, flag_entry, i32_entry, is_text_option, lookup, optional_flag,
    optional_i32, read_entries, u8_entry,
};
use crate::utils::text::{
    append_decimal, decimal, join, joined, optional_text, push_optional, push_text, with_optional,
};

verus! {

#[derive(Debug, Clone, Copy, PartialEq, Eq, Structural)]
pub enum OverlayPosition {
    NoChange,
    Below,
    Above,
}

impl OverlayPosition {
    pub open spec fn name(self) -> Seq<char> {
        match self {
            OverlayPosition::NoChange => "NoChange"@,
            OverlayPosition::Below => "Below"@,
            OverlayPosition::Above => "Above"@,
        }
    }

    pub open spec fn named(s: Seq<char>) -> Option<OverlayPosition> {
        if s == "NoChange"@ {
            Some(OverlayPosition::NoChange)
        } else if s == "Below"@ {
            Some(OverlayPosition::Below)
        } else if s == "Above"@ {
            Some(OverlayPosition::Above)
        } else {
            None
        }
    }

    pub fn from_str(s: &str) -> (r: Result<OverlayPosition, String>)
        ensures
            match Self::named(s@) {
                Some(p) => r == Ok::<OverlayPosition, String>(p),
                None => r is Err && r->Err_0@ == "Invalid OverlayPosition: "@ + s@,
            },
    {
        let owned = s.to_owned();
        if owned == "NoChange".to_owned() {
            Ok(OverlayPosition::NoChange)
        } else if owned == "Below".to_owned() {
            Ok(OverlayPosition::Below)
        } else if owned == "Above".to_owned() {
            Ok(OverlayPosition::Above)
        } else {
            let mut m = String::new();
            m.append("Invalid OverlayPosition: ");
            m.append(s);
            assert(m@ =~= "Invalid OverlayPosition: "@ + s@);
            Err(m)
        }
    }

    pub fn to_string(&self) -> (s: String)
        ensures
            s@ == self.name(),
    {
        match self {
            OverlayPosition::NoChange => "NoChange".to_owned(),
            OverlayPosition::Below => "Below".to_owned(),
            OverlayPosition::Above => "Above".to_owned(),
        }
    }
}

/// `stack_leniency` is in thousandths.
#[derive(Debug, Clone)]
pub struct General {
    pub audio_filename: String,
    pub audio_lead_in: i32,
    pub preview_time: i32,
    pub countdown: i32,
    pub sample_set: SampleSet,
    pub stack_leniency: i64,
    pub mode: u8,
    pub letterbox_in_breaks: bool,
    pub special_style: bool,
    pub widescreen_storyboard: bool,
    pub audio_hash: Option<String>,
    pub story_fire_in_front: Option<bool>,
    pub use_skin_sprites: Option<bool>,
    pub always_show_playfield: Option<bool>,
    pub overlay_position: Option<OverlayPosition>,
    pub skin_preference: Option<String>,
    pub epilepsy_warning: Option<bool>,
    pub countdown_offset: Option<i32>,
    pub samples_match_playback_rate: Option<bool>,
}

/// The sample set under `SampleSet`, `Normal` where there is no such entry.
pub open spec fn sample_set_entry(e: Seq<(Seq<char>, Seq<char>)>) -> Result<SampleSet, Seq<char>> {
    match lookup(e, "SampleSet"@) {
        None => Ok(SampleSet::Normal),
        Some(value) => match SampleSet::named(value) {
            Some(set) => Ok(set),
            None => Err("Invalid SampleSet: "@ + value),
        },
    }
}

/// The overlay position under `OverlayPosition`, if there is such an entry.
pub open spec fn overlay_entry(e: Seq<(Seq<char>, Seq<char>)>) -> Result<
    Option<OverlayPosition>,
    Seq<char>,
> {
    match lookup(e, "OverlayPosition"@) {
        None => Ok(None),
        Some(value) => match OverlayPosition::named(value) {
            Some(p) => Ok(Some(p)),
            None => Err("Invalid OverlayPosition: "@ + value),
        },
    }
}

/// The message of a result that is an error.
pub open spec fn error_of<T>(r: Result<T, Seq<char>>) -> Option<Seq<char>> {
    match r {
        Ok(_) => None,
        Err(m) => Some(m),
    }
}

/// The first of the messages, in order.
pub open spec fn first_error(errors: Seq<Option<Seq<char>>>) -> Option<Seq<char>>
    decreases errors.len(),
{
    if errors.len() == 0 {
        None
    } else if errors[0] is Some {
        errors[0]
    } else {
        first_error(errors.drop_first())
    }
}

pub open spec fn on_off(b: bool) -> Seq<char> {
    if b {
        "1"@
    } else {
        "0"@
    }
}

impl Default for General {
    fn default() -> (g: Self)
        ensures
            g.is_default(),
    {
        Self {
            audio_filename: String::new(),
            audio_lead_in: 0,
            preview_time: -1,
            countdown: 1,
            sample_set: SampleSet::Normal,
            stack_leniency: 700,
            mode: 0,
            letterbox_in_breaks: false,
            special_style: false,
            widescreen_storyboard: false,
            audio_hash: None,
            story_fire_in_front: None,
            use_skin_sprites: None,
            always_show_playfield: None,
            overlay_position: None,
            skin_preference: None,
            epilepsy_warning: None,
            countdown_offset: None,
            samples_match_playback_rate: None,
        }
    }
}

impl General {
    pub open spec fn is_default(&self) -> bool {
        &&& self.audio_filename@.len() == 0
        &&& self.audio_lead_in == 0
        &&& self.preview_time == -1
        &&& self.countdown == 1
        &&& self.sample_set == SampleSet::Normal
        &&& self.stack_leniency == 700
        &&& self.mode == 0
        &&& !self.letterbox_in_breaks
        &&& !self.special_style
        &&& !self.widescreen_storyboard
        &&& self.audio_hash is None
        &&& self.story_fire_in_front is None
        &&& self.use_skin_sprites is None
        &&& self.always_show_playfield is None
        &&& self.overlay_position is None
        &&& self.skin_preference is None
        &&& self.epilepsy_warning is None
        &&& self.countdown_offset is None
        &&& self.samples_match_playback_rate is None
    }

    /// The messages of the entries, in the order in which they are read.
    pub open spec fn section_errors(e: Seq<(Seq<char>, Seq<char>)>) -> Seq<Option<Seq<char>>> {
        seq![
            error_of(i32_entry(e, "AudioLeadIn"@, 0)),
            error_of(i32_entry(e, "PreviewTime"@, -1i32)),
            error_of(i32_entry(e, "Countdown"@, 1)),
            error_of(sample_set_entry(e)),
            error_of(fixed_entry(e, "StackLeniency"@, 700)),
            error_of(u8_entry(e, "Mode"@, 0)),
            error_of(flag_entry(e, "LetterboxInBreaks"@, false)),
            error_of(flag_entry(e, "SpecialStyle"@, false)),
            error_of(flag_entry(e, "WidescreenStoryboard"@, false)),
            error_of(optional_flag(e, "StoryFireInFront"@)),
            error_of(optional_flag(e, "UseSkinSprites"@)),
            error_of(optional_flag(e, "AlwaysShowPlayfield"@)),
            error_of(overlay_entry(e)),
            error_of(optional_flag(e, "EpilepsyWarning"@)),
            error_of(optional_i32(e, "CountdownOffset"@, None)),
            error_of(optional_flag(e, "SamplesMatchPlaybackRate"@)),
        ]
    }

    /// `self` holds what the entries say, and defaults for the rest.
    pub open spec fn holds(&self, e: Seq<(Seq<char>, Seq<char>)>) -> bool {
        &&& self.audio_filename@ == text_entry(e, "AudioFilename"@)
        &&& Ok::<i32, Seq<char>>(self.audio_lead_in) == i32_entry(e, "AudioLeadIn"@, 0)
        &&& Ok::<i32, Seq<char>>(self.preview_time) == i32_entry(e, "PreviewTime"@, -1i32)
        &&& Ok::<i32, Seq<char>>(self.countdown) == i32_entry(e, "Countdown"@, 1)
        &&& Ok::<SampleSet, Seq<char>>(self.sample_set) == sample_set_entry(e)
        &&& Ok::<i64, Seq<char>>(self.stack_leniency) == fixed_entry(e, "StackLeniency"@, 700)
        &&& Ok::<u8, Seq<char>>(self.mode) == u8_entry(e, "Mode"@, 0)
        &&& Ok::<bool, Seq<char>>(self.letterbox_in_breaks) == flag_entry(
            e,
            "LetterboxInBreaks"@,
            false,
        )
        &&& Ok::<bool, Seq<char>>(self.special_style) == flag_entry(e, "SpecialStyle"@, false)
        &&& Ok::<bool, Seq<char>>(self.widescreen_storyboard) == flag_entry(
            e,
            "WidescreenStoryboard"@,
            false,
        )
        &&& is_text_option(self.audio_hash, lookup(e, "AudioHash"@))
        &&& Ok::<Option<bool>, Seq<char>>(self.story_fire_in_front) == optional_flag(
            e,
            "StoryFireInFront"@,
        )
        &&& Ok::<Option<bool>, Seq<char>>(self.use_skin_sprites) == optional_flag(
            e,
            "UseSkinSprites"@,
        )
        &&& Ok::<Option<bool>, Seq<char>>(self.always_show_playfield) == optional_flag(
            e,
            "AlwaysShowPlayfield"@,
        )
        &&& Ok::<Option<OverlayPosition>, Seq<char>>(self.overlay_position) == overlay_entry(e)
        &&& is_text_option(self.skin_preference, lookup(e, "SkinPreference"@))
        &&& Ok::<Option<bool>, Seq<char>>(self.epilepsy_warning) == optional_flag(
            e,
            "EpilepsyWarning"@,
        )
        &&& Ok::<Option<i32>, Seq<char>>(self.countdown_offset) == optional_i32(
            e,
            "CountdownOffset"@,
            None,
        )
        &&& Ok::<Option<bool>, Seq<char>>(self.samples_match_playback_rate) == optional_flag(
            e,
            "SamplesMatchPlaybackRate"@,
        )
    }

    /// Reads the section. The first entry that cannot be read is the error.
    pub fn from_str(s: &str) -> (r: Result<General, String>)
        ensures
            match r {
                Ok(g) => first_error(Self::section_errors(entries(s@))) is None && g.holds(
                    entries(s@),
                ),
                Err(msg) => first_error(Self::section_errors(entries(s@))) == Some(msg@),
            },
    {
        let e = read_entries(s);
        let ghost errors = Self::section_errors(e.view());
        proof {
            reveal_with_fuel(first_error, 17);
        }
        let audio_filename = text_of(&e, "AudioFilename");
        let audio_lead_in = match e.i32_value("AudioLeadIn", 0) {
            Ok(n) => n,
            Err(msg) => {
                return Err(msg);
            },
        };
        let preview_time = match e.i32_value("PreviewTime", -1) {
            Ok(n) => n,
            Err(msg) => {
                return Err(msg);
            },
        };
        let countdown = match e.i32_value("Countdown", 1) {
            Ok(n) => n,
            Err(msg) => {
                return Err(msg);
            },
        };
        let sample_set = match e.text("SampleSet") {
            None => SampleSet::Normal,
            Some(value) => match SampleSet::from_str(value.as_str()) {
                Ok(set) => set,
                Err(msg) => {
                    return Err(msg);
                },
            },
        };
        let stack_leniency = match e.fixed_value("StackLeniency", 700) {
            Ok(n) => n,
            Err(msg) => {
                return Err(msg);
            },
        };
        let mode = match e.u8_value("Mode", 0) {
            Ok(n) => n,
            Err(msg) => {
                return Err(msg);
            },
        };
        let letterbox_in_breaks = match e.flag_value("LetterboxInBreaks", false) {
            Ok(n) => n,
            Err(msg) => {
                return Err(msg);
            },
        };
        let special_style = match e.flag_value("SpecialStyle", false) {
            Ok(n) => n,
            Err(msg) => {
                return Err(msg);
            },
        };
        let widescreen_storyboard = match e.flag_value("WidescreenStoryboard", false) {
            Ok(n) => n,
            Err(msg) => {
                return Err(msg);
            },
        };
        let audio_hash = e.text("AudioHash");
        let story_fire_in_front = match e.optional_flag_value("StoryFireInFront") {
            Ok(n) => n,
            Err(msg) => {
                return Err(msg);
            },
        };
        let use_skin_sprites = match e.optional_flag_value("UseSkinSprites") {
            Ok(n) => n,
            Err(msg) => {
                return Err(msg);
            },
        };
        let always_show_playfield = match e.optional_flag_value("AlwaysShowPlayfield") {
            Ok(n) => n,
            Err(msg) => {
                return Err(msg);
            },
        };
        let overlay_position = match e.text("OverlayPosition") {
            None => None,
            Some(value) => match OverlayPosition::from_str(value.as_str()) {
                Ok(p) => Some(p),
                Err(msg) => {
                    return Err(msg);
                },
            },
        };
        let skin_preference = e.text("SkinPreference");
        let epilepsy_warning = match e.optional_flag_value("EpilepsyWarning") {
            Ok(n) => n,
            Err(msg) => {
                return Err(msg);
            },
        };
        let countdown_offset = match e.optional_i32_value("CountdownOffset", None) {
            Ok(n) => n,
            Err(msg) => {
                return Err(msg);
            },
        };
        let samples_match_playback_rate = match e.optional_flag_value("SamplesMatchPlaybackRate") {
            Ok(n) => n,
            Err(msg) => {
                return Err(msg);
            },
        };
        Ok(
            General {
                audio_filename,
                audio_lead_in,
                preview_time,
                countdown,
                sample_set,
                stack_leniency,
                mode,
                letterbox_in_breaks,
                special_style,
                widescreen_storyboard,
                audio_hash,
                story_fire_in_front,
                use_skin_sprites,
                always_show_playfield,
                overlay_position,
                skin_preference,
                epilepsy_warning,
                countdown_offset,
                samples_match_playback_rate,
            },
        )
    }

    pub open spec fn mode_text(&self) -> Seq<char> {
        if self.mode == 0 {
            "osu!"@
        } else if self.mode == 1 {
            "osu!taiko"@
        } else if self.mode == 2 {
            "osu!catch"@
        } else if self.mode == 3 {
            "osu!mania"@
        } else {
            "unknown"@
        }
    }

    pub fn get_mode_str(&self) -> (s: &'static str)
        ensures
            s@ == self.mode_text(),
    {
        if self.mode == 0 {
            "osu!"
        } else if self.mode == 1 {
            "osu!taiko"
        } else if self.mode == 2 {
            "osu!catch"
        } else if self.mode == 3 {
            "osu!mania"
        } else {
            "unknown"
        }
    }

    pub fn get_mode_osu(&self) -> (m: OsuMode)
        ensures
            m == if self.mode == 0 {
                OsuMode::Standard
            } else if self.mode == 1 {
                OsuMode::Taiko
            } else if self.mode == 2 {
                OsuMode::Catch
            } else if self.mode == 3 {
                OsuMode::Mania
            } else {
                OsuMode::Unknown
            },
    {
        if self.mode == 0 {
            OsuMode::Standard
        } else if self.mode == 1 {
            OsuMode::Taiko
        } else if self.mode == 2 {
            OsuMode::Catch
        } else if self.mode == 3 {
            OsuMode::Mania
        } else {
            OsuMode::Unknown
        }
    }

    /// The game mode; a mode number that names none counts as the standard
    /// mode.
    pub fn get_mode(&self) -> (m: GameMode)
        ensures
            m == if self.mode == 1 {
                GameMode::Taiko
            } else if self.mode == 2 {
                GameMode::Catch
            } else if self.mode == 3 {
                GameMode::Mania
            } else {
                GameMode::OsuStandard
            },
    {
        if self.mode == 1 {
            GameMode::Taiko
        } else if self.mode == 2 {
            GameMode::Catch
        } else if self.mode == 3 {
            GameMode::Mania
        } else {
            GameMode::OsuStandard
        }
    }

    pub fn is_osu_standard(&self) -> (b: bool)
        ensures
            b == (self.mode == 0),
    {
        self.mode == 0
    }

    pub fn is_taiko(&self) -> (b: bool)
        ensures
            b == (self.mode == 1),
    {
        self.mode == 1
    }

    pub fn is_catch(&self) -> (b: bool)
        ensures
            b == (self.mode == 2),
    {
        self.mode == 2
    }

    pub fn is_mania(&self) -> (b: bool)
        ensures
            b == (self.mode == 3),
    {
        self.mode == 3
    }

    /// The ten lines that every file has.
    pub open spec fn fixed_lines(&self) -> Seq<Seq<char>> {
        seq![
            "AudioFilename: "@ + self.audio_filename@,
            "AudioLeadIn: "@ + decimal(self.audio_lead_in as int),
            "PreviewTime: "@ + decimal(self.preview_time as int),
            "Countdown: "@ + decimal(self.countdown as int),
            "SampleSet: "@ + self.sample_set.name(),
            "StackLeniency: "@ + fixed_text(self.stack_leniency as int),
            "Mode: "@ + decimal(self.mode as int),
            "LetterboxInBreaks: "@ + on_off(self.letterbox_in_breaks),
            "SpecialStyle: "@ + on_off(self.special_style),
            "WidescreenStoryboard: "@ + on_off(self.widescreen_storyboard),
        ]
    }

    /// The lines of the section: the ten that every file has, then one for
    /// each optional setting that is there.
    pub open spec fn lines(&self) -> Seq<Seq<char>> {
        let l0 = self.fixed_lines();
        let l1 = with_optional(l0, named_text("AudioHash: "@, self.audio_hash));
        let l2 = with_optional(l1, named_flag("StoryFireInFront: "@, self.story_fire_in_front));
        let l3 = with_optional(l2, named_flag("UseSkinSprites: "@, self.use_skin_sprites));
        let l4 = with_optional(l3, named_flag("AlwaysShowPlayfield: "@, self.always_show_playfield));
        let l5 = with_optional(
            l4,
            match self.overlay_position {
                Some(p) => Some("OverlayPosition: "@ + p.name()),
                None => None,
            },
        );
        let l6 = with_optional(l5, named_text("SkinPreference: "@, self.skin_preference));
        let l7 = with_optional(l6, named_flag("EpilepsyWarning: "@, self.epilepsy_warning));
        let l8 = with_optional(l7, named_number("CountdownOffset: "@, self.countdown_offset));
        with_optional(
            l8,
            named_flag("SamplesMatchPlaybackRate: "@, self.samples_match_playback_rate),
        )
    }

    fn fixed_part(&self) -> (lines: Vec<String>)
        ensures
            lines.deep_view() == self.fixed_lines(),
    {
        let mut lines: Vec<String> = Vec::new();
        push_text(&mut lines, text_line("AudioFilename: ", self.audio_filename.as_str()));
        push_text(&mut lines, number_line("AudioLeadIn: ", self.audio_lead_in as i64));
        push_text(&mut lines, number_line("PreviewTime: ", self.preview_time as i64));
        push_text(&mut lines, number_line("Countdown: ", self.countdown as i64));
        push_text(&mut lines, text_line("SampleSet: ", self.sample_set.to_string().as_str()));
        push_text(&mut lines, fixed_line("StackLeniency: ", self.stack_leniency));
        push_text(&mut lines, number_line("Mode: ", self.mode as i64));
        push_text(&mut lines, flag_line("LetterboxInBreaks: ", self.letterbox_in_breaks));
        push_text(&mut lines, flag_line("SpecialStyle: ", self.special_style));
        push_text(&mut lines, flag_line("WidescreenStoryboard: ", self.widescreen_storyboard));
        assert(lines.deep_view() =~= self.fixed_lines());
        lines
    }

    pub fn to_str(&self) -> (s: String)
        ensures
            s@ == joined(self.lines(), "\n"@),
    {
        let mut lines = self.fixed_part();
        push_optional(&mut lines, optional_text_line("AudioHash: ", &self.audio_hash));
        push_optional(&mut lines, optional_flag_line("StoryFireInFront: ", self.story_fire_in_front));
        push_optional(&mut lines, optional_flag_line("UseSkinSprites: ", self.use_skin_sprites));
        push_optional(
            &mut lines,
            optional_flag_line("AlwaysShowPlayfield: ", self.always_show_playfield),
        );
        let overlay = match self.overlay_position {
            Some(p) => Some(text_line("OverlayPosition: ", p.to_string().as_str())),
            None => None,
        };
        push_optional(&mut lines, overlay);
        push_optional(&mut lines, optional_text_line("SkinPreference: ", &self.skin_preference));
        push_optional(&mut lines, optional_flag_line("EpilepsyWarning: ", self.epilepsy_warning));
        push_optional(&mut lines, optional_number_line("CountdownOffset: ", self.countdown_offset));
        push_optional(
            &mut lines,
            optional_flag_line("SamplesMatchPlaybackRate: ", self.samples_match_playback_rate),
        );
        join(&lines, "\n")
    }
}

/// The line of a name and a text, if there is a text.
pub open spec fn named_text(name: Seq<char>, value: Option<String>) -> Option<Seq<char>> {
    match value {
        Some(v) => Some(name + v@),
        None => None,
    }
}

/// The line of a name and a flag, if there is a flag.
pub open spec fn named_flag(name: Seq<char>, value: Option<bool>) -> Option<Seq<char>> {
    match value {
        Some(b) => Some(name + on_off(b)),
        None => None,
    }
}

/// The line of a name and a whole number, if there is a number.
pub open spec fn named_number(name: Seq<char>, value: Option<i32>) -> Option<Seq<char>> {
    match value {
        Some(n) => Some(name + decimal(n as int)),
        None => None,
    }
}

/// The line of a name and a number in thousandths, if there is a number.
pub open spec fn named_fixed(name: Seq<char>, value: Option<i64>) -> Option<Seq<char>> {
    match value {
        Some(n) => Some(name + fixed_text(n as int)),
        None => None,
    }
}

pub fn optional_text_line(name: &str, value: &Option<String>) -> (s: Option<String>)
    ensures
        optional_text(s) == named_text(name@, *value),
{
    match value {
        Some(v) => Some(text_line(name, v.as_str())),
        None => None,
    }
}

pub fn optional_flag_line(name: &str, value: Option<bool>) -> (s: Option<String>)
    ensures
        optional_text(s) == named_flag(name@, value),
{
    match value {
        Some(b) => Some(flag_line(name, b)),
        None => None,
    }
}

pub fn optional_number_line(name: &str, value: Option<i32>) -> (s: Option<String>)
    ensures
        optional_text(s) == named_number(name@, value),
{
    match value {
        Some(n) => Some(number_line(name, n as i64)),
        None => None,
    }
}

pub fn optional_fixed_line(name: &str, value: Option<i64>) -> (s: Option<String>)
    ensures
        optional_text(s) == named_fixed(name@, value),
{
    match value {
        Some(n) => Some(fixed_line(name, n)),
        None => None,
    }
}

/// A line of a name and a text.
pub fn text_line(name: &str, value: &str) -> (s: String)
    ensures
        s@ == name@ + value@,
{
    let mut s = String::new();
    s.append(name);
    s.append(value);
    assert(s@ =~= name@ + value@);
    s
}

/// A line of a name and a whole number.
pub fn number_line(name: &str, value: i64) -> (s: String)
    ensures
        s@ == name@ + decimal(value as int),
{
    let mut s = String::new();
    s.append(name);
    append_decimal(&mut s, value);
    assert(s@ =~= name@ + decimal(value as int));
    s
}

/// A line of a name and a number in thousandths.
pub fn fixed_line(name: &str, value: i64) -> (s: String)
    ensures
        s@ == name@ + fixed_text(value as int),
{
    let mut s = String::new();
    s.append(name);
    append_fixed(&mut s, value);
    assert(s@ =~= name@ + fixed_text(value as int));
    s
}

/// A line of a name and a flag, written 1 or 0.
pub fn flag_line(name: &str, value: bool) -> (s: String)
    ensures
        s@ == name@ + on_off(value),
{
    let mut s = String::new();
    s.append(name);
    if value {
        s.append("1");
    } else {
        s.append("0");
    }
    assert(s@ =~= name@ + on_off(value));
    s
}

} // verus!
