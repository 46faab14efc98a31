//! From the INI-like format to the canonical chart.

use vstd::prelude::*;
use crate::errors::ChartError;
use crate::models::common::{GameMode, Key, KeyType, TimingChangeType};
use crate::models::fluxis::hitobjects::clamped;
use crate::models::generic::chart::GenericManiaChart;
use crate::models::generic::chartinfo::ChartInfo;
use crate::models::generic::hitobjects::{HitObject, HitObjects};
use crate::models::generic::metadata::Metadata;
use crate::models::generic::sound::{HitSoundType, KeySound, SoundBank};
use crate::models::generic::timing_points::{TimingChange, TimingPoint, TimingPoints};
use crate::models::ordered::{insertions, lemma_insertions_sorted, times_sorted};
use crate::models::osu::chart::{OsuFile, OsuMode};
use crate::models::osu::difficulty::Difficulty;
use crate::models::osu::editor::Editor;
use crate::models::osu::events::{is_text, Events, EventsSoFar};
use crate::models::osu::general::{first_error, General};
use crate::models::osu::hitobjects::{
    first_line_error, HitObject as OsuHitObject, HitObjects as OsuHitObjects,
};
use crate::models::osu::metadata::Metadata as OsuMetadata;
use crate::models::osu::timing_points::{
    parsed_points, TimingPoint as OsuTimingPoint, TimingPoints as OsuTimingPoints,
};
use crate::utils::rhythm::{beat_at, tempos_valid, TempoMap};
use crate::utils::sections::{
    entries, last_section, lookup, pair_texts, process_bracket_sections, sections_of,
    trimmed_lines,
};

verus! {

/// Whether a section of the given name and content can be read. Sections
/// with other names than the seven of the format are passed over.
#[verifier::opaque]
pub open spec fn section_ok(name: Seq<char>, content: Seq<char>) -> bool {
    if name == "General"@ {
        first_error(General::section_errors(entries(content))) is None
    } else if name == "Editor"@ {
        first_error(Editor::section_errors(entries(content))) is None
    } else if name == "Metadata"@ {
        OsuMetadata::section_error(entries(content)) is None
    } else if name == "Difficulty"@ {
        first_error(Difficulty::section_errors(entries(content))) is None
    } else if name == "Events"@ {
        EventsSoFar::nothing().with_lines(trimmed_lines(content)) is Ok
    } else if name == "TimingPoints"@ {
        parsed_points(trimmed_lines(content)) is Ok
    } else if name == "HitObjects"@ {
        first_line_error(trimmed_lines(content)) is None
    } else {
        true
    }
}

/// Every section can be read.
pub open spec fn all_sections_ok(sections: Seq<(Seq<char>, Seq<char>)>) -> bool {
    forall|i: int|
        0 <= i < sections.len() ==> section_ok((#[trigger] sections[i]).0, sections[i].1)
}

/// The general part holds what the last `General` section says, or the
/// defaults.
#[verifier::opaque]
pub open spec fn general_part(g: General, sections: Seq<(Seq<char>, Seq<char>)>) -> bool {
    match lookup(sections, "General"@) {
        Some(c) => g.holds(entries(c)),
        None => g.is_default(),
    }
}

#[verifier::opaque]
pub open spec fn editor_part(e: Option<Editor>, sections: Seq<(Seq<char>, Seq<char>)>) -> bool {
    &&& e is Some
    &&& match lookup(sections, "Editor"@) {
        Some(c) => e->0.holds(entries(c)),
        None => e->0.holds(Seq::empty()),
    }
}

#[verifier::opaque]
pub open spec fn metadata_part(m: OsuMetadata, sections: Seq<(Seq<char>, Seq<char>)>) -> bool {
    match lookup(sections, "Metadata"@) {
        Some(c) => m.holds(entries(c)),
        None => m.is_blank(),
    }
}

#[verifier::opaque]
pub open spec fn difficulty_part(d: Difficulty, sections: Seq<(Seq<char>, Seq<char>)>) -> bool {
    match lookup(sections, "Difficulty"@) {
        Some(c) => d.holds(entries(c)),
        None => d.holds(Seq::empty()),
    }
}

#[verifier::opaque]
pub open spec fn events_part(e: Events, sections: Seq<(Seq<char>, Seq<char>)>) -> bool {
    match lookup(sections, "Events"@) {
        Some(c) => EventsSoFar::nothing().with_lines(trimmed_lines(c)) == Ok::<
            EventsSoFar,
            Seq<char>,
        >(e.so_far()) && e.raw_events@ == c,
        None => e.is_blank(),
    }
}

#[verifier::opaque]
pub open spec fn timing_part(t: OsuTimingPoints, sections: Seq<(Seq<char>, Seq<char>)>) -> bool {
    match lookup(sections, "TimingPoints"@) {
        Some(c) => parsed_points(trimmed_lines(c)) == Ok::<Seq<OsuTimingPoint>, Seq<char>>(
            t.timing_points@,
        ),
        None => t.timing_points@.len() == 0,
    }
}

/// The hit objects are read in the mania mode.
#[verifier::opaque]
pub open spec fn objects_part(h: OsuHitObjects, sections: Seq<(Seq<char>, Seq<char>)>) -> bool {
    match lookup(sections, "HitObjects"@) {
        Some(c) => h.reads_from(trimmed_lines(c), OsuMode::Mania),
        None => h.hit_objects@.len() == 0,
    }
}

/// `file` holds what the sections say: each part is read from the last
/// section of its name, and is at its default where there is no such section.
pub open spec fn file_holds(file: OsuFile, sections: Seq<(Seq<char>, Seq<char>)>) -> bool {
    &&& general_part(file.general, sections)
    &&& editor_part(file.editor, sections)
    &&& metadata_part(file.metadata, sections)
    &&& difficulty_part(file.difficulty, sections)
    &&& events_part(file.events, sections)
    &&& timing_part(file.timing_points, sections)
    &&& objects_part(file.hitobjects, sections)
}

/// Whether a section can be read.
fn section_reads(name: &String, content: &str) -> (ok: bool)
    ensures
        ok == section_ok(name@, content@),
{
    reveal(section_ok);
    if is_text(name, "General") {
        General::from_str(content).is_ok()
    } else if is_text(name, "Editor") {
        Editor::from_str(content).is_ok()
    } else if is_text(name, "Metadata") {
        OsuMetadata::from_str(content).is_ok()
    } else if is_text(name, "Difficulty") {
        Difficulty::from_str(content).is_ok()
    } else if is_text(name, "Events") {
        Events::from_str(content).is_ok()
    } else if is_text(name, "TimingPoints") {
        OsuTimingPoints::from_str(content).is_ok()
    } else if is_text(name, "HitObjects") {
        OsuHitObjects::from_str_with_mode(content, &OsuMode::Mania).is_ok()
    } else {
        true
    }
}

/// The names of the seven sections differ from each other.
proof fn lemma_names_differ()
    ensures
        "General"@.len() == 7,
        "Editor"@.len() == 6,
        "Metadata"@.len() == 8,
        "Difficulty"@.len() == 10,
        "Events"@.len() == 6,
        "TimingPoints"@.len() == 12,
        "HitObjects"@.len() == 10,
        "Editor"@[1] != "Events"@[1],
        "Difficulty"@[0] != "HitObjects"@[0],
{
    reveal_strlit("General");
    reveal_strlit("Editor");
    reveal_strlit("Metadata");
    reveal_strlit("Difficulty");
    reveal_strlit("Events");
    reveal_strlit("TimingPoints");
    reveal_strlit("HitObjects");
}

/// Where one section cannot be read, not all can.
proof fn lemma_bad_section(sections: Seq<(String, String)>, k: int)
    requires
        0 <= k < sections.len(),
        !section_ok(pair_texts(sections)[k].0, pair_texts(sections)[k].1),
    ensures
        !all_sections_ok(pair_texts(sections)),
{
}

fn read_general(sections: &Vec<(String, String)>) -> (r: Option<General>)
    ensures
        r is Some ==> general_part(r->0, pair_texts(sections@)),
        r is None ==> !all_sections_ok(pair_texts(sections@)),
{
    reveal(general_part);
    match last_section(sections, "General") {
        Some(k) => match General::from_str(sections[k].1.as_str()) {
            Ok(g) => Some(g),
            Err(_) => {
                proof {
                    reveal(section_ok);
                    assert(pair_texts(sections@)[k as int] == (
                        sections@[k as int].0@,
                        sections@[k as int].1@,
                    ));
                    assert(!section_ok("General"@, sections@[k as int].1@));
                    lemma_bad_section(sections@, k as int);
                }
                None
            },
        },
        None => Some(General::default()),
    }
}

fn read_editor(sections: &Vec<(String, String)>) -> (r: Option<Editor>)
    ensures
        r is Some ==> editor_part(r, pair_texts(sections@)),
        r is None ==> !all_sections_ok(pair_texts(sections@)),
{
    reveal(editor_part);
    match last_section(sections, "Editor") {
        Some(k) => match Editor::from_str(sections[k].1.as_str()) {
            Ok(e) => Some(e),
            Err(_) => {
                proof {
                    reveal(section_ok);
                    lemma_names_differ();
                    assert(pair_texts(sections@)[k as int] == (
                        sections@[k as int].0@,
                        sections@[k as int].1@,
                    ));
                    assert(!section_ok("Editor"@, sections@[k as int].1@));
                    lemma_bad_section(sections@, k as int);
                }
                None
            },
        },
        None => {
            let e = Editor::default();
            assert(e.bookmarks@ =~= Seq::<i32>::empty());
            Some(e)
        },
    }
}

fn read_metadata(sections: &Vec<(String, String)>) -> (r: Option<OsuMetadata>)
    ensures
        r is Some ==> metadata_part(r->0, pair_texts(sections@)),
        r is None ==> !all_sections_ok(pair_texts(sections@)),
{
    reveal(metadata_part);
    match last_section(sections, "Metadata") {
        Some(k) => match OsuMetadata::from_str(sections[k].1.as_str()) {
            Ok(m) => Some(m),
            Err(_) => {
                proof {
                    reveal(section_ok);
                    lemma_names_differ();
                    assert(pair_texts(sections@)[k as int] == (
                        sections@[k as int].0@,
                        sections@[k as int].1@,
                    ));
                    assert(!section_ok("Metadata"@, sections@[k as int].1@));
                    lemma_bad_section(sections@, k as int);
                }
                None
            },
        },
        None => Some(OsuMetadata::default()),
    }
}

fn read_difficulty(sections: &Vec<(String, String)>) -> (r: Option<Difficulty>)
    ensures
        r is Some ==> difficulty_part(r->0, pair_texts(sections@)),
        r is None ==> !all_sections_ok(pair_texts(sections@)),
{
    reveal(difficulty_part);
    match last_section(sections, "Difficulty") {
        Some(k) => match Difficulty::from_str(sections[k].1.as_str()) {
            Ok(d) => Some(d),
            Err(_) => {
                proof {
                    reveal(section_ok);
                    lemma_names_differ();
                    assert(pair_texts(sections@)[k as int] == (
                        sections@[k as int].0@,
                        sections@[k as int].1@,
                    ));
                    assert(!section_ok("Difficulty"@, sections@[k as int].1@));
                    lemma_bad_section(sections@, k as int);
                }
                None
            },
        },
        None => Some(Difficulty::default()),
    }
}

fn read_events(sections: &Vec<(String, String)>) -> (r: Option<Events>)
    ensures
        r is Some ==> events_part(r->0, pair_texts(sections@)),
        r is None ==> !all_sections_ok(pair_texts(sections@)),
{
    reveal(events_part);
    match last_section(sections, "Events") {
        Some(k) => match Events::from_str(sections[k].1.as_str()) {
            Ok(e) => Some(e),
            Err(_) => {
                proof {
                    reveal(section_ok);
                    lemma_names_differ();
                    assert(pair_texts(sections@)[k as int] == (
                        sections@[k as int].0@,
                        sections@[k as int].1@,
                    ));
                    assert(!section_ok("Events"@, sections@[k as int].1@));
                    lemma_bad_section(sections@, k as int);
                }
                None
            },
        },
        None => Some(Events::default()),
    }
}

fn read_timing(sections: &Vec<(String, String)>) -> (r: Option<OsuTimingPoints>)
    ensures
        r is Some ==> timing_part(r->0, pair_texts(sections@)),
        r is None ==> !all_sections_ok(pair_texts(sections@)),
{
    reveal(timing_part);
    match last_section(sections, "TimingPoints") {
        Some(k) => match OsuTimingPoints::from_str(sections[k].1.as_str()) {
            Ok(t) => Some(t),
            Err(_) => {
                proof {
                    reveal(section_ok);
                    lemma_names_differ();
                    assert(pair_texts(sections@)[k as int] == (
                        sections@[k as int].0@,
                        sections@[k as int].1@,
                    ));
                    assert(!section_ok("TimingPoints"@, sections@[k as int].1@));
                    lemma_bad_section(sections@, k as int);
                }
                None
            },
        },
        None => Some(OsuTimingPoints::default()),
    }
}

fn read_objects(sections: &Vec<(String, String)>) -> (r: Option<OsuHitObjects>)
    ensures
        r is Some ==> objects_part(r->0, pair_texts(sections@)),
        r is None ==> !all_sections_ok(pair_texts(sections@)),
{
    reveal(objects_part);
    match last_section(sections, "HitObjects") {
        Some(k) => match OsuHitObjects::from_str_with_mode(
            sections[k].1.as_str(),
            &OsuMode::Mania,
        ) {
            Ok(h) => Some(h),
            Err(_) => {
                proof {
                    reveal(section_ok);
                    lemma_names_differ();
                    assert(pair_texts(sections@)[k as int] == (
                        sections@[k as int].0@,
                        sections@[k as int].1@,
                    ));
                    assert(!section_ok("HitObjects"@, sections@[k as int].1@));
                    lemma_bad_section(sections@, k as int);
                }
                None
            },
        },
        None => Some(OsuHitObjects::default()),
    }
}

/// Reads a file of the INI-like format.
pub fn from_osu(raw_chart: &str) -> (r: Result<OsuFile, ChartError>)
    ensures
        r is Ok <==> all_sections_ok(sections_of(raw_chart@)),
        r is Err ==> r->Err_0 == ChartError::MalformedText,
        r is Ok ==> file_holds(r->Ok_0, sections_of(raw_chart@)),
{
    let sections = process_bracket_sections(raw_chart);
    let ghost all = pair_texts(sections@);
    let mut i: usize = 0;
    while i < sections.len()
        invariant
            i <= sections.len(),
            all == pair_texts(sections@),
            all == sections_of(raw_chart@),
            forall|k: int| 0 <= k < i ==> section_ok((#[trigger] all[k]).0, all[k].1),
        decreases sections.len() - i,
    {
        assert(all[i as int] == (sections@[i as int].0@, sections@[i as int].1@));
        if !section_reads(&sections[i].0, sections[i].1.as_str()) {
            return Err(ChartError::MalformedText);
        }
        i += 1;
    }
    let general = match read_general(&sections) {
        Some(g) => g,
        None => {
            return Err(ChartError::MalformedText);
        },
    };
    let editor = match read_editor(&sections) {
        Some(e) => e,
        None => {
            return Err(ChartError::MalformedText);
        },
    };
    let metadata = match read_metadata(&sections) {
        Some(m) => m,
        None => {
            return Err(ChartError::MalformedText);
        },
    };
    let difficulty = match read_difficulty(&sections) {
        Some(d) => d,
        None => {
            return Err(ChartError::MalformedText);
        },
    };
    let events = match read_events(&sections) {
        Some(e) => e,
        None => {
            return Err(ChartError::MalformedText);
        },
    };
    let timing_points = match read_timing(&sections) {
        Some(t) => t,
        None => {
            return Err(ChartError::MalformedText);
        },
    };
    let hitobjects = match read_objects(&sections) {
        Some(h) => h,
        None => {
            return Err(ChartError::MalformedText);
        },
    };
    Ok(
        OsuFile {
            general,
            editor: Some(editor),
            metadata,
            difficulty,
            events,
            timing_points,
            hitobjects,
        },
    )
}

/// Checks that a chart is for the mania mode.
pub fn validate_mode_mania(mode: GameMode) -> (r: Result<bool, ChartError>)
    ensures
        r == if mode == GameMode::Mania {
            Ok::<bool, ChartError>(true)
        } else {
            Err::<bool, ChartError>(ChartError::InvalidMode)
        },
{
    match mode {
        GameMode::Mania => Ok(true),
        _ => Err(ChartError::InvalidMode),
    }
}

/// The lane count that a circle size stands for: its whole part, no less
/// than 0 and no more than 255.
pub open spec fn lanes_of(circle_size: i64) -> u8 {
    if circle_size < 1000 {
        0
    } else if circle_size / 1000 > 255 {
        255
    } else {
        (circle_size / 1000) as u8
    }
}

/// Some uninherited timing point sets no tempo: its beat length is not
/// positive.
pub open spec fn has_unset_tempo(points: Seq<OsuTimingPoint>) -> bool {
    exists|i: int|
        0 <= i < points.len() && (#[trigger] points[i]).uninherited && points[i].beat_length <= 0
}

/// The value of a timing point in the chart: its tempo or its scroll
/// velocity. An inherited point that sets no velocity stands for the
/// velocity 1. An uninherited point that sets no tempo stands for the tempo
/// 0, which no chart carries: a file with such a point is refused.
pub open spec fn change_of(p: OsuTimingPoint) -> TimingChange {
    if p.uninherited {
        TimingChange {
            change_type: TimingChangeType::Bpm,
            value: match p.tempo() {
                Some(t) => t,
                None => 0,
            },
        }
    } else {
        TimingChange {
            change_type: TimingChangeType::Sv,
            value: match p.velocity() {
                Some(v) => v,
                None => 1000,
            },
        }
    }
}

/// The tempo breakpoints `(time, bpm)` of the uninherited timing points, in
/// file order.
pub open spec fn tempo_pairs_of(points: Seq<OsuTimingPoint>) -> Seq<(i32, i64)>
    decreases points.len(),
{
    if points.len() == 0 {
        Seq::empty()
    } else if points.last().uninherited {
        tempo_pairs_of(points.drop_last()).push(
            (time_ms_of(points.last().time), change_of(points.last()).value),
        )
    } else {
        tempo_pairs_of(points.drop_last())
    }
}

/// A time in thousandths of a millisecond as whole milliseconds, cut off
/// towards 0 and kept within an `i32`.
pub open spec fn time_ms_of(time: i64) -> i32 {
    clamped(
        if time >= 0 {
            time / 1000
        } else {
            -((-time) / 1000)
        },
    )
}

/// The time of beat position 0: that of the first tempo breakpoint, or 0.
pub open spec fn start_of(pairs: Seq<(i32, i64)>) -> i32 {
    if pairs.len() == 0 {
        0
    } else {
        pairs[0].0
    }
}

/// The timing point of the chart for a timing point of the file.
pub open spec fn point_of(p: OsuTimingPoint, bps: Seq<(i32, i64)>, offset: int) -> TimingPoint {
    TimingPoint {
        time: time_ms_of(p.time),
        beat: beat_at(bps, Seq::empty(), offset, time_ms_of(p.time) as int) as i64,
        change: change_of(p),
    }
}

/// The notes that a hit object becomes when the bank holds `samples`: the
/// start and the end of a long note for a hold, a tap for a circle, nothing
/// for anything else. The lane is the column counted from 1.
pub open spec fn notes_of(
    h: OsuHitObject,
    samples: Seq<Seq<char>>,
    bps: Seq<(i32, i64)>,
    offset: int,
    key_count: u8,
) -> Seq<HitObject> {
    let time = h.whole_ms();
    let lane = (h.column(key_count) + 1) as u8;
    let beat = beat_at(bps, Seq::empty(), offset, time as int) as i64;
    if h.object_type & 128 != 0 {
        let end = match h.end() {
            Some(e) => e,
            None => time,
        };
        seq![
            HitObject {
                time,
                beat,
                keysound: h.keysound_in(samples),
                key: Key { key_type: KeyType::SliderStart, slider_end_time: Some(end) },
                lane,
            },
            HitObject {
                time: end,
                beat: beat_at(bps, Seq::empty(), offset, end as int) as i64,
                keysound: KeySound::plain(100, HitSoundType::Normal),
                key: Key { key_type: KeyType::SliderEnd, slider_end_time: None },
                lane,
            },
        ]
    } else if h.object_type & 1 == 1 {
        seq![
            HitObject {
                time,
                beat,
                keysound: h.keysound_in(samples),
                key: Key { key_type: KeyType::Normal, slider_end_time: None },
                lane,
            },
        ]
    } else {
        Seq::empty()
    }
}

/// The notes that the hit objects become, in file order, when the bank holds
/// `samples` to begin with and takes up the samples of the objects as they
/// come.
pub open spec fn all_notes_of(
    hs: Seq<OsuHitObject>,
    samples: Seq<Seq<char>>,
    bps: Seq<(i32, i64)>,
    offset: int,
    key_count: u8,
) -> Seq<HitObject>
    decreases hs.len(),
{
    if hs.len() == 0 {
        Seq::empty()
    } else {
        all_notes_of(hs.drop_last(), samples, bps, offset, key_count) + notes_of(
            hs.last(),
            crate::models::osu::hitobjects::samples_through(hs.drop_last(), samples),
            bps,
            offset,
            key_count,
        )
    }
}

/// Why the file cannot become a chart, if it cannot: it is for another mode,
/// it has no lanes, an uninherited timing point has a beat length that is
/// not positive, or its tempos are such as no tempo map accepts.
pub open spec fn conversion_error(file: OsuFile) -> Option<ChartError> {
    if file.general.mode != 3 {
        Some(ChartError::InvalidMode)
    } else if lanes_of(file.difficulty.circle_size) == 0 {
        Some(ChartError::UnsupportedKeyCount)
    } else if has_unset_tempo(file.timing_points.timing_points@) || !tempos_valid(
        tempo_pairs_of(file.timing_points.timing_points@),
    ) {
        Some(ChartError::InvalidTempo)
    } else {
        None
    }
}

/// `chart` is the chart of `file`.
pub open spec fn converted(file: OsuFile, chart: GenericManiaChart) -> bool {
    let bps = tempo_pairs_of(file.timing_points.timing_points@);
    let offset = start_of(bps) as int;
    let key_count = lanes_of(file.difficulty.circle_size);
    &&& chart.metadata.title@ == file.metadata.title@
    &&& chart.metadata.alt_title@ == if file.metadata.title_unicode@.len() > 0 {
        file.metadata.title_unicode@
    } else {
        file.metadata.title@
    }
    &&& chart.metadata.artist@ == file.metadata.artist@
    &&& chart.metadata.alt_artist@ == if file.metadata.artist_unicode@.len() > 0 {
        file.metadata.artist_unicode@
    } else {
        file.metadata.artist@
    }
    &&& chart.metadata.creator@ == file.metadata.creator@
    &&& chart.metadata.source@ == file.metadata.source@
    &&& chart.metadata.tags.deep_view() == file.metadata.tags.deep_view()
    &&& chart.metadata.genre@.len() == 0
    &&& chart.chartinfo.song_path@ == file.general.audio_filename@
    &&& chart.chartinfo.preview_time == file.general.preview_time
    &&& chart.chartinfo.difficulty_name@ == file.metadata.version@
    &&& chart.chartinfo.od == file.difficulty.overall_difficulty
    &&& chart.chartinfo.hp == file.difficulty.hp_drain_rate
    &&& chart.chartinfo.key_count == key_count
    &&& chart.chartinfo.audio_offset == offset
    &&& chart.chartinfo.bg_path@ == match file.events.background {
        Some(b) => b.filename@,
        None => Seq::empty(),
    }
    &&& chart.chartinfo.video_path@ == match file.events.video {
        Some(v) => v.filename@,
        None => Seq::empty(),
    }
    &&& chart.timings() == file.timing_points.timing_points@.map_values(
        |p: OsuTimingPoint| point_of(p, bps, offset),
    )
    &&& chart.notes() == insertions(
        Seq::<HitObject>::empty(),
        all_notes_of(file.hitobjects.hit_objects@, Seq::empty(), bps, offset, key_count),
    )
    &&& chart.soundbank is Some
    &&& chart.soundbank->0.audio_tracks.deep_view() == seq![file.general.audio_filename@]
    &&& chart.soundbank->0.sound_effects@.len() == 0
    &&& chart.soundbank->0.samples() == crate::models::osu::hitobjects::samples_through(
        file.hitobjects.hit_objects@,
        Seq::empty(),
    )
}

fn lanes(circle_size: i64) -> (n: u8)
    ensures
        n == lanes_of(circle_size),
{
    if circle_size < 1000 {
        0
    } else if circle_size / 1000 > 255 {
        255
    } else {
        (circle_size / 1000) as u8
    }
}

fn change(p: &OsuTimingPoint) -> (c: TimingChange)
    ensures
        c == change_of(*p),
{
    if p.uninherited {
        let value = match p.bpm() {
            Some(t) => t,
            None => 0,
        };
        TimingChange { change_type: TimingChangeType::Bpm, value }
    } else {
        let value = match p.slider_velocity_multiplier() {
            Some(v) => v,
            None => 1000,
        };
        TimingChange { change_type: TimingChangeType::Sv, value }
    }
}

fn tempo_table(points: &Vec<OsuTimingPoint>) -> (r: Option<Vec<(i32, i64)>>)
    ensures
        r is None <==> has_unset_tempo(points@),
        r is Some ==> r->0@ == tempo_pairs_of(points@),
{
    let mut pairs: Vec<(i32, i64)> = Vec::new();
    let mut i: usize = 0;
    while i < points.len()
        invariant
            i <= points.len(),
            pairs@ == tempo_pairs_of(points@.subrange(0, i as int)),
            forall|k: int|
                0 <= k < i ==> !((#[trigger] points@[k]).uninherited && points@[k].beat_length
                    <= 0),
        decreases points.len() - i,
    {
        assert(points@.subrange(0, i + 1).drop_last() =~= points@.subrange(0, i as int));
        let p = &points[i];
        if p.uninherited {
            if p.beat_length <= 0 {
                assert(points@[i as int].uninherited && points@[i as int].beat_length <= 0);
                return None;
            }
            pairs.push((p.time_ms(), change(p).value));
        }
        i += 1;
    }
    assert(points@.subrange(0, i as int) =~= points@);
    Some(pairs)
}

fn stamp_points(points: &Vec<OsuTimingPoint>, map: &TempoMap) -> (out: TimingPoints)
    requires
        map.stops() == Seq::<(i32, i64)>::empty(),
    ensures
        out.points@ == points@.map_values(
            |p: OsuTimingPoint| point_of(p, map.breakpoints(), map.offset()),
        ),
{
    let mut out = TimingPoints::with_capacity(points.len());
    let mut i: usize = 0;
    assert(out.points@ =~= points@.subrange(0, 0).map_values(
        |p: OsuTimingPoint| point_of(p, map.breakpoints(), map.offset()),
    ));
    while i < points.len()
        invariant
            i <= points.len(),
            map.stops() == Seq::<(i32, i64)>::empty(),
            out.points@ == points@.subrange(0, i as int).map_values(
                |p: OsuTimingPoint| point_of(p, map.breakpoints(), map.offset()),
            ),
        decreases points.len() - i,
    {
        let p = &points[i];
        let time = p.time_ms();
        out.add(time, map.beat_from_time(time), change(p));
        i += 1;
        assert(out.points@ =~= points@.subrange(0, i as int).map_values(
            |p: OsuTimingPoint| point_of(p, map.breakpoints(), map.offset()),
        ));
    }
    assert(points@.subrange(0, i as int) =~= points@);
    out
}

fn place_notes(
    objects: &Vec<OsuHitObject>,
    hitobjects: &mut HitObjects,
    soundbank: &mut SoundBank,
    map: &TempoMap,
    key_count: u8,
)
    requires
        old(hitobjects).objects@ == Seq::<HitObject>::empty(),
        map.stops() == Seq::<(i32, i64)>::empty(),
        key_count > 0,
    ensures
        final(hitobjects).objects@ == insertions(
            Seq::<HitObject>::empty(),
            all_notes_of(
                objects@,
                old(soundbank).samples(),
                map.breakpoints(),
                map.offset(),
                key_count,
            ),
        ),
        final(soundbank).samples() == crate::models::osu::hitobjects::samples_through(
            objects@,
            old(soundbank).samples(),
        ),
        final(soundbank).audio_tracks == old(soundbank).audio_tracks,
        final(soundbank).sound_effects == old(soundbank).sound_effects,
{
    let ghost bps = map.breakpoints();
    let ghost offset = map.offset();
    let ghost base = Seq::<HitObject>::empty();
    let ghost samples0 = soundbank.samples();
    let mut i: usize = 0;
    proof {
        assert(objects@.subrange(0, 0) =~= Seq::<OsuHitObject>::empty());
        lemma_insertions_sorted(base, Seq::<HitObject>::empty());
        assert(base + Seq::<HitObject>::empty() =~= base);
    }
    while i < objects.len()
        invariant
            i <= objects.len(),
            bps == map.breakpoints(),
            offset == map.offset(),
            map.stops() == Seq::<(i32, i64)>::empty(),
            key_count > 0,
            base == Seq::<HitObject>::empty(),
            times_sorted(hitobjects.objects@),
            hitobjects.objects@ == insertions(
                base,
                all_notes_of(objects@.subrange(0, i as int), samples0, bps, offset, key_count),
            ),
            soundbank.samples() == crate::models::osu::hitobjects::samples_through(
                objects@.subrange(0, i as int),
                samples0,
            ),
            soundbank.audio_tracks == old(soundbank).audio_tracks,
            soundbank.sound_effects == old(soundbank).sound_effects,
        decreases objects.len() - i,
    {
        let h = &objects[i];
        let ghost done = all_notes_of(
            objects@.subrange(0, i as int),
            samples0,
            bps,
            offset,
            key_count,
        );
        let ghost new = notes_of(*h, soundbank.samples(), bps, offset, key_count);
        proof {
            assert(objects@.subrange(0, i + 1).drop_last() =~= objects@.subrange(0, i as int));
            assert(objects@.subrange(0, i + 1).last() == *h);
        }
        let time = h.time_ms();
        let column = h.mania_column(key_count);
        let lane = column + 1;
        let beat = map.beat_from_time(time);
        let keysound = h.get_generic_keysound(soundbank);
        if h.is_hold() {
            let end = match h.end_time() {
                Some(e) => e,
                None => time,
            };
            let end_beat = map.beat_from_time(end);
            let first = HitObject { time, beat, keysound, key: Key::slider_start(Some(end)), lane };
            let second = HitObject {
                time: end,
                beat: end_beat,
                keysound: KeySound::of_type(100, HitSoundType::Normal),
                key: Key::slider_end(),
                lane,
            };
            assert(new =~= seq![first, second]);
            hitobjects.add_hitobject_sorted(first);
            proof {
                assert(done.push(first).drop_last() =~= done);
                assert(done.push(first).last() == first);
                assert(hitobjects.objects@ == insertions(base, done.push(first)));
            }
            hitobjects.add_hitobject_sorted(second);
            proof {
                assert(done + new =~= done.push(first).push(second));
                assert(done.push(first).push(second).drop_last() =~= done.push(first));
                assert(done.push(first).push(second).last() == second);
                assert(hitobjects.objects@ == insertions(base, done + new));
            }
        } else if h.is_normal() {
            let only = HitObject { time, beat, keysound, key: Key::normal(), lane };
            assert(new =~= seq![only]);
            hitobjects.add_hitobject_sorted(only);
            proof {
                assert(done + new =~= done.push(only));
                assert(done.push(only).drop_last() =~= done);
                assert(done.push(only).last() == only);
                assert(hitobjects.objects@ == insertions(base, done + new));
            }
        } else {
            assert(done + new =~= done);
        }
        i += 1;
    }
    assert(objects@.subrange(0, i as int) =~= objects@);
}

/// Converts a file of the INI-like format into the canonical chart.
pub fn osu_to_generic(file: &OsuFile) -> (r: Result<GenericManiaChart, ChartError>)
    ensures
        match conversion_error(*file) {
            Some(e) => r is Err && r->Err_0 == e,
            None => r is Ok && converted(*file, r->Ok_0),
        },
{
    match validate_mode_mania(file.general.get_mode()) {
        Ok(_) => {},
        Err(e) => {
            return Err(e);
        },
    }
    let key_count = lanes(file.difficulty.circle_size);
    if key_count == 0 {
        return Err(ChartError::UnsupportedKeyCount);
    }
    let pairs = match tempo_table(&file.timing_points.timing_points) {
        Some(pairs) => pairs,
        None => {
            return Err(ChartError::InvalidTempo);
        },
    };
    let start_time = if pairs.len() == 0 {
        0
    } else {
        pairs[0].0
    };
    let no_stops: Vec<(i32, i64)> = Vec::new();
    let map = match TempoMap::new(&pairs, &no_stops, start_time) {
        Ok(map) => map,
        Err(e) => {
            return Err(ChartError::InvalidTempo);
        },
    };
    assert(map.stops() =~= Seq::<(i32, i64)>::empty());
    let mut metadata = Metadata::empty();
    metadata.title = file.metadata.title.clone();
    metadata.alt_title = file.metadata.display_title().to_owned();
    metadata.artist = file.metadata.artist.clone();
    metadata.alt_artist = file.metadata.display_artist().to_owned();
    metadata.creator = file.metadata.creator.clone();
    metadata.tags = copy_texts(&file.metadata.tags);
    metadata.source = file.metadata.source.clone();
    let mut chartinfo = ChartInfo::empty();
    chartinfo.song_path = file.general.audio_filename.clone();
    chartinfo.preview_time = file.general.preview_time;
    chartinfo.difficulty_name = file.metadata.version.clone();
    chartinfo.od = file.difficulty.overall_difficulty;
    chartinfo.hp = file.difficulty.hp_drain_rate;
    chartinfo.key_count = key_count;
    chartinfo.audio_offset = start_time;
    match &file.events.background {
        Some(bg) => {
            chartinfo.bg_path = bg.filename.clone();
        },
        None => {},
    }
    match &file.events.video {
        Some(video) => {
            chartinfo.video_path = video.filename.clone();
        },
        None => {},
    }
    let timing_points = stamp_points(&file.timing_points.timing_points, &map);
    let mut hitobjects = HitObjects::with_capacity(file.hitobjects.count());
    let mut soundbank = SoundBank::new();
    let ghost tracks = soundbank.audio_tracks;
    let track = chartinfo.song_path.clone();
    soundbank.audio_tracks.push(track);
    proof {
        crate::utils::text::lemma_texts_push(tracks, soundbank.audio_tracks, track);
        assert(soundbank.audio_tracks.deep_view() =~= seq![file.general.audio_filename@]);
        assert(soundbank.samples() =~= Seq::<Seq<char>>::empty());
        assert(hitobjects.objects@ =~= Seq::<HitObject>::empty());
    }
    place_notes(&file.hitobjects.hit_objects, &mut hitobjects, &mut soundbank, &map, key_count);
    let chart = GenericManiaChart::new(
        metadata,
        chartinfo,
        timing_points,
        hitobjects,
        Some(soundbank),
    );
    proof {
        assert(chart.chartinfo.bg_path@ =~= match file.events.background {
            Some(b) => b.filename@,
            None => Seq::<char>::empty(),
        });
        assert(chart.chartinfo.video_path@ =~= match file.events.video {
            Some(v) => v.filename@,
            None => Seq::<char>::empty(),
        });
    }
    Ok(chart)
}

fn copy_texts(v: &Vec<String>) -> (out: Vec<String>)
    ensures
        out.deep_view() == v.deep_view(),
{
    let mut out: Vec<String> = Vec::new();
    let mut i: usize = 0;
    while i < v.len()
        invariant
            i <= v.len(),
            out@.len() == i,
            forall|k: int| 0 <= k < i ==> (#[trigger] out@[k])@ == v@[k]@,
        decreases v.len() - i,
    {
        out.push(v[i].clone());
        i += 1;
    }
    assert(out.deep_view() =~= v.deep_view());
    out
}

/// Reads a file of the INI-like format and converts it into the canonical
/// chart: what `from_osu` and then `osu_to_generic` give.
pub fn from_osu_generic(raw_chart: &str) -> (r: Result<GenericManiaChart, ChartError>)
    ensures
        !all_sections_ok(sections_of(raw_chart@)) ==> r is Err && r->Err_0
            == ChartError::MalformedText,
        all_sections_ok(sections_of(raw_chart@)) ==> exists|file: OsuFile|
            file_holds(file, sections_of(raw_chart@)) && match #[trigger] conversion_error(file) {
                Some(e) => r is Err && r->Err_0 == e,
                None => r is Ok && converted(file, r->Ok_0),
            },
{
    let file = match from_osu(raw_chart) {
        Ok(file) => file,
        Err(e) => {
            return Err(e);
        },
    };
    let r = osu_to_generic(&file);
    proof {
        assert(file_holds(file, sections_of(raw_chart@)) && match conversion_error(file) {
            Some(e) => r is Err && r->Err_0 == e,
            None => r is Ok && converted(file, r->Ok_0),
        });
    }
    r
}

} // verus!
