//! From the model of the JSON-based format to the canonical chart.

use vstd::prelude::*;
use crate::errors::ChartError;
use crate::models::common::{Key, KeyType, TimingChangeType};
use crate::models::fluxis::chart::{highest_lane, FscFile};
use crate::models::fluxis::hitobjects::{clamp_to_i32, clamped, HitObject as FscHitObject};
use crate::models::fluxis::metadata::preferred;
use crate::models::fluxis::timing_points::{ScrollVelocity, TimingPoint};
use crate::models::generic::chart::GenericManiaChart;
use crate::models::generic::chartinfo::ChartInfo;
use crate::models::generic::hitobjects::{HitObject, HitObjects};
use crate::models::generic::metadata::Metadata;
use crate::models::generic::sound::{HitSoundType, KeySound};
use crate::models::generic::timing_points::TimingPoints;
use crate::models::ordered::{insertions, lemma_insertions_sorted, times_sorted};
use crate::models::timeline::{
    stamped, tempo_pairs, TimelineOps, TimelineTimingPoint, TimingPointTimeline,
};
use crate::utils::rhythm::{beat_at, tempos_valid, TempoMap};
use crate::utils::text::{split, split_trimmed, trimmed};

verus! {

pub open spec fn tempo_item(p: TimingPoint) -> TimelineTimingPoint {
    TimelineTimingPoint { time: p.time, value: p.bpm, change_type: TimingChangeType::Bpm }
}

pub open spec fn velocity_item(v: ScrollVelocity) -> TimelineTimingPoint {
    TimelineTimingPoint { time: v.time, value: v.multiplier, change_type: TimingChangeType::Sv }
}

/// The notes that one note of the file becomes: nothing for a tick note, the
/// start and the end of a long note, or a tap. Beats are those of a map
/// without stops.
pub open spec fn notes_of(h: FscHitObject, bps: Seq<(i32, i64)>, offset: int) -> Seq<HitObject> {
    let end = clamped(h.time + h.holdtime);
    let plain = KeySound::plain(100, HitSoundType::Normal);
    if h.holdtime > 0 && h.is_tick == 0 {
        seq![
            HitObject {
                time: h.time,
                beat: beat_at(bps, Seq::empty(), offset, h.time as int) as i64,
                keysound: plain,
                key: Key { key_type: KeyType::SliderStart, slider_end_time: Some(end) },
                lane: h.lane as u8,
            },
            HitObject {
                time: end,
                beat: beat_at(bps, Seq::empty(), offset, end as int) as i64,
                keysound: plain,
                key: Key { key_type: KeyType::SliderEnd, slider_end_time: None },
                lane: h.lane as u8,
            },
        ]
    } else if h.is_tick == 1 {
        Seq::empty()
    } else {
        seq![
            HitObject {
                time: h.time,
                beat: beat_at(bps, Seq::empty(), offset, h.time as int) as i64,
                keysound: plain,
                key: Key { key_type: KeyType::Normal, slider_end_time: None },
                lane: h.lane as u8,
            },
        ]
    }
}

/// The notes that the notes of the file become, in file order.
pub open spec fn all_notes_of(
    hs: Seq<FscHitObject>,
    bps: Seq<(i32, i64)>,
    offset: int,
) -> Seq<HitObject>
    decreases hs.len(),
{
    if hs.len() == 0 {
        Seq::empty()
    } else {
        all_notes_of(hs.drop_last(), bps, offset) + notes_of(hs.last(), bps, offset)
    }
}

/// Puts the tempo changes on the timeline and sets the audio offset to the
/// time of the first of them, or to 0 if there is none.
pub fn process_timing_points(
    timing_points: &Vec<TimingPoint>,
    chartinfo: &mut ChartInfo,
    timeline: &mut TimingPointTimeline,
)
    requires
        old(timeline).state().sorted,
        old(timeline).state().wf(),
    ensures
        final(timeline).state().sorted,
        final(timeline).state().wf(),
        final(timeline).state().items == insertions(
            old(timeline).state().items,
            timing_points@.map_values(|p: TimingPoint| tempo_item(p)),
        ),
        *final(chartinfo) == (ChartInfo {
            audio_offset: if final(timeline).state().items.len() == 0 {
                0
            } else {
                final(timeline).state().items[0].time
            },
            ..*old(chartinfo)
        }),
{
    let ghost items = timing_points@.map_values(|p: TimingPoint| tempo_item(p));
    let mut i: usize = 0;
    assert(items.subrange(0, 0) =~= Seq::<TimelineTimingPoint>::empty());
    while i < timing_points.len()
        invariant
            i <= timing_points.len(),
            items == timing_points@.map_values(|p: TimingPoint| tempo_item(p)),
            timeline.state().sorted,
            timeline.state().wf(),
            timeline.state().items == insertions(
                old(timeline).state().items,
                items.subrange(0, i as int),
            ),
        decreases timing_points.len() - i,
    {
        let p = timing_points[i];
        assert(items.subrange(0, i + 1).drop_last() =~= items.subrange(0, i as int));
        timeline.add_sorted(
            TimelineTimingPoint { time: p.time, value: p.bpm, change_type: TimingChangeType::Bpm },
        );
        i += 1;
    }
    assert(items.subrange(0, i as int) =~= items);
    chartinfo.audio_offset = timeline.first_time();
}

/// Puts the scroll velocities on the timeline.
pub fn process_sv(slider_velocities: &Vec<ScrollVelocity>, timeline: &mut TimingPointTimeline)
    requires
        old(timeline).state().sorted,
        old(timeline).state().wf(),
    ensures
        final(timeline).state().sorted,
        final(timeline).state().wf(),
        final(timeline).state().items == insertions(
            old(timeline).state().items,
            slider_velocities@.map_values(|v: ScrollVelocity| velocity_item(v)),
        ),
{
    let ghost items = slider_velocities@.map_values(|v: ScrollVelocity| velocity_item(v));
    let mut i: usize = 0;
    assert(items.subrange(0, 0) =~= Seq::<TimelineTimingPoint>::empty());
    while i < slider_velocities.len()
        invariant
            i <= slider_velocities.len(),
            items == slider_velocities@.map_values(|v: ScrollVelocity| velocity_item(v)),
            timeline.state().sorted,
            timeline.state().wf(),
            timeline.state().items == insertions(
                old(timeline).state().items,
                items.subrange(0, i as int),
            ),
        decreases slider_velocities.len() - i,
    {
        let v = &slider_velocities[i];
        assert(items.subrange(0, i + 1).drop_last() =~= items.subrange(0, i as int));
        timeline.add_sorted(
            TimelineTimingPoint { time: v.time, value: v.multiplier, change_type: TimingChangeType::Sv },
        );
        i += 1;
    }
    assert(items.subrange(0, i as int) =~= items);
}

/// Puts the notes of the file into the note list, each at its place in time
/// and with its beat. Tick notes are left out.
pub fn process_notes(
    fluxis_hitobjects: &Vec<FscHitObject>,
    hitobjects: &mut HitObjects,
    map: &TempoMap,
)
    requires
        times_sorted(old(hitobjects).objects@),
        map.stops() == Seq::<(i32, i64)>::empty(),
        forall|i: int|
            0 <= i < fluxis_hitobjects@.len() ==> 1 <= (#[trigger] fluxis_hitobjects@[i]).lane
                <= 255,
    ensures
        final(hitobjects).objects@ == insertions(
            old(hitobjects).objects@,
            all_notes_of(fluxis_hitobjects@, map.breakpoints(), map.offset()),
        ),
{
    let ghost bps = map.breakpoints();
    let ghost offset = map.offset();
    let ghost base = hitobjects.objects@;
    let mut i: usize = 0;
    assert(fluxis_hitobjects@.subrange(0, 0) =~= Seq::<FscHitObject>::empty());
    proof {
        lemma_insertions_sorted(base, Seq::<HitObject>::empty());
    }
    while i < fluxis_hitobjects.len()
        invariant
            i <= fluxis_hitobjects.len(),
            bps == map.breakpoints(),
            offset == map.offset(),
            map.stops() == Seq::<(i32, i64)>::empty(),
            forall|k: int|
                0 <= k < fluxis_hitobjects@.len() ==> 1 <= (#[trigger] fluxis_hitobjects@[k]).lane
                    <= 255,
            times_sorted(hitobjects.objects@),
            hitobjects.objects@ == insertions(
                base,
                all_notes_of(fluxis_hitobjects@.subrange(0, i as int), bps, offset),
            ),
        decreases fluxis_hitobjects.len() - i,
    {
        let h = &fluxis_hitobjects[i];
        let ghost done = all_notes_of(fluxis_hitobjects@.subrange(0, i as int), bps, offset);
        let ghost new = notes_of(*h, bps, offset);
        proof {
            assert(fluxis_hitobjects@.subrange(0, i + 1).drop_last()
                =~= fluxis_hitobjects@.subrange(0, i as int));
            assert(fluxis_hitobjects@.subrange(0, i + 1).last() == *h);
            assert(1 <= fluxis_hitobjects@[i as int].lane <= 255);
        }
        let lane = h.lane as u8;
        let beat = map.beat_from_time(h.time);
        let keysound = KeySound::of_type(100, HitSoundType::Normal);
        if h.is_ln() {
            let end = clamp_to_i32(h.end_time());
            let end_beat = map.beat_from_time(end);
            let first = HitObject {
                time: h.time,
                beat,
                keysound,
                key: Key::slider_start(Some(end)),
                lane,
            };
            let second = HitObject { time: end, beat: end_beat, keysound, key: Key::slider_end(), lane };
            assert(new =~= seq![first, second]);
            hitobjects.add_hitobject_sorted(first);
            proof {
                assert(done.push(first).drop_last() =~= done);
                assert(done.push(first).last() == first);
                assert(hitobjects.objects@ == insertions(base, done.push(first)));
            }
            hitobjects.add_hitobject_sorted(second);
            proof {
                assert(done + new =~= done.push(first).push(second));
                assert(done.push(first).push(second).drop_last() =~= done.push(first));
                assert(done.push(first).push(second).last() == second);
                assert(hitobjects.objects@ == insertions(base, done + new));
            }
        } else if h.is_tick() {
            assert(done + new =~= done);
        } else {
            let only = HitObject { time: h.time, beat, keysound, key: Key::normal(), lane };
            assert(new =~= seq![only]);
            hitobjects.add_hitobject_sorted(only);
            proof {
                assert(done + new =~= done.push(only));
                assert(done.push(only).drop_last() =~= done);
                assert(done.push(only).last() == only);
                assert(hitobjects.objects@ == insertions(base, done + new));
            }
        }
        i += 1;
    }
    assert(fluxis_hitobjects@.subrange(0, i as int) =~= fluxis_hitobjects@);
}

/// The timeline of the file: its tempo changes, then its scroll velocities,
/// each inserted at its place in time.
pub open spec fn timeline_of(file: FscFile) -> Seq<TimelineTimingPoint> {
    insertions(
        insertions(
            Seq::<TimelineTimingPoint>::empty(),
            file.timing_points@.map_values(|p: TimingPoint| tempo_item(p)),
        ),
        file.scroll_velocities@.map_values(|v: ScrollVelocity| velocity_item(v)),
    )
}

/// The audio offset of the file: the time of its earliest tempo change.
pub open spec fn audio_offset_of(file: FscFile) -> int {
    let tempos = insertions(
        Seq::<TimelineTimingPoint>::empty(),
        file.timing_points@.map_values(|p: TimingPoint| tempo_item(p)),
    );
    if tempos.len() == 0 {
        0
    } else {
        tempos[0].time as int
    }
}

/// Why the file cannot become a chart, if it cannot: it has no tempo change,
/// a note in a lane below 1, more than 255 lanes, or a tempo that no tempo
/// map accepts.
pub open spec fn conversion_error(file: FscFile) -> Option<ChartError> {
    if file.timing_points@.len() == 0 {
        Some(ChartError::EmptyChart)
    } else if file.has_lane_below_one() {
        Some(ChartError::LaneOutOfRange)
    } else if highest_lane(file.hit_objects@, 4) > 255 {
        Some(ChartError::UnsupportedKeyCount)
    } else if !tempos_valid(tempo_pairs(timeline_of(file))) {
        Some(ChartError::InvalidTempo)
    } else {
        None
    }
}

pub open spec fn text_or(s: Option<String>, otherwise: Seq<char>) -> Seq<char> {
    match s {
        Some(s) => s@,
        None => otherwise,
    }
}

pub open spec fn value_or(v: Option<i64>, otherwise: i64) -> i64 {
    match v {
        Some(v) => v,
        None => otherwise,
    }
}

/// `chart` is the chart of `file`. The beats of the timing points count from
/// the earliest tempo change, those of the notes from the first tempo change
/// in the file.
pub open spec fn converted(file: FscFile, chart: GenericManiaChart) -> bool {
    let bps = tempo_pairs(timeline_of(file));
    &&& chart.metadata.title@ == file.metadata.title@
    &&& chart.metadata.alt_title@ == preferred(file.metadata.title_rm, file.metadata.title)
    &&& chart.metadata.artist@ == file.metadata.artist@
    &&& chart.metadata.alt_artist@ == preferred(file.metadata.artist_rm, file.metadata.artist)
    &&& chart.metadata.source@ == text_or(file.metadata.source, "Unknown Source"@)
    &&& chart.metadata.creator@ == file.metadata.mapper@
    &&& chart.metadata.tags.deep_view() == split(file.metadata.tags@, ',').map_values(
        |p: Seq<char>| trimmed(p),
    )
    &&& chart.metadata.genre@.len() == 0
    &&& chart.chartinfo.song_path@ == file.audio_file@
    &&& chart.chartinfo.bg_path@ == file.background_file@
    &&& chart.chartinfo.video_path@ == file.video_file@
    &&& chart.chartinfo.difficulty_name@ == file.metadata.difficulty@
    &&& chart.chartinfo.preview_time == file.metadata.previewtime
    &&& chart.chartinfo.audio_offset == audio_offset_of(file)
    &&& chart.chartinfo.od == value_or(file.accuracy_difficulty, 8000)
    &&& chart.chartinfo.hp == value_or(file.health_difficulty, 8000)
    &&& chart.chartinfo.key_count == highest_lane(file.hit_objects@, 4)
    &&& chart.timings() == timeline_of(file).map_values(
        |p: TimelineTimingPoint| stamped(p, bps, audio_offset_of(file)),
    )
    &&& chart.notes() == insertions(
        Seq::<HitObject>::empty(),
        all_notes_of(file.hit_objects@, bps, file.timing_points@[0].time as int),
    )
    &&& chart.soundbank is None
}

proof fn lemma_highest_lane(notes: Seq<FscHitObject>, otherwise: int, i: int)
    requires
        0 <= i < notes.len(),
    ensures
        notes[i].lane <= highest_lane(notes, otherwise),
    decreases notes.len(),
{
    if notes.len() > 1 {
        if i < notes.len() - 1 {
            lemma_highest_lane(notes.drop_last(), otherwise, i);
            assert(notes.drop_last()[i] == notes[i]);
        }
    }
}

/// Converts a file of the JSON-based format into the canonical chart.
pub fn from_fsc(file: &FscFile) -> (r: Result<GenericManiaChart, ChartError>)
    ensures
        match conversion_error(*file) {
            Some(e) => r is Err && r->Err_0 == e,
            None => r is Ok && converted(*file, r->Ok_0),
        },
{
    if file.timing_points.len() == 0 {
        return Err(ChartError::EmptyChart);
    }
    let n = file.hit_objects.len();
    let mut j: usize = 0;
    while j < n
        invariant
            j <= n,
            n == file.hit_objects@.len(),
            file.timing_points@.len() > 0,
            forall|k: int| 0 <= k < j ==> (#[trigger] file.hit_objects@[k]).lane >= 1,
        decreases n - j,
    {
        if file.hit_objects[j].lane < 1 {
            assert(file.hit_objects@[j as int].lane < 1);
            return Err(ChartError::LaneOutOfRange);
        }
        j += 1;
    }
    let key_count = file.key_count();
    if key_count > 255 {
        return Err(ChartError::UnsupportedKeyCount);
    }
    proof {
        assert forall|i: int| 0 <= i < file.hit_objects@.len() implies 1 <= (
        #[trigger] file.hit_objects@[i]).lane <= 255 by {
            lemma_highest_lane(file.hit_objects@, 4, i);
        }
        if n > 0 {
            lemma_highest_lane(file.hit_objects@, 4, 0);
        }
    }
    let mut metadata = Metadata::empty();
    metadata.title = file.metadata.title.clone();
    metadata.alt_title = file.metadata.display_title();
    metadata.artist = file.metadata.artist.clone();
    metadata.alt_artist = file.metadata.display_artist();
    metadata.source = match &file.metadata.source {
        Some(s) => s.clone(),
        None => "Unknown Source".to_owned(),
    };
    metadata.tags = split_trimmed(file.metadata.tags.as_str(), ',');
    metadata.creator = file.metadata.mapper.clone();
    let mut chartinfo = ChartInfo::empty();
    chartinfo.song_path = file.audio_file.clone();
    chartinfo.preview_time = file.metadata.previewtime;
    chartinfo.bg_path = file.background_file.clone();
    chartinfo.video_path = file.video_file.clone();
    chartinfo.key_count = key_count as u8;
    chartinfo.difficulty_name = file.metadata.difficulty.clone();
    chartinfo.od = match file.accuracy_difficulty {
        Some(v) => v,
        None => 8000,
    };
    chartinfo.hp = match file.health_difficulty {
        Some(v) => v,
        None => 8000,
    };
    let offset = file.timing_points[0].time;
    let mut timeline = TimingPointTimeline::with_capacity(64);
    process_timing_points(&file.timing_points, &mut chartinfo, &mut timeline);
    process_sv(&file.scroll_velocities, &mut timeline);
    let mut timing_points = TimingPoints::with_capacity(64);
    match timeline.to_timing_points(&mut timing_points, chartinfo.audio_offset) {
        Ok(()) => {},
        Err(_) => {
            return Err(ChartError::InvalidTempo);
        },
    }
    let map = match timeline.tempo_map(offset) {
        Ok(map) => map,
        Err(_) => {
            return Err(ChartError::InvalidTempo);
        },
    };
    let mut hitobjects = HitObjects::with_capacity(2048);
    assert(hitobjects.objects@ =~= Seq::<HitObject>::empty());
    process_notes(&file.hit_objects, &mut hitobjects, &map);
    let chart = GenericManiaChart::new(metadata, chartinfo, timing_points, hitobjects, None);
    proof {
        assert(chart.timings() =~= timeline_of(*file).map_values(
            |p: TimelineTimingPoint| stamped(p, tempo_pairs(timeline_of(*file)), audio_offset_of(*file)),
        ));
    }
    Ok(chart)
}

} // verus!
