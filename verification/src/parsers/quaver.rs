//! From the model of the YAML-based format to the canonical chart.

use vstd::prelude::*;
use crate::errors::ChartError;
use crate::models::common::{Key, KeyType, TimingChangeType};
use crate::models::generic::chart::GenericManiaChart;
use crate::models::generic::chartinfo::ChartInfo;
use crate::models::generic::hitobjects::{HitObject, HitObjects};
use crate::models::generic::metadata::Metadata;
use crate::models::generic::sound::{
    first_index_of, HitSoundType, KeySound, SoundBank, SoundEffect,
};
use crate::models::generic::timing_points::TimingPoints;
use crate::models::ordered::{insertions, lemma_insertions_sorted, times_sorted};
use crate::models::quaver::chart::QuaFile;
use crate::models::quaver::hitobjects::HitObject as QuaHitObject;
use crate::models::quaver::sound::{AudioSample, SoundEffect as QuaSoundEffect};
use crate::models::quaver::timing_points::{SliderVelocity, TimingPoint};
use crate::models::timeline::{
    stamped, tempo_pairs, TimelineOps, TimelineTimingPoint, TimingPointTimeline,
};
use crate::models::osu::events::is_text;
use crate::utils::rhythm::{beat_at, tempos_valid, TempoMap};
use crate::utils::text::{split, split_text};

verus! {

/// The lane count that a mode name declares.
pub open spec fn key_count_of_mode(mode: Seq<char>) -> Option<u8> {
    if mode == "Keys4"@ {
        Some(4u8)
    } else if mode == "Keys7"@ {
        Some(7u8)
    } else {
        None
    }
}

pub open spec fn tempo_item(p: TimingPoint) -> TimelineTimingPoint {
    TimelineTimingPoint { time: p.start_time, value: p.bpm, change_type: TimingChangeType::Bpm }
}

/// A scroll velocity without a multiplier counts as 1.
pub open spec fn velocity_item(v: SliderVelocity) -> TimelineTimingPoint {
    TimelineTimingPoint {
        time: v.start_time,
        value: match v.multiplier {
            Some(m) => m,
            None => 1000,
        },
        change_type: TimingChangeType::Sv,
    }
}

/// The notes that one note of the file becomes: a tap, or the start and the
/// end of a long note. Beats are those of a map without stops.
pub open spec fn notes_of(h: QuaHitObject, bps: Seq<(i32, i64)>, offset: int) -> Seq<HitObject> {
    let start = HitObject {
        time: h.start_time,
        beat: beat_at(bps, Seq::empty(), offset, h.start_time as int) as i64,
        keysound: h.generic_keysound(),
        key: match h.endtime {
            Some(end) => Key { key_type: KeyType::SliderStart, slider_end_time: Some(end) },
            None => Key { key_type: KeyType::Normal, slider_end_time: None },
        },
        lane: h.lane,
    };
    match h.endtime {
        Some(end) => seq![
            start,
            HitObject {
                time: end,
                beat: beat_at(bps, Seq::empty(), offset, end as int) as i64,
                keysound: KeySound::plain(100, HitSoundType::Normal),
                key: Key { key_type: KeyType::SliderEnd, slider_end_time: None },
                lane: h.lane,
            },
        ],
        None => seq![start],
    }
}

/// The notes that the notes of the file become, in file order.
pub open spec fn all_notes_of(
    hs: Seq<QuaHitObject>,
    bps: Seq<(i32, i64)>,
    offset: int,
) -> Seq<HitObject>
    decreases hs.len(),
{
    if hs.len() == 0 {
        Seq::empty()
    } else {
        all_notes_of(hs.drop_last(), bps, offset) + notes_of(hs.last(), bps, offset)
    }
}

/// The sample table after a list of paths has been registered.
pub open spec fn registered(table: Seq<Seq<char>>, paths: Seq<Seq<char>>) -> Seq<Seq<char>>
    decreases paths.len(),
{
    if paths.len() == 0 {
        table
    } else {
        let before = registered(table, paths.drop_last());
        if first_index_of(before, paths.last()) < before.len() {
            before
        } else {
            before.push(paths.last())
        }
    }
}

pub open spec fn effect_of(e: QuaSoundEffect) -> SoundEffect {
    SoundEffect { time: e.start_time, volume: e.volume, sample: e.sample }
}

/// Puts the tempo changes on the timeline and sets the audio offset to the
/// time of the first of them, or to 0 if there is none.
pub fn process_timing_points(
    timing_points: &Vec<TimingPoint>,
    chartinfo: &mut ChartInfo,
    timeline: &mut TimingPointTimeline,
)
    requires
        old(timeline).state().sorted,
        old(timeline).state().wf(),
    ensures
        final(timeline).state().sorted,
        final(timeline).state().wf(),
        final(timeline).state().items == insertions(
            old(timeline).state().items,
            timing_points@.map_values(|p: TimingPoint| tempo_item(p)),
        ),
        *final(chartinfo) == (ChartInfo {
            audio_offset: if final(timeline).state().items.len() == 0 {
                0
            } else {
                final(timeline).state().items[0].time
            },
            ..*old(chartinfo)
        }),
{
    let ghost items = timing_points@.map_values(|p: TimingPoint| tempo_item(p));
    let mut i: usize = 0;
    assert(items.subrange(0, 0) =~= Seq::<TimelineTimingPoint>::empty());
    while i < timing_points.len()
        invariant
            i <= timing_points.len(),
            items == timing_points@.map_values(|p: TimingPoint| tempo_item(p)),
            timeline.state().sorted,
            timeline.state().wf(),
            timeline.state().items == insertions(
                old(timeline).state().items,
                items.subrange(0, i as int),
            ),
        decreases timing_points.len() - i,
    {
        let p = timing_points[i];
        assert(items.subrange(0, i + 1).drop_last() =~= items.subrange(0, i as int));
        timeline.add_sorted(
            TimelineTimingPoint { time: p.start_time, value: p.bpm, change_type: TimingChangeType::Bpm },
        );
        i += 1;
    }
    assert(items.subrange(0, i as int) =~= items);
    chartinfo.audio_offset = timeline.first_time();
}

/// Puts the scroll velocities on the timeline.
pub fn process_sv(slider_velocities: &Vec<SliderVelocity>, timeline: &mut TimingPointTimeline)
    requires
        old(timeline).state().sorted,
        old(timeline).state().wf(),
    ensures
        final(timeline).state().sorted,
        final(timeline).state().wf(),
        final(timeline).state().items == insertions(
            old(timeline).state().items,
            slider_velocities@.map_values(|v: SliderVelocity| velocity_item(v)),
        ),
{
    let ghost items = slider_velocities@.map_values(|v: SliderVelocity| velocity_item(v));
    let mut i: usize = 0;
    assert(items.subrange(0, 0) =~= Seq::<TimelineTimingPoint>::empty());
    while i < slider_velocities.len()
        invariant
            i <= slider_velocities.len(),
            items == slider_velocities@.map_values(|v: SliderVelocity| velocity_item(v)),
            timeline.state().sorted,
            timeline.state().wf(),
            timeline.state().items == insertions(
                old(timeline).state().items,
                items.subrange(0, i as int),
            ),
        decreases slider_velocities.len() - i,
    {
        let v = slider_velocities[i];
        assert(items.subrange(0, i + 1).drop_last() =~= items.subrange(0, i as int));
        let value = match v.multiplier {
            Some(m) => m,
            None => 1000,
        };
        timeline.add_sorted(
            TimelineTimingPoint { time: v.start_time, value, change_type: TimingChangeType::Sv },
        );
        i += 1;
    }
    assert(items.subrange(0, i as int) =~= items);
}

/// Appends the sound effects to the bank.
pub fn process_soundeffects(sound_effects: &Vec<QuaSoundEffect>, soundbank: &mut SoundBank)
    ensures
        final(soundbank).sound_effects@ == old(soundbank).sound_effects@ + sound_effects@.map_values(
            |e: QuaSoundEffect| effect_of(e),
        ),
        final(soundbank).audio_tracks == old(soundbank).audio_tracks,
        final(soundbank).sound_sample_paths == old(soundbank).sound_sample_paths,
{
    let mut i: usize = 0;
    while i < sound_effects.len()
        invariant
            i <= sound_effects.len(),
            soundbank.sound_effects@ == old(soundbank).sound_effects@ + sound_effects@.subrange(
                0,
                i as int,
            ).map_values(|e: QuaSoundEffect| effect_of(e)),
            soundbank.audio_tracks == old(soundbank).audio_tracks,
            soundbank.sound_sample_paths == old(soundbank).sound_sample_paths,
        decreases sound_effects.len() - i,
    {
        let e = sound_effects[i];
        soundbank.add_sound_effect(
            SoundEffect { time: e.start_time, volume: e.volume, sample: e.sample },
        );
        i += 1;
        assert(soundbank.sound_effects@ =~= old(soundbank).sound_effects@
            + sound_effects@.subrange(0, i as int).map_values(|e: QuaSoundEffect| effect_of(e)));
    }
    assert(sound_effects@.subrange(0, i as int) =~= sound_effects@);
}

/// The paths of a list of samples.
pub open spec fn paths_of(samples: Seq<AudioSample>) -> Seq<Seq<char>> {
    samples.map_values(|s: AudioSample| s.path@)
}

/// Registers the samples with the bank, in file order.
pub fn process_samples(samples: &Vec<AudioSample>, soundbank: &mut SoundBank)
    ensures
        final(soundbank).samples() == registered(old(soundbank).samples(), paths_of(samples@)),
        final(soundbank).audio_tracks == old(soundbank).audio_tracks,
        final(soundbank).sound_effects == old(soundbank).sound_effects,
{
    let mut i: usize = 0;
    assert(paths_of(samples@).subrange(0, 0) =~= Seq::<Seq<char>>::empty());
    while i < samples.len()
        invariant
            i <= samples.len(),
            soundbank.samples() == registered(
                old(soundbank).samples(),
                paths_of(samples@).subrange(0, i as int),
            ),
            soundbank.audio_tracks == old(soundbank).audio_tracks,
            soundbank.sound_effects == old(soundbank).sound_effects,
        decreases samples.len() - i,
    {
        assert(paths_of(samples@).subrange(0, i + 1).drop_last() =~= paths_of(samples@).subrange(
            0,
            i as int,
        ));
        soundbank.add_sound_sample(samples[i].path.clone());
        i += 1;
    }
    assert(paths_of(samples@).subrange(0, i as int) =~= paths_of(samples@));
}

/// Puts the notes of the file into the note list, each at its place in time
/// and with its beat, and adds the scratch lane to the lane count.
pub fn process_notes(
    quaver_hitobjects: &Vec<QuaHitObject>,
    hitobjects: &mut HitObjects,
    chartinfo: &mut ChartInfo,
    map: &TempoMap,
    has_scratch: bool,
)
    requires
        times_sorted(old(hitobjects).objects@),
        old(chartinfo).key_count < 255,
        map.stops() == Seq::<(i32, i64)>::empty(),
    ensures
        final(hitobjects).objects@ == insertions(
            old(hitobjects).objects@,
            all_notes_of(quaver_hitobjects@, map.breakpoints(), map.offset()),
        ),
        *final(chartinfo) == (ChartInfo {
            key_count: if has_scratch {
                (old(chartinfo).key_count + 1) as u8
            } else {
                old(chartinfo).key_count
            },
            ..*old(chartinfo)
        }),
{
    let ghost bps = map.breakpoints();
    let ghost offset = map.offset();
    let ghost base = hitobjects.objects@;
    let mut i: usize = 0;
    assert(quaver_hitobjects@.subrange(0, 0) =~= Seq::<QuaHitObject>::empty());
    proof {
        lemma_insertions_sorted(base, Seq::<HitObject>::empty());
    }
    while i < quaver_hitobjects.len()
        invariant
            i <= quaver_hitobjects.len(),
            bps == map.breakpoints(),
            offset == map.offset(),
            map.stops() == Seq::<(i32, i64)>::empty(),
            times_sorted(base),
            times_sorted(hitobjects.objects@),
            hitobjects.objects@ == insertions(
                base,
                all_notes_of(quaver_hitobjects@.subrange(0, i as int), bps, offset),
            ),
        decreases quaver_hitobjects.len() - i,
    {
        let h = &quaver_hitobjects[i];
        let ghost done = all_notes_of(quaver_hitobjects@.subrange(0, i as int), bps, offset);
        let ghost new = notes_of(*h, bps, offset);
        proof {
            assert(quaver_hitobjects@.subrange(0, i + 1).drop_last()
                =~= quaver_hitobjects@.subrange(0, i as int));
            assert(quaver_hitobjects@.subrange(0, i + 1).last() == *h);
        }
        let beat = map.beat_from_time(h.start_time);
        let keysound = h.get_generic_keysound();
        match h.endtime {
            Some(end) => {
                let end_beat = map.beat_from_time(end);
                let first = HitObject {
                    time: h.start_time,
                    beat,
                    keysound,
                    key: Key::slider_start(Some(end)),
                    lane: h.lane,
                };
                let second = HitObject {
                    time: end,
                    beat: end_beat,
                    keysound: KeySound::of_type(100, HitSoundType::Normal),
                    key: Key::slider_end(),
                    lane: h.lane,
                };
                assert(new =~= seq![first, second]);
                hitobjects.add_hitobject_sorted(first);
                proof {
                    assert(done.push(first).drop_last() =~= done);
                    assert(done.push(first).last() == first);
                    assert(hitobjects.objects@ == insertions(base, done.push(first)));
                }
                hitobjects.add_hitobject_sorted(second);
                proof {
                    assert(done + new =~= done.push(first).push(second));
                    assert(done.push(first).push(second).drop_last() =~= done.push(first));
                    assert(done.push(first).push(second).last() == second);
                    assert(hitobjects.objects@ == insertions(base, done + new));
                }
            },
            None => {
                let only = HitObject {
                    time: h.start_time,
                    beat,
                    keysound,
                    key: Key::normal(),
                    lane: h.lane,
                };
                assert(new =~= seq![only]);
                hitobjects.add_hitobject_sorted(only);
                proof {
                    assert(done + new =~= done.push(only));
                    assert(done.push(only).drop_last() =~= done);
                    assert(done.push(only).last() == only);
                    assert(hitobjects.objects@ == insertions(base, done + new));
                }
            },
        }
        i += 1;
    }
    assert(quaver_hitobjects@.subrange(0, i as int) =~= quaver_hitobjects@);
    if has_scratch {
        chartinfo.key_count = chartinfo.key_count + 1;
    }
}

/// The timeline of the file: its tempo changes, then its scroll velocities,
/// each inserted at its place in time.
pub open spec fn timeline_of(file: QuaFile) -> Seq<TimelineTimingPoint> {
    insertions(
        insertions(
            Seq::<TimelineTimingPoint>::empty(),
            file.timing_points@.map_values(|p: TimingPoint| tempo_item(p)),
        ),
        file.slider_velocities@.map_values(|v: SliderVelocity| velocity_item(v)),
    )
}

/// The audio offset of the file: the time of its earliest tempo change, or 0
/// if it has none.
pub open spec fn offset_of(file: QuaFile) -> int {
    let tempos = insertions(
        Seq::<TimelineTimingPoint>::empty(),
        file.timing_points@.map_values(|p: TimingPoint| tempo_item(p)),
    );
    if tempos.len() == 0 {
        0
    } else {
        tempos[0].time as int
    }
}

/// Why the file cannot become a chart, if it cannot.
pub open spec fn conversion_error(file: QuaFile) -> Option<ChartError> {
    if key_count_of_mode(file.mode@) is None {
        Some(ChartError::UnsupportedKeyCount)
    } else if !tempos_valid(tempo_pairs(timeline_of(file))) {
        Some(ChartError::InvalidTempo)
    } else {
        None
    }
}

/// `chart` is the chart of `file`.
pub open spec fn converted(file: QuaFile, chart: GenericManiaChart) -> bool {
    let bps = tempo_pairs(timeline_of(file));
    let offset = offset_of(file);
    &&& chart.metadata.title@ == file.title@
    &&& chart.metadata.artist@ == file.artist@
    &&& chart.metadata.source@ == file.source@
    &&& chart.metadata.creator@ == file.creator@
    &&& chart.metadata.tags.deep_view() == split(file.tags@, ' ')
    &&& chart.metadata.alt_title@.len() == 0
    &&& chart.metadata.alt_artist@.len() == 0
    &&& chart.metadata.genre@.len() == 0
    &&& chart.chartinfo.song_path@ == file.audio_file@
    &&& chart.chartinfo.bg_path@ == file.background_file@
    &&& chart.chartinfo.video_path@.len() == 0
    &&& chart.chartinfo.difficulty_name@ == file.difficulty_name@
    &&& chart.chartinfo.preview_time == file.song_preview_time
    &&& chart.chartinfo.audio_offset == offset
    &&& chart.chartinfo.od == 0
    &&& chart.chartinfo.hp == 0
    &&& chart.chartinfo.key_count == key_count_of_mode(file.mode@)->0 + if file.has_scratch_key {
        1int
    } else {
        0int
    }
    &&& chart.timings() == timeline_of(file).map_values(
        |p: TimelineTimingPoint| stamped(p, bps, offset),
    )
    &&& chart.notes() == insertions(
        Seq::<HitObject>::empty(),
        all_notes_of(file.hitobjects@, bps, offset),
    )
    &&& chart.soundbank is Some
    &&& chart.soundbank->0.audio_tracks@.len() == 0
    &&& chart.soundbank->0.samples() == registered(
        Seq::empty(),
        paths_of(file.custom_audio_samples@),
    )
    &&& chart.soundbank->0.sound_effects@ == file.sound_effects@.map_values(
        |e: QuaSoundEffect| effect_of(e),
    )
}

/// Converts a file of the YAML-based format into the canonical chart.
pub fn from_qua_generic(file: &QuaFile) -> (r: Result<GenericManiaChart, ChartError>)
    ensures
        match conversion_error(*file) {
            Some(e) => r is Err && r->Err_0 == e,
            None => r is Ok && converted(*file, r->Ok_0),
        },
{
    let key_count: u8 = if is_text(&file.mode, "Keys4") {
        4
    } else if is_text(&file.mode, "Keys7") {
        7
    } else {
        return Err(ChartError::UnsupportedKeyCount);
    };
    let mut metadata = Metadata::empty();
    metadata.title = file.title.clone();
    metadata.artist = file.artist.clone();
    metadata.source = file.source.clone();
    metadata.creator = file.creator.clone();
    metadata.tags = split_text(file.tags.as_str(), ' ');
    let mut chartinfo = ChartInfo::empty();
    chartinfo.song_path = file.audio_file.clone();
    chartinfo.preview_time = file.song_preview_time;
    chartinfo.bg_path = file.background_file.clone();
    chartinfo.key_count = key_count;
    chartinfo.difficulty_name = file.difficulty_name.clone();
    let mut soundbank = SoundBank::new();
    let mut timeline = TimingPointTimeline::with_capacity(64);
    assert(soundbank.samples() =~= Seq::<Seq<char>>::empty());
    process_samples(&file.custom_audio_samples, &mut soundbank);
    process_soundeffects(&file.sound_effects, &mut soundbank);
    process_timing_points(&file.timing_points, &mut chartinfo, &mut timeline);
    process_sv(&file.slider_velocities, &mut timeline);
    let offset = chartinfo.audio_offset;
    let mut timing_points = TimingPoints::with_capacity(64);
    match timeline.to_timing_points(&mut timing_points, offset) {
        Ok(()) => {},
        Err(_) => {
            return Err(ChartError::InvalidTempo);
        },
    }
    let map = match timeline.tempo_map(offset) {
        Ok(map) => map,
        Err(_) => {
            return Err(ChartError::InvalidTempo);
        },
    };
    let mut hitobjects = HitObjects::with_capacity(2048);
    assert(hitobjects.objects@ =~= Seq::<HitObject>::empty());
    process_notes(&file.hitobjects, &mut hitobjects, &mut chartinfo, &map, file.has_scratch_key);
    let chart = GenericManiaChart::new(
        metadata,
        chartinfo,
        timing_points,
        hitobjects,
        Some(soundbank),
    );
    proof {
        assert(chart.timings() =~= timeline_of(*file).map_values(
            |p: TimelineTimingPoint| stamped(p, tempo_pairs(timeline_of(*file)), offset_of(*file)),
        ));
        assert(chart.soundbank->0.sound_effects@ =~= file.sound_effects@.map_values(
            |e: QuaSoundEffect| effect_of(e),
        ));
    }
    Ok(chart)
}

} // verus!
