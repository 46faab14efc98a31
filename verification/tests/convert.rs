use mania_chart::errors::ChartError;
use mania_chart::models::common::{Key, KeyType, TimingChangeType};
use mania_chart::models::fluxis::{FscFile, HitObject as FscHitObject, TimingPoint as FscTimingPoint,
    ScrollVelocity};
use mania_chart::models::generic::{
    ChartInfo, GenericManiaChart, HitObject, HitObjects, HitSoundType, KeySound, Metadata,
    SoundBank, SoundEffect, TimingChange, TimingPoints,
};
use mania_chart::models::grid::PairingWarning;
use mania_chart::models::quaver::{
    AudioSample, HitObject as QuaHitObject, KeySound as QuaKeySound, QuaFile, SliderVelocity,
    SoundEffect as QuaSoundEffect, TimingPoint as QuaTimingPoint,
};
use mania_chart::parsers::fluxis::from_fsc;
use mania_chart::parsers::osu::{from_osu, from_osu_generic, validate_mode_mania};
use mania_chart::parsers::quaver::from_qua_generic;
use mania_chart::parsers::stepmania::{
    from_sm, parse_bpms, parse_keys_in_row, parse_stops, process_sections,
    process_timing_points, remove_comments,
};
use mania_chart::utils::beats::calculate_time_from_beat;
use mania_chart::utils::rhythm::TICKS_PER_BEAT;
use mania_chart::writers::fluxis::to_fsc;
use mania_chart::writers::osu::{
    bpm_to_beatlength, column_to_coords, multiplier_to_beatlength, to_osu, to_osu_file,
};
use mania_chart::writers::quaver::{create_keysounds, get_mode_string, to_qua};
use mania_chart::models::common::GameMode;

const OSU: &str = "osu file format v14\n\n[General]\nAudioFilename: audio.mp3\nPreviewTime: 500\n\
Mode: 3\n\n[Metadata]\nTitle:Song\nTitleUnicode:歌\nArtist:Band\nArtistUnicode:\nCreator:me\n\
Version:Hard\nSource:src\nTags:a b\n\n[Difficulty]\nHPDrainRate:7\nCircleSize:4\n\
OverallDifficulty:8\n\n[Events]\n0,0,\"bg.png\",0,0\n\n[TimingPoints]\n0,500,4,1,0,100,1,0\n\
1000,-50,4,1,0,100,0,0\n2000,250,4,1,0,100,1,0\n\n[HitObjects]\n64,192,1000,1,0,0:0:0:0:\n\
448,192,2500,128,2,3000:0:0:0:40:hit.wav\n192,192,1000,1,0,0:0:0:0:\n320,192,500,5,8,0:0:0:0:\n";

const SM: &str = "#TITLE:Tea;\n#ARTIST:Kil; // the artist\n#SUBTITLE:;\n#OFFSET:-0.5;\n\
#SAMPLESTART:12.5;\n#BPMS:0.000=120.000,\n4.000=240.000;\n#STOPS:2.000=0.500;\n\
#NOTES:\n     dance-single:\n     :\n     Hard:\n     9:\n     0,0,0,0,0:\n\
1000\n0200\n0300\n0000\n,\n0001\n0M00\n,\n0000\n0000\n;\n";

fn qua_file() -> QuaFile {
    let mut file = QuaFile::default();
    file.audio_file = "song.ogg".to_string();
    file.song_preview_time = 777;
    file.background_file = "bg.jpg".to_string();
    file.mode = "Keys4".to_string();
    file.title = "Q".to_string();
    file.artist = "QA".to_string();
    file.tags = "x y".to_string();
    file.creator = "qc".to_string();
    file.difficulty_name = "Insane".to_string();
    file.custom_audio_samples = vec![
        AudioSample { path: "a.wav".to_string() },
        AudioSample { path: "b.wav".to_string() },
        AudioSample { path: "a.wav".to_string() },
    ];
    file.sound_effects = vec![QuaSoundEffect { start_time: 50, sample: 1, volume: 90 }];
    file.timing_points = vec![
        QuaTimingPoint { start_time: 2000, bpm: 240_000 },
        QuaTimingPoint { start_time: 0, bpm: 120_000 },
    ];
    file.slider_velocities = vec![SliderVelocity { start_time: 1000, multiplier: None }];
    file.hitobjects = vec![
        QuaHitObject {
            start_time: 2500,
            lane: 4,
            endtime: Some(3000),
            hit_sound: Some("Clap".to_string()),
            key_sounds: vec![],
        },
        QuaHitObject {
            start_time: 1000,
            lane: 1,
            endtime: None,
            hit_sound: None,
            key_sounds: vec![QuaKeySound { sample: 2, volume: 120 }],
        },
    ];
    file
}

fn fsc_file() -> FscFile {
    let mut file = FscFile::new();
    file.audio_file = "f.mp3".to_string();
    file.metadata.title = "F".to_string();
    file.metadata.title_rm = Some("Ef".to_string());
    file.metadata.artist = "FA".to_string();
    file.metadata.mapper = "fm".to_string();
    file.metadata.difficulty = "Easy".to_string();
    file.metadata.source = None;
    file.metadata.tags = "one, two ,three".to_string();
    file.metadata.previewtime = 42;
    file.timing_points = vec![FscTimingPoint::new(0, 60_000, 4)];
    file.scroll_velocities = vec![ScrollVelocity::new(500, 2000)];
    file.hit_objects = vec![
        FscHitObject::new_normal_note(1000, 1),
        FscHitObject::new_long_note(2000, 3, 500),
        FscHitObject::new_tick_note(2100, 2, 0),
    ];
    file
}

fn four_lane_fsc_file() -> FscFile {
    let mut file = fsc_file();
    file.hit_objects.push(FscHitObject::new_normal_note(3000, 4));
    file
}

fn times_and_kinds(chart: &GenericManiaChart) -> Vec<(i32, u8, KeyType, Option<i32>)> {
    chart
        .hitobjects
        .objects
        .iter()
        .map(|h| (h.time, h.lane, h.key.key_type, h.key.slider_end_time))
        .collect()
}

#[test]
fn osu_text_becomes_a_chart() {
    let chart = from_osu_generic(OSU).unwrap();
    assert_eq!(chart.metadata.title, "Song");
    assert_eq!(chart.metadata.alt_title, "歌");
    assert_eq!(chart.metadata.alt_artist, "Band");
    assert_eq!(chart.metadata.tags, vec!["a", "b"]);
    assert_eq!(chart.chartinfo.song_path, "audio.mp3");
    assert_eq!(chart.chartinfo.bg_path, "bg.png");
    assert_eq!(chart.chartinfo.difficulty_name, "Hard");
    assert_eq!((chart.chartinfo.od, chart.chartinfo.hp), (8000, 7000));
    assert_eq!((chart.chartinfo.key_count, chart.chartinfo.audio_offset), (4, 0));
    assert_eq!(chart.chartinfo.preview_time, 500);
    let points: Vec<(i32, i64, TimingChangeType, i64)> = chart
        .timing_points
        .points
        .iter()
        .map(|p| (p.time, p.beat, p.change.change_type, p.change.value))
        .collect();
    assert_eq!(
        points,
        vec![
            (0, 0, TimingChangeType::Bpm, 120_000),
            (1000, 2 * TICKS_PER_BEAT, TimingChangeType::Sv, 2000),
            (2000, 4 * TICKS_PER_BEAT, TimingChangeType::Bpm, 240_000),
        ]
    );
    assert_eq!(
        times_and_kinds(&chart),
        vec![
            (500, 3, KeyType::Normal, None),
            (1000, 1, KeyType::Normal, None),
            (1000, 2, KeyType::Normal, None),
            (2500, 4, KeyType::SliderStart, Some(3000)),
            (3000, 4, KeyType::SliderEnd, None),
        ]
    );
    let beats: Vec<i64> = chart.hitobjects.objects.iter().map(|h| h.beat).collect();
    assert_eq!(
        beats,
        vec![
            TICKS_PER_BEAT,
            2 * TICKS_PER_BEAT,
            2 * TICKS_PER_BEAT,
            6 * TICKS_PER_BEAT,
            8 * TICKS_PER_BEAT
        ]
    );
    let bank = chart.soundbank.clone().unwrap();
    assert_eq!(bank.audio_tracks, vec!["audio.mp3"]);
    assert_eq!(bank.get_sample_paths(), &vec!["hit.wav".to_string()]);
    let hold = chart.hitobjects.objects[3];
    assert_eq!(hold.keysound, KeySound::with_custom(40, 0, Some(HitSoundType::Finish)));
    assert_eq!(chart.hitobjects.objects[0].keysound, KeySound::of_type(100, HitSoundType::Normal));
    assert_eq!(chart.validate(), Ok(()));
    assert_eq!(chart.max_combo(), 5);
}

#[test]
fn osu_text_with_problems_is_refused() {
    assert_eq!(from_osu_generic("[General]\nMode: x\n").unwrap_err(), ChartError::MalformedText);
    assert_eq!(
        from_osu_generic("[General]\nMode: 0\n[Difficulty]\nCircleSize:4").unwrap_err(),
        ChartError::InvalidMode
    );
    assert_eq!(
        from_osu_generic("[General]\nMode: 3\n[Difficulty]\nCircleSize:0.9").unwrap_err(),
        ChartError::UnsupportedKeyCount
    );
    assert_eq!(
        from_osu_generic(
            "[General]\nMode: 3\n[TimingPoints]\n10,500,4,1,0,100,1,0\n0,500,4,1,0,100,1,0"
        )
        .unwrap_err(),
        ChartError::InvalidTempo
    );
    assert_eq!(
        from_osu_generic("[General]\nMode: 3\n[HitObjects]\n1,2,3").unwrap_err(),
        ChartError::MalformedText
    );
    assert_eq!(
        from_osu_generic(
            "[General]\nMode: 3\n[Difficulty]\nCircleSize: 4\n[TimingPoints]\n\
             0,-500,4,1,0,100,1,0\n[HitObjects]\n64,192,1000,1,0,0:0:0:0:"
        )
        .unwrap_err(),
        ChartError::InvalidTempo
    );
    assert_eq!(
        from_osu_generic(
            "[General]\nMode: 3\n[Difficulty]\nCircleSize: 4\n[TimingPoints]\n\
             0,500,4,1,0,100,1,0\n900,0,4,1,0,100,1,0"
        )
        .unwrap_err(),
        ChartError::InvalidTempo
    );
    assert!(from_osu_generic(
        "[General]\nMode: 3\n[Difficulty]\nCircleSize: 4\n[TimingPoints]\n\
         0,500,4,1,0,100,1,0\n900,-50,4,1,0,100,0,0"
    )
    .is_ok());
    assert_eq!(
        from_osu("[General]\nMode: 3\n[General]\nMode: bad\n[General]\nMode: 1").unwrap_err(),
        ChartError::MalformedText
    );
    let twice = from_osu("[General]\nMode: 3\n[General]\nMode: 1").unwrap();
    assert_eq!(twice.general.mode, 1);
    assert_eq!(validate_mode_mania(GameMode::Mania), Ok(true));
    assert_eq!(validate_mode_mania(GameMode::Taiko), Err(ChartError::InvalidMode));
    let bare = from_osu_generic("[General]\nMode: 3").unwrap();
    assert_eq!(bare.chartinfo.key_count, 5);
    assert!(bare.hitobjects.objects.is_empty());
}

#[test]
fn chart_becomes_osu_text() {
    let chart = from_osu_generic(OSU).unwrap();
    let text = to_osu(&chart).unwrap();
    let expected = "osu file format v14\n\n[General]\nAudioFilename: audio.mp3\nAudioLeadIn: 0\n\
PreviewTime: 500\nCountdown: 0\nSampleSet: Soft\nStackLeniency: 0.7\nMode: 3\n\
LetterboxInBreaks: 0\nSpecialStyle: 0\nWidescreenStoryboard: 1\n\n[Editor]\n\
DistanceSpacing: 1\nBeatDivisor: 4\nGridSize: 4\nTimelineZoom: 1\n\n[Metadata]\nTitle: Song\n\
TitleUnicode: 歌\nArtist: Band\nArtistUnicode: Band\nCreator: me\nVersion: Hard\nSource: src\n\
Tags: a b\nBeatmapID: -1\nBeatmapSetID: -1\n\n[Difficulty]\nHPDrainRate: 8.5\nCircleSize: 4\n\
OverallDifficulty: 8\nApproachRate: 5\nSliderMultiplier: 1.4\nSliderTickRate: 1\n\n[Events]\n\
//Background and Video events\n0,0,\"bg.png\"\n//Break Periods\n\
//Storyboard Layer 0 (Background)\n//Storyboard Layer 1 (Fail)\n//Storyboard Layer 2 (Pass)\n\
//Storyboard Layer 3 (Foreground)\n//Storyboard Layer 4 (Overlay)\n//Storyboard Sound Samples\n\n\
[TimingPoints]\n0,500,4,1,0,100,1,0\n1000,-50,4,1,0,100,0,0\n2000,250,4,1,0,100,1,0\n\n\
[HitObjects]\n256,192,500,1,0,0:0:0:0:\n0,192,1000,1,0,0:0:0:0:\n128,192,1000,1,0,0:0:0:0:\n\
384,192,2500,128,4,3000:0:0:0:40:hit.wav";
    assert_eq!(text, expected);
    let again = from_osu_generic(&text).unwrap();
    assert_eq!(times_and_kinds(&again), times_and_kinds(&chart));
    assert_eq!(again.timing_points.points, chart.timing_points.points);
}

#[test]
fn osu_writer_helpers() {
    assert_eq!(bpm_to_beatlength(120_000), 500_000);
    assert_eq!(bpm_to_beatlength(180_000), 333_333);
    assert_eq!(bpm_to_beatlength(1), 60_000_000_000);
    assert_eq!(multiplier_to_beatlength(1000), -100_000);
    assert_eq!(multiplier_to_beatlength(-2000), -50_000);
    assert_eq!(multiplier_to_beatlength(0), -10_000_000);
    assert_eq!(multiplier_to_beatlength(750), -133_333);
    assert_eq!(multiplier_to_beatlength(i64::MIN), 0);
    assert_eq!(column_to_coords(1, 4), 0);
    assert_eq!(column_to_coords(2, 4), 128);
    assert_eq!(column_to_coords(4, 4), 384);
    assert_eq!(column_to_coords(2, 7), 74);
    assert_eq!(column_to_coords(7, 7), 439);
    assert_eq!(column_to_coords(255, 1), 65535);
}

#[test]
fn chart_that_cannot_be_written_as_osu_is_refused() {
    let mut chart = from_osu_generic(OSU).unwrap();
    chart.chartinfo.key_count = 0;
    assert_eq!(chart.key_count(), 4);
    assert_eq!(to_osu(&chart).unwrap(), to_osu(&from_osu_generic(OSU).unwrap()).unwrap());
    let mut bare = from_osu_generic(OSU).unwrap();
    bare.chartinfo.key_count = 0;
    bare.hitobjects.objects.clear();
    assert_eq!(to_osu(&bare).unwrap_err(), ChartError::UnsupportedKeyCount);
    assert_eq!(to_qua(&bare).unwrap_err(), ChartError::UnsupportedKeyCount);
    chart.chartinfo.key_count = 4;
    chart.timing_points.add(9, 0, TimingChange { change_type: TimingChangeType::Bpm, value: 0 });
    assert_eq!(to_osu(&chart).unwrap_err(), ChartError::InvalidTempo);
    chart.timing_points.points.pop();
    chart.hitobjects.objects[2].lane = 0;
    assert_eq!(to_osu_file(&chart).unwrap_err(), ChartError::LaneOutOfRange);
}

#[test]
fn sound_effects_and_stops_in_the_osu_file() {
    let mut chart = from_osu_generic(OSU).unwrap();
    let mut bank = SoundBank::new();
    bank.add_sound_sample("fx.wav".to_string());
    bank.add_sound_effect(SoundEffect { time: 77, volume: 55, sample: 0 });
    bank.add_sound_effect(SoundEffect { time: 88, volume: 100, sample: 3 });
    chart.soundbank = Some(bank);
    chart.chartinfo.video_path = "  v.mp4".to_string();
    chart.chartinfo.bg_path = "  ".to_string();
    chart.metadata.title = "two\nlines".to_string();
    chart.timing_points.add(5, 0, TimingChange { change_type: TimingChangeType::Stop, value: 1 });
    chart.hitobjects.objects[0].keysound = KeySound::with_custom(100, 0, None);
    chart.hitobjects.objects[1].keysound = KeySound::with_custom(20, 5, None);
    let file = to_osu_file(&chart).unwrap();
    assert!(file.events.background.is_none());
    assert_eq!(file.events.video.clone().unwrap().filename, "  v.mp4");
    assert_eq!(file.events.samples.len(), 2);
    assert_eq!(file.events.samples[0].to_str(), "Sample,77,0,\"fx.wav\",55");
    assert_eq!(file.events.samples[1].to_str(), "Sample,88,0,\"\"");
    assert_eq!(file.metadata.title, "twolines");
    assert_eq!(file.timing_points.count(), 3);
    assert_eq!(file.hitobjects.hit_objects[0].hit_sample.to_osu_format(), "0:0:0:0:fx.wav");
    assert_eq!(file.hitobjects.hit_objects[1].hit_sample.to_osu_format(), "0:0:0:20:");
    assert_eq!(file.hitobjects.count(), 4);
}

#[test]
fn qua_file_becomes_a_chart() {
    let chart = from_qua_generic(&qua_file()).unwrap();
    assert_eq!(chart.metadata.title, "Q");
    assert_eq!(chart.metadata.tags, vec!["x", "y"]);
    assert_eq!(chart.chartinfo.key_count, 4);
    assert_eq!(chart.chartinfo.audio_offset, 0);
    assert_eq!(chart.chartinfo.preview_time, 777);
    let points: Vec<(i32, i64, TimingChangeType, i64)> = chart
        .timing_points
        .points
        .iter()
        .map(|p| (p.time, p.beat, p.change.change_type, p.change.value))
        .collect();
    assert_eq!(
        points,
        vec![
            (0, 0, TimingChangeType::Bpm, 120_000),
            (1000, 2 * TICKS_PER_BEAT, TimingChangeType::Sv, 1000),
            (2000, 4 * TICKS_PER_BEAT, TimingChangeType::Bpm, 240_000),
        ]
    );
    assert_eq!(
        times_and_kinds(&chart),
        vec![
            (1000, 1, KeyType::Normal, None),
            (2500, 4, KeyType::SliderStart, Some(3000)),
            (3000, 4, KeyType::SliderEnd, None),
        ]
    );
    assert_eq!(
        chart.hitobjects.objects[0].keysound,
        KeySound::with_custom(100, 2, Some(HitSoundType::Normal))
    );
    assert_eq!(chart.hitobjects.objects[1].keysound, KeySound::of_type(100, HitSoundType::Clap));
    assert_eq!(chart.hitobjects.objects[2].beat, 8 * TICKS_PER_BEAT);
    let bank = chart.soundbank.clone().unwrap();
    assert_eq!(bank.get_sample_paths(), &vec!["a.wav".to_string(), "b.wav".to_string()]);
    assert_eq!(bank.sound_effects, vec![SoundEffect { time: 50, volume: 90, sample: 1 }]);
    let mut scratch = qua_file();
    scratch.mode = "Keys7".to_string();
    scratch.has_scratch_key = true;
    assert_eq!(from_qua_generic(&scratch).unwrap().chartinfo.key_count, 8);
}

#[test]
fn qua_file_with_problems_is_refused() {
    let mut file = qua_file();
    file.mode = "Keys5".to_string();
    assert_eq!(from_qua_generic(&file).unwrap_err(), ChartError::UnsupportedKeyCount);
    let mut file = qua_file();
    file.timing_points[0].bpm = 0;
    assert_eq!(from_qua_generic(&file).unwrap_err(), ChartError::InvalidTempo);
}

#[test]
fn chart_becomes_a_qua_file() {
    let chart = from_qua_generic(&qua_file()).unwrap();
    let file = to_qua(&chart).unwrap();
    assert_eq!(file.mode, "Keys4");
    assert!(!file.has_scratch_key);
    assert_eq!((file.map_id, file.mapset_id), (-1, -1));
    assert_eq!(file.tags, "x,y");
    assert_eq!(file.initial_scroll_velocity, 1000);
    assert!(file.bpm_does_not_affect_scroll_velocity);
    assert_eq!(
        file.timing_points,
        vec![
            QuaTimingPoint { start_time: 0, bpm: 120_000 },
            QuaTimingPoint { start_time: 2000, bpm: 240_000 }
        ]
    );
    assert_eq!(
        file.slider_velocities,
        vec![SliderVelocity { start_time: 1000, multiplier: Some(1000) }]
    );
    assert_eq!(file.sound_effects, vec![QuaSoundEffect { start_time: 50, sample: 2, volume: 90 }]);
    let paths: Vec<&str> = file.custom_audio_samples.iter().map(|s| s.path.as_str()).collect();
    assert_eq!(paths, vec!["a.wav", "b.wav"]);
    assert_eq!(file.hitobjects.len(), 2);
    assert_eq!((file.hitobjects[0].start_time, file.hitobjects[0].lane), (1000, 1));
    assert_eq!(file.hitobjects[0].endtime, None);
    assert_eq!(file.hitobjects[0].hit_sound, None);
    assert_eq!(file.hitobjects[0].key_sounds, vec![QuaKeySound { sample: 3, volume: 100 }]);
    assert_eq!(file.hitobjects[1].endtime, Some(3000));
    assert_eq!(file.hitobjects[1].hit_sound, Some("Clap".to_string()));
    assert!(file.hitobjects[1].key_sounds.is_empty());
    assert_eq!(get_mode_string(5), Ok("Keys4".to_string()));
    assert_eq!(get_mode_string(8), Ok("Keys7".to_string()));
    assert_eq!(get_mode_string(6), Err(ChartError::UnsupportedKeyCount));
    assert!(create_keysounds(KeySound::of_type(100, HitSoundType::Clap)).is_empty());
    assert_eq!(
        create_keysounds(KeySound::with_custom(5, usize::MAX, None)),
        vec![QuaKeySound { sample: usize::MAX, volume: 5 }]
    );
    let mut seven = chart;
    seven.chartinfo.key_count = 8;
    assert!(to_qua(&seven).unwrap().has_scratch_key);
    seven.chartinfo.key_count = 6;
    assert_eq!(to_qua(&seven).unwrap_err(), ChartError::UnsupportedKeyCount);
}

#[test]
fn fsc_file_becomes_a_chart() {
    let chart = from_fsc(&fsc_file()).unwrap();
    assert_eq!(chart.metadata.alt_title, "Ef");
    assert_eq!(chart.metadata.alt_artist, "FA");
    assert_eq!(chart.metadata.source, "Unknown Source");
    assert_eq!(chart.metadata.tags, vec!["one", "two", "three"]);
    assert_eq!(chart.metadata.creator, "fm");
    assert_eq!((chart.chartinfo.od, chart.chartinfo.hp), (8000, 8000));
    assert_eq!(chart.chartinfo.key_count, 3);
    assert_eq!(chart.chartinfo.preview_time, 42);
    assert_eq!(
        times_and_kinds(&chart),
        vec![
            (1000, 1, KeyType::Normal, None),
            (2000, 3, KeyType::SliderStart, Some(2500)),
            (2500, 3, KeyType::SliderEnd, None),
        ]
    );
    assert_eq!(chart.hitobjects.objects[2].beat, 2 * TICKS_PER_BEAT + TICKS_PER_BEAT / 2);
    assert_eq!(chart.timing_points.points.len(), 2);
    assert_eq!(chart.timing_points.points[1].beat, TICKS_PER_BEAT / 2);
    assert!(chart.soundbank.is_none());
}

#[test]
fn fsc_file_with_problems_is_refused() {
    let mut file = fsc_file();
    file.timing_points.clear();
    assert_eq!(from_fsc(&file).unwrap_err(), ChartError::EmptyChart);
    let mut file = fsc_file();
    file.hit_objects[0].lane = 0;
    assert_eq!(from_fsc(&file).unwrap_err(), ChartError::LaneOutOfRange);
    let mut file = fsc_file();
    file.hit_objects[0].lane = 256;
    assert_eq!(from_fsc(&file).unwrap_err(), ChartError::UnsupportedKeyCount);
    let mut file = fsc_file();
    file.timing_points[0].bpm = -1;
    assert_eq!(from_fsc(&file).unwrap_err(), ChartError::InvalidTempo);
}

#[test]
fn fsc_file_checks_itself() {
    let file = fsc_file();
    assert!(!file.is_dual() && !file.is_split());
    assert_eq!((file.start_time(), file.end_time()), (1000, 2500));
    assert_eq!(file.max_combo(), 4);
    assert_eq!(file.key_count(), 3);
    assert_eq!(file.get_normal_notes(), vec![0]);
    assert_eq!(file.get_long_notes(), vec![1]);
    assert_eq!(file.get_tick_notes(), vec![2]);
    assert_eq!(file.validate(), Ok(()));
    let mut plain = FscFile::new();
    plain.hit_objects =
        vec![FscHitObject::new_normal_note(0, 1), FscHitObject::new_long_note(500, 4, 250)];
    plain.timing_points = vec![FscTimingPoint::new(0, 120_000, 4)];
    assert_eq!(plain.validate(), Ok(()));
    plain.hit_objects.push(FscHitObject::new_normal_note(900, 40));
    assert_eq!(plain.validate(), Ok(()));
    let empty = FscFile::new();
    assert_eq!(empty.validate().unwrap_err(), "Map has no hit objects.");
    assert_eq!((empty.start_time(), empty.end_time(), empty.key_count()), (0, 0, 4));
    let mut file = fsc_file();
    file.timing_points.clear();
    assert_eq!(file.validate().unwrap_err(), "Map has no timing points.");
    let mut file = fsc_file();
    file.timing_points.push(FscTimingPoint::new(5, 0, 4));
    file.timing_points.push(FscTimingPoint::new(6, 1, 0));
    assert_eq!(file.validate().unwrap_err(), "A timing point has an invalid BPM.");
    file.timing_points[1].bpm = 5;
    assert_eq!(file.validate().unwrap_err(), "A timing point has an invalid signature.");
    let mut file = fsc_file();
    file.hit_objects[2].lane = -2;
    assert_eq!(file.validate().unwrap_err(), "A hit object in this map is in a lane below 1.");
    let mut note = FscHitObject::new_normal_note(100, 1);
    assert!(note.is_normal() && !note.is_ln() && !note.is_tick());
    note.set_end_time(350);
    assert!(note.is_ln());
    assert_eq!((note.holdtime, note.end_time()), (250, 350));
    note.hitsound = ":WHISTLE".to_string();
    assert_eq!(note.get_generic_keysound(), KeySound::of_type(100, HitSoundType::Whistle));
}

#[test]
fn chart_becomes_an_fsc_file() {
    let chart = from_fsc(&fsc_file()).unwrap();
    let file = to_fsc(&chart);
    assert_eq!(file.audio_file, "f.mp3");
    assert_eq!(file.metadata.title_rm, Some("Ef".to_string()));
    assert_eq!(file.metadata.tags, "one two three");
    assert_eq!(file.metadata.mapper, "fm");
    assert_eq!(file.metadata.source, Some("Unknown Source".to_string()));
    assert_eq!((file.accuracy_difficulty, file.health_difficulty), (Some(8000), Some(8000)));
    assert_eq!(file.timing_points, vec![FscTimingPoint::new(0, 60_000, 4)]);
    assert_eq!(file.scroll_velocities.len(), 1);
    assert_eq!(file.scroll_velocities[0].multiplier, 2000);
    assert_eq!(
        file.scroll_velocities[0].groups,
        Some(vec!["$1".to_string(), "$2".to_string(), "$3".to_string(), "$4".to_string()])
    );
    assert_eq!(file.hit_objects.len(), 2);
    assert_eq!((file.hit_objects[0].time, file.hit_objects[0].lane), (1000, 1));
    assert_eq!(file.hit_objects[0].holdtime, 0);
    assert_eq!(file.hit_objects[1].holdtime, 500);
    assert_eq!(file.hit_objects[1].hitsound, ":normal");
}

#[test]
fn sm_text_is_read_in_pieces() {
    assert_eq!(remove_comments("a // b\nc\n//d\ne/f"), "a \nc\n\ne/f");
    assert_eq!(
        process_sections("#A: x ;#B:1:2 : 3;junk;#C:;"),
        vec![
            ("#A".to_string(), "x".to_string()),
            ("#B".to_string(), "1:2 : 3".to_string()),
            ("#C".to_string(), "".to_string()),
        ]
    );
    assert_eq!(parse_bpms("0=120, 4.5=180.25 ,bad,7=,=3"), (vec![0, 4500], vec![120_000, 180_250]));
    assert_eq!(parse_bpms("No BPM Data"), (vec![0], vec![0]));
    assert_eq!(parse_stops("2=0.5"), (vec![2000], vec![500]));
    assert_eq!(parse_stops("No STOPS Data"), (vec![], vec![]));
    assert_eq!(
        parse_keys_in_row("01234MFx"),
        vec![
            Key::empty(),
            Key::normal(),
            Key::slider_start(None),
            Key::slider_end(),
            Key::slider_start(None),
            Key::mine(),
            Key::fake(),
            Key::unknown(),
        ]
    );
}

#[test]
fn beats_have_times_by_tempo_and_stops() {
    let beat = |b: i64| b * TICKS_PER_BEAT;
    let changes = vec![(beat(0), 120_000), (beat(4), 240_000)];
    let stops = vec![(beat(2), 500)];
    let at = |b: i64| calculate_time_from_beat(b, 100, &changes, &stops);
    assert_eq!(at(beat(0)), 100);
    assert_eq!(at(beat(1)), 600);
    assert_eq!(at(beat(2)), 1100);
    assert_eq!(at(beat(2) + 1), 1600);
    assert_eq!(at(beat(4)), 2600);
    assert_eq!(at(beat(5)), 2850);
    assert_eq!(at(beat(-1)), -400);
    assert_eq!(at(beat(1) / 2), 350);
}

#[test]
fn beat_stands_still_through_a_stop() {
    let changes = vec![(0, 120_000)];
    let stops = vec![(4 * TICKS_PER_BEAT, 500)];
    let points = process_timing_points(&changes, &stops, 0).unwrap();
    let seen: Vec<(i32, i64, TimingChangeType, i64)> = points
        .points
        .iter()
        .map(|p| (p.time, p.beat, p.change.change_type, p.change.value))
        .collect();
    assert_eq!(
        seen,
        vec![
            (0, 0, TimingChangeType::Bpm, 120_000),
            (2000, 4 * TICKS_PER_BEAT, TimingChangeType::Sv, 0),
            (2500, 4 * TICKS_PER_BEAT, TimingChangeType::Sv, 1000),
        ]
    );
    let parsed = from_sm("#BPMS:0=120,8=60;#STOPS:4=0.5;").unwrap();
    let seen: Vec<(i32, i64)> =
        parsed.chart.timing_points.points.iter().map(|p| (p.time, p.beat)).collect();
    assert_eq!(
        seen,
        vec![(0, 0), (2000, 4 * TICKS_PER_BEAT), (2500, 4 * TICKS_PER_BEAT), (4500, 8 * TICKS_PER_BEAT)]
    );
}

#[test]
fn sm_text_becomes_a_chart() {
    let parsed = from_sm(SM).unwrap();
    let chart = parsed.chart;
    assert_eq!(chart.metadata.title, "Tea");
    assert_eq!(chart.metadata.artist, "Kil");
    assert_eq!(chart.metadata.source, "Unknown Source");
    assert_eq!(chart.metadata.creator, "");
    assert_eq!(chart.chartinfo.audio_offset, 500);
    assert_eq!(chart.chartinfo.preview_time, 12_500);
    assert_eq!(chart.chartinfo.difficulty_name, "Hard");
    let points: Vec<(i32, i64, TimingChangeType, i64)> = chart
        .timing_points
        .points
        .iter()
        .map(|p| (p.time, p.beat, p.change.change_type, p.change.value))
        .collect();
    assert_eq!(
        points,
        vec![
            (500, 0, TimingChangeType::Bpm, 120_000),
            (1500, 2 * TICKS_PER_BEAT, TimingChangeType::Sv, 0),
            (2000, 2 * TICKS_PER_BEAT, TimingChangeType::Sv, 1000),
            (3000, 4 * TICKS_PER_BEAT, TimingChangeType::Bpm, 240_000),
        ]
    );
    assert_eq!(
        times_and_kinds(&chart),
        vec![
            (500, 1, KeyType::Normal, None),
            (1000, 2, KeyType::SliderStart, Some(1500)),
            (1500, 2, KeyType::SliderEnd, None),
            (3000, 4, KeyType::Normal, None),
            (3500, 2, KeyType::Mine, None),
        ]
    );
    assert_eq!(chart.hitobjects.objects[3].beat, 4 * TICKS_PER_BEAT);
    assert!(chart.soundbank.is_none());
    assert!(parsed.warnings.is_empty());
    let dangling = from_sm("#BPMS:0=60;#NOTES:a:b:c:d:e:\n0030\n0200\n;").unwrap();
    assert_eq!(
        dangling.warnings,
        vec![
            PairingWarning::UnmatchedEnd { time: 0, lane: 3 },
            PairingWarning::UnmatchedStarts { count: 1, lane: 2 },
        ]
    );
    assert_eq!(dangling.chart.hitobjects.objects[1].time, 2000);
}

#[test]
fn sm_text_with_problems_is_refused() {
    assert_eq!(from_sm("  // only a comment\n").unwrap_err(), ChartError::EmptyChart);
    assert_eq!(from_sm("").unwrap_err(), ChartError::EmptyChart);
    assert_eq!(from_sm("#TITLE:x;").unwrap_err(), ChartError::InvalidTempo);
    assert_eq!(from_sm("#BPMS:0=120,4=0;").unwrap_err(), ChartError::InvalidTempo);
    assert_eq!(from_sm("#BPMS:4=120,0=100;").unwrap_err(), ChartError::InvalidTempo);
    assert_eq!(from_sm("#BPMS:0=120;#NOTES:a:b;").unwrap_err(), ChartError::MalformedText);
    assert_eq!(
        from_sm("#BPMS:0=120;#NOTES:a:b:c:d:e:\n1000\n00000\n;").unwrap_err(),
        ChartError::MalformedGrid
    );
    let no_notes = from_sm("#BPMS:0=120;").unwrap();
    assert!(no_notes.chart.hitobjects.objects.is_empty());
    assert_eq!(no_notes.chart.validate(), Err(ChartError::EmptyChart));
}

fn chart_of(notes: Vec<HitObject>) -> GenericManiaChart {
    let mut timing_points = TimingPoints::with_capacity(1);
    timing_points.add(0, 0, TimingChange { change_type: TimingChangeType::Bpm, value: 120_000 });
    let mut chartinfo = ChartInfo::empty();
    chartinfo.key_count = 4;
    GenericManiaChart::new(Metadata::empty(), chartinfo, timing_points, HitObjects::new(notes), None)
}

#[test]
fn sm_to_osu_test() {
    let chart = from_sm(SM).unwrap().chart;
    let text = to_osu(&chart).unwrap();
    assert!(text.contains("[HitObjects]\n0,192,500,1,0,0:0:0:0:\n128,192,1000,128,0,1500:0:0:0:0:\n384,192,3000,1,0,0:0:0:0:"));
    assert!(text.contains("[TimingPoints]\n500,500,4,1,0,100,1,0\n1500,-10000,4,1,0,100,0,0\n2000,-100,4,1,0,100,0,0\n3000,250,4,1,0,100,1,0"));
}

#[test]
fn qua_to_osu_test() {
    let chart = from_qua_generic(&qua_file()).unwrap();
    let text = to_osu(&chart).unwrap();
    assert!(text.contains("Title: Q\n"));
    assert!(text.ends_with("[HitObjects]\n0,192,1000,1,0,0:0:0:0:\n384,192,2500,128,8,3000:0:0:0:0:"));
    assert!(text.contains("Sample,50,0,\"b.wav\",90\n"));
}

#[test]
fn fsc_to_osu_test() {
    let chart = from_fsc(&four_lane_fsc_file()).unwrap();
    let text = to_osu(&chart).unwrap();
    assert!(text.contains("CircleSize: 4\n"));
    assert!(text.ends_with(
        "[HitObjects]\n0,192,1000,1,0,0:0:0:0:\n256,192,2000,128,0,2500:0:0:0:0:\n\
         384,192,3000,1,0,0:0:0:0:"
    ));
    assert!(text.contains("[TimingPoints]\n0,1000,4,1,0,100,1,0\n500,-50,4,1,0,100,0,0\n"));
}

#[test]
fn osu_to_qua_test() {
    let chart = from_osu_generic(OSU).unwrap();
    let file = to_qua(&chart).unwrap();
    assert_eq!(file.title, "Song");
    assert_eq!(file.hitobjects.len(), 4);
    assert_eq!(file.hitobjects[3].endtime, Some(3000));
    assert_eq!(file.hitobjects[3].hit_sound, Some("Finish".to_string()));
    assert_eq!(file.hitobjects[3].key_sounds, vec![QuaKeySound { sample: 1, volume: 40 }]);
    assert_eq!(file.custom_audio_samples.len(), 1);
}

#[test]
fn sm_to_qua_test() {
    let chart = from_sm(SM).unwrap().chart;
    let file = to_qua(&chart).unwrap();
    assert_eq!(file.mode, "Keys4");
    assert_eq!(file.hitobjects.len(), 3);
    assert_eq!(file.hitobjects[1].endtime, Some(1500));
    assert_eq!(file.timing_points.len(), 2);
    assert_eq!(file.slider_velocities.len(), 2);
}

#[test]
fn fsc_to_qua_test() {
    let chart = from_fsc(&four_lane_fsc_file()).unwrap();
    let file = to_qua(&chart).unwrap();
    assert_eq!(file.mode, "Keys4");
    assert_eq!(file.hitobjects.len(), 3);
    assert_eq!(file.hitobjects[1].endtime, Some(2500));
    assert_eq!(file.difficulty_name, "Easy");
}

#[test]
fn sm_to_fsc_test() {
    let chart = from_sm(SM).unwrap().chart;
    let file = to_fsc(&chart);
    assert_eq!(file.metadata.title, "Tea");
    assert_eq!(file.hit_objects.len(), 3);
    assert_eq!(file.hit_objects[1].holdtime, 500);
    assert_eq!(file.timing_points.len(), 2);
    assert_eq!(file.scroll_velocities.len(), 2);
}

#[test]
fn qua_to_fsc_test() {
    let chart = from_qua_generic(&qua_file()).unwrap();
    let file = to_fsc(&chart);
    assert_eq!(file.metadata.mapper, "qc");
    assert_eq!(file.hit_objects.len(), 2);
    assert_eq!(file.hit_objects[1].hitsound, ":clap");
    assert_eq!(file.hit_objects[1].holdtime, 500);
}

#[test]
fn osu_to_fsc_test() {
    let chart = from_osu_generic(OSU).unwrap();
    let file = to_fsc(&chart);
    assert_eq!(file.metadata.title_rm, Some("歌".to_string()));
    assert_eq!(file.hit_objects.len(), 4);
    assert_eq!(file.hit_objects[3].hitsound, ":finish");
    assert_eq!(file.hit_objects[3].lane, 4);
    let round = chart_of(vec![HitObject {
        time: 5,
        beat: 0,
        keysound: KeySound::default(),
        key: Key::slider_start(None),
        lane: 2,
    }]);
    assert_eq!(to_fsc(&round).hit_objects[0].holdtime, -5);
}
