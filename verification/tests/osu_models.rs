use mania_chart::models::common::{CatchHitobjectType, GameMode, Key, TaikoHitobjectType};
use mania_chart::models::generic::{HitSoundType, KeySound, SoundBank};
use mania_chart::models::osu::{
    Background, Break, Difficulty, Editor, Event, Events, General, HitObject, HitObjects,
    HitSample, Metadata, OsuMode, OverlayPosition, Sample, SampleSet, TimingPoint, TimingPoints,
    Video,
};

#[test]
fn events_are_written_line_by_line() {
    assert_eq!(Background::new("bg.png".to_string(), 0, 0).to_str(), "0,0,\"bg.png\"");
    assert_eq!(Background::new("bg.png".to_string(), 5, -3).to_str(), "0,0,\"bg.png\",5,-3");
    assert_eq!(Video::new(-10, "v.mp4".to_string(), 0, 0).to_str(), "Video,-10,\"v.mp4\"");
    assert_eq!(Video::new(0, "v.mp4".to_string(), 0, 7).to_str(), "Video,0,\"v.mp4\",0,7");
    assert_eq!(Break::new(100, 350).to_str(), "2,100,350");
    assert_eq!(Break::new(100, 350).duration(), 250);
    assert_eq!(Break::new(i32::MAX, i32::MIN).duration(), -4294967295);
    assert_eq!(Sample::new(9, 1, "s.wav".to_string(), 100).to_str(), "Sample,9,1,\"s.wav\"");
    assert_eq!(Sample::new(9, 1, "s.wav".to_string(), 60).to_str(), "Sample,9,1,\"s.wav\",60");
    let e = Event::new("Sample".to_string(), 12, vec!["0".to_string(), "\"a.wav\"".to_string()]);
    assert_eq!(e.to_str(), "Sample,12,0,\"a.wav\"");
    assert_eq!(Event::new("2".to_string(), 5, vec![]).to_str(), "2,5");
}

#[test]
fn events_know_their_kind() {
    let kind = |t: &str| Event::new(t.to_string(), 0, vec![]);
    assert!(kind("0").is_background());
    assert!(!kind("00").is_background());
    assert!(kind("1").is_video() && kind("Video").is_video());
    assert!(kind("2").is_break() && kind("Break").is_break());
    assert!(kind("Sample").is_sample());
    assert!(!kind("sample").is_sample());
    let layer = |l: i32| Sample::new(0, l, String::new(), 100).layer_name();
    assert_eq!(
        (layer(0), layer(1), layer(2), layer(3), layer(4), layer(-1)),
        ("Background", "Fail", "Pass", "Foreground", "Unknown", "Unknown")
    );
}

#[test]
fn events_section_collects_and_writes() {
    let mut events = Events::new();
    assert!(!events.has_background() && !events.has_video());
    assert!(!events.has_breaks() && !events.has_samples());
    events.set_background("bg.jpg".to_string(), 0, 0);
    events.set_video(50, "clip.avi".to_string(), 1, 2);
    events.add_break(1000, 2000);
    events.add_break(5000, 5500);
    events.add_sample(10, 0, "a.wav".to_string(), 100);
    events.add_sample(20, 3, "b.wav".to_string(), 50);
    events.add_sample(30, 0, "c.wav".to_string(), 70);
    events.add_sample(40, 9, "d.wav".to_string(), 100);
    assert!(events.has_background() && events.has_video());
    assert!(events.has_breaks() && events.has_samples());
    assert_eq!(events.total_break_time(), 1500);
    assert_eq!(events.samples_by_layer(0), vec![0, 2]);
    assert_eq!(events.samples_by_layer(1), Vec::<usize>::new());
    assert_eq!(
        events.to_str(),
        "//Background and Video events\n0,0,\"bg.jpg\"\nVideo,50,\"clip.avi\",1,2\n\
         //Break Periods\n2,1000,2000\n2,5000,5500\n\
         //Storyboard Layer 0 (Background)\nSample,10,0,\"a.wav\"\nSample,30,0,\"c.wav\",70\n\
         //Storyboard Layer 1 (Fail)\n//Storyboard Layer 2 (Pass)\n\
         //Storyboard Layer 3 (Foreground)\nSample,20,3,\"b.wav\",50\n\
         //Storyboard Layer 4 (Overlay)\nSample,40,9,\"d.wav\"\n\
         //Storyboard Sound Samples\n"
    );
    assert_eq!(
        Events::new().to_str(),
        "//Background and Video events\n//Break Periods\n//Storyboard Layer 0 (Background)\n\
         //Storyboard Layer 1 (Fail)\n//Storyboard Layer 2 (Pass)\n\
         //Storyboard Layer 3 (Foreground)\n//Storyboard Layer 4 (Overlay)\n\
         //Storyboard Sound Samples\n"
    );
}

#[test]
fn events_section_is_read() {
    let text = "//Background and Video events\n0,0,\"bg.jpg\",3\nVideo,50,\"clip.avi\"\n\
                2,100,200\nBreak,300,400\nSample,10,2,\"\"hit.wav\"\",80\nSample,11,1,x.wav,bad\n\
                Sample,12\n0,0\n7,1,whatever\n";
    let events = Events::from_str(text).unwrap();
    let bg = events.background.clone().unwrap();
    assert_eq!((bg.filename.as_str(), bg.x_offset, bg.y_offset), ("bg.jpg", 3, 0));
    let video = events.video.clone().unwrap();
    assert_eq!((video.start_time, video.filename.as_str()), (50, "clip.avi"));
    assert_eq!(events.breaks, vec![Break::new(100, 200), Break::new(300, 400)]);
    assert_eq!(events.samples.len(), 2);
    assert_eq!(events.samples[0].filename, "hit.wav");
    assert_eq!((events.samples[0].layer, events.samples[0].volume), (2, 80));
    assert_eq!((events.samples[1].filename.as_str(), events.samples[1].volume), ("x.wav", 100));
    assert_eq!(events.raw_events, text);
}

#[test]
fn events_section_reports_the_first_bad_line() {
    assert_eq!(
        Events::from_str("oops").unwrap_err(),
        "Expected at least 2 comma-separated values, found 1"
    );
    assert_eq!(Events::from_str("0,x,\"a\"").unwrap_err(), "Invalid start time value: x");
    assert_eq!(Events::from_str("2,1,soon").unwrap_err(), "Invalid break end time: soon");
    assert_eq!(Events::from_str("Sample,1,top,\"a\"").unwrap_err(), "Invalid sample layer: top");
    assert_eq!(
        Events::from_str("2,1,2\n2,1,bad\n0,y,z").unwrap_err(),
        "Invalid break end time: bad"
    );
    let e = Event::from_str(" Video , 5 , a , b ").unwrap_err();
    assert_eq!(e, "Invalid start time value:  5 ");
    let ok = Event::from_str(" Video ,5, a , b ").unwrap();
    assert_eq!((ok.event_type.as_str(), ok.start_time), ("Video", 5));
    assert_eq!(ok.event_params, vec!["a", "b"]);
}

#[test]
fn metadata_section_reads_and_writes() {
    let text = "Title:Song\nTitleUnicode:歌\nArtist: A \nArtistUnicode:\nCreator:me\n\
                Version:Hard\nSource:\nTags:one  two three\nBeatmapID:12\nBeatmapSetID:-1";
    let m = Metadata::from_str(text).unwrap();
    assert_eq!(m.title, "Song");
    assert_eq!(m.display_title(), "歌");
    assert_eq!(m.display_artist(), "A");
    assert_eq!(m.tags, vec!["one", "two", "three"]);
    assert_eq!((m.beatmap_id, m.beatmap_set_id), (12, -1));
    assert!(!m.is_submitted());
    assert!(m.has_unicode());
    assert_eq!(
        m.to_str(),
        "Title: Song\nTitleUnicode: 歌\nArtist: A\nArtistUnicode: \nCreator: me\nVersion: Hard\n\
         Source: \nTags: one two three\nBeatmapID: 12\nBeatmapSetID: -1"
    );
    assert_eq!(
        Metadata::from_str("BeatmapID: x\nBeatmapSetID: y").unwrap_err(),
        "Invalid BeatmapID value: x"
    );
    assert_eq!(
        Metadata::from_str("BeatmapSetID: 1.5").unwrap_err(),
        "Invalid BeatmapSetID value: 1.5"
    );
}

#[test]
fn metadata_tags_can_be_edited() {
    let mut m = Metadata::new(
        "t".to_string(),
        String::new(),
        "a".to_string(),
        String::new(),
        "c".to_string(),
        "v".to_string(),
        "s".to_string(),
        vec!["x".to_string()],
        5,
        6,
    );
    assert!(m.is_submitted());
    assert!(!m.has_unicode());
    assert_eq!(m.display_title(), "t");
    m.add_tag("y".to_string());
    m.add_tag("x".to_string());
    m.add_tag("y".to_string());
    assert_eq!(m.tags, vec!["x", "y"]);
    assert!(m.has_tag("X") && m.has_tag("y"));
    assert!(!m.has_tag("z"));
    assert_eq!(m.tags_string(), "x y");
    m.add_tag("x2".to_string());
    m.tags.push("x".to_string());
    m.remove_tag("x");
    assert_eq!(m.tags, vec!["y", "x2"]);
    m.remove_tag("missing");
    assert_eq!(m.tags, vec!["y", "x2"]);
    m.set_tags_from_string("  p  q ");
    assert_eq!(m.tags, vec!["p", "q"]);
}

#[test]
fn general_section_reads_and_writes() {
    let text = "AudioFilename: audio.mp3\nAudioLeadIn: 0\nPreviewTime: 1234\nCountdown: 0\n\
                SampleSet: Soft\nStackLeniency: 0.7\nMode: 3\nLetterboxInBreaks: 0\n\
                SpecialStyle: 1\nWidescreenStoryboard: 2\nOverlayPosition: Above\n\
                CountdownOffset: -3\nEpilepsyWarning: 0\nSkinPreference: Default\n";
    let g = General::from_str(text).unwrap();
    assert_eq!(g.audio_filename, "audio.mp3");
    assert_eq!((g.preview_time, g.countdown, g.mode), (1234, 0, 3));
    assert_eq!(g.sample_set, SampleSet::Soft);
    assert_eq!(g.stack_leniency, 700);
    assert!(!g.letterbox_in_breaks && g.special_style && g.widescreen_storyboard);
    assert_eq!(g.overlay_position, Some(OverlayPosition::Above));
    assert_eq!(g.countdown_offset, Some(-3));
    assert_eq!(g.epilepsy_warning, Some(false));
    assert_eq!(g.audio_hash, None);
    assert_eq!(g.get_mode(), GameMode::Mania);
    assert_eq!(g.get_mode_osu(), OsuMode::Mania);
    assert_eq!(g.get_mode_str(), "osu!mania");
    assert!(g.is_mania() && !g.is_taiko() && !g.is_catch() && !g.is_osu_standard());
    assert_eq!(
        g.to_str(),
        "AudioFilename: audio.mp3\nAudioLeadIn: 0\nPreviewTime: 1234\nCountdown: 0\n\
         SampleSet: Soft\nStackLeniency: 0.7\nMode: 3\nLetterboxInBreaks: 0\nSpecialStyle: 1\n\
         WidescreenStoryboard: 1\nOverlayPosition: Above\nSkinPreference: Default\n\
         EpilepsyWarning: 0\nCountdownOffset: -3"
    );
}

#[test]
fn general_section_defaults_and_errors() {
    let g = General::from_str("").unwrap();
    assert_eq!((g.audio_lead_in, g.preview_time, g.countdown, g.mode), (0, -1, 1, 0));
    assert_eq!(g.sample_set, SampleSet::Normal);
    assert_eq!(g.stack_leniency, 700);
    assert_eq!(g.get_mode(), GameMode::OsuStandard);
    assert_eq!(
        General::from_str("Mode: 300\nCountdown: x").unwrap_err(),
        "Invalid Countdown value: x"
    );
    assert_eq!(General::from_str("Mode: -1").unwrap_err(), "Invalid Mode value: -1");
    assert_eq!(General::from_str("SampleSet: Loud").unwrap_err(), "Invalid SampleSet: Loud");
    assert_eq!(
        General::from_str("OverlayPosition: Left").unwrap_err(),
        "Invalid OverlayPosition: Left"
    );
    assert_eq!(
        General::from_str("StackLeniency: much").unwrap_err(),
        "Invalid StackLeniency value: much"
    );
    let with_mode = |m: &str| General::from_str(&format!("Mode: {}", m)).unwrap();
    assert_eq!(with_mode("1").get_mode(), GameMode::Taiko);
    assert_eq!(with_mode("2").get_mode_str(), "osu!catch");
    assert_eq!(with_mode("9").get_mode_osu(), OsuMode::Unknown);
    assert_eq!(with_mode("9").get_mode_str(), "unknown");
    assert_eq!(OsuMode::Taiko.to_string(), "osu!taiko");
    assert_eq!(OverlayPosition::from_str("Below"), Ok(OverlayPosition::Below));
    assert_eq!(OverlayPosition::NoChange.to_string(), "NoChange");
    assert_eq!(SampleSet::from_str("Drum"), Ok(SampleSet::Drum));
    assert_eq!(SampleSet::Drum.to_string(), "Drum");
}

#[test]
fn editor_section_reads_and_writes() {
    let e = Editor::from_str("Bookmarks: 100, 200,,300\nDistanceSpacing: 1.2\nGridSize: 8").unwrap();
    assert_eq!(e.bookmarks, vec![100, 200, 300]);
    assert_eq!(e.distance_spacing, Some(1200));
    assert_eq!((e.beat_divisor, e.grid_size, e.timeline_zoom), (Some(4), Some(8), Some(700)));
    assert_eq!(
        e.to_str(),
        "Bookmarks: 100,200,300\nDistanceSpacing: 1.2\nBeatDivisor: 4\nGridSize: 8\nTimelineZoom: 0.7"
    );
    let d = Editor::default();
    assert_eq!(d.to_str(), "DistanceSpacing: 1\nBeatDivisor: 4\nGridSize: 4\nTimelineZoom: 0.7");
    assert_eq!(
        Editor::from_str("Bookmarks: 1,x").unwrap_err(),
        "Invalid Bookmarks value: 1,x"
    );
    assert_eq!(Editor::from_str("BeatDivisor: 1.5").unwrap_err(), "Invalid BeatDivisor value: 1.5");
    let none = Editor {
        bookmarks: vec![],
        distance_spacing: None,
        beat_divisor: None,
        grid_size: None,
        timeline_zoom: None,
    };
    assert_eq!(none.to_str(), "");
}

#[test]
fn difficulty_section_reads_writes_and_rates() {
    let d = Difficulty::from_str("HPDrainRate:8.5\nCircleSize:4\nOverallDifficulty:8\nApproachRate:5")
        .unwrap();
    assert_eq!(d, Difficulty::new(8500, 4000, 8000, 5000, 1400, 1000));
    assert!(d.is_valid());
    assert_eq!(
        d.to_str(),
        "HPDrainRate: 8.5\nCircleSize: 4\nOverallDifficulty: 8\nApproachRate: 5\n\
         SliderMultiplier: 1.4\nSliderTickRate: 1"
    );
    assert_eq!(d.difficulty_rating(), "Expert");
    assert_eq!(Difficulty::new(1000, 1000, 1000, 1000, 1, 1).difficulty_rating(), "Easy");
    assert_eq!(Difficulty::new(2000, 2000, 2000, 2000, 1, 1).difficulty_rating(), "Normal");
    assert_eq!(Difficulty::new(2700, 2700, 2700, 2700, 1, 1).difficulty_rating(), "Hard");
    assert_eq!(Difficulty::new(4000, 4000, 4000, 4000, 1, 1).difficulty_rating(), "Insane");
    assert_eq!(Difficulty::new(6500, 6500, 6500, 6500, 1, 1).difficulty_rating(), "Expert+");
    assert!(!Difficulty::new(10_001, 0, 0, 0, 1, 1).is_valid());
    assert!(!Difficulty::new(0, 0, 0, -1, 1, 1).is_valid());
    assert!(!Difficulty::new(0, 0, 0, 0, 0, 1).is_valid());
    assert_eq!(d.circle_size_pixels(), 5_440_000 - 448 * 4000);
    assert_eq!(d.approach_rate_ms(), 1_950_000 - 150 * 5000);
    assert_eq!(Difficulty::new(0, 0, 0, 4999, 1, 1).approach_rate_ms(), 1_800_000 - 120 * 4999);
    assert_eq!(d.od_300_window(None), 80_000 - 48_000);
    assert_eq!(d.od_300_window(Some(10_000)), 20_000);
    assert_eq!(d.od_100_window(None), 140_000 - 64_000);
    assert_eq!(d.od_50_window(Some(0)), 200_000);
    assert_eq!(
        Difficulty::from_str("CircleSize: big").unwrap_err(),
        "Invalid CircleSize value: big"
    );
    assert_eq!(Difficulty::default(), Difficulty::new(5000, 5000, 5000, 5000, 1400, 1000));
}

#[test]
fn timing_points_read_and_write() {
    let p = TimingPoint::from_str("1000,333.333,4,2,1,60,1,0").unwrap();
    assert_eq!(p, TimingPoint::new(1_000_000, 333_333, 4, 2, 1, 60, true, 0));
    assert_eq!(p.to_osu_format(), "1000,333.333,4,2,1,60,1,0");
    assert!(p.is_uninherited() && !p.is_inherited());
    assert_eq!(p.bpm(), Some(60_000_000_000 / 333_333));
    assert_eq!(p.slider_velocity_multiplier(), None);
    assert_eq!(p.time_ms(), 1000);
    let sv = TimingPoint::from_str("-1500.9,-50,4,2,1,60,0,1").unwrap();
    assert_eq!(sv.slider_velocity_multiplier(), Some(2000));
    assert_eq!(sv.bpm(), None);
    assert_eq!(sv.time_ms(), -1500);
    assert_eq!(sv.to_osu_format(), "-1500.9,-50,4,2,1,60,0,1");
    assert_eq!(TimingPoint::default().bpm(), Some(120_000));
    assert_eq!(
        TimingPoint::from_str("1,2,3").unwrap_err(),
        "Expected 8 comma-separated values, found 3"
    );
    assert_eq!(
        TimingPoint::from_str("a,b,c,d,e,f,g,h").unwrap_err(),
        "Invalid time value: a"
    );
    assert_eq!(
        TimingPoint::from_str("1,2,3,4,5,6,x,8").unwrap_err(),
        "Invalid uninherited value: x"
    );
    assert_eq!(
        TimingPoint::from_str("1,b,3,4,5,6,7,8").unwrap_err(),
        "Invalid beatLength value: b"
    );
}

#[test]
fn timing_point_section_reads_sorts_and_filters() {
    let text = "// points\n2000,500,4,1,0,100,1,0\n\n0,250,4,1,0,100,1,0\n1000,-200,4,1,0,100,0,0\n\
                2000,-100,4,1,0,100,0,0";
    let mut points = TimingPoints::from_str(text).unwrap();
    assert_eq!(points.count(), 4);
    assert_eq!((points.uninherited_count(), points.inherited_count()), (2, 2));
    assert_eq!(points.start_time(), Some(2_000_000));
    assert_eq!(points.end_time(), Some(2_000_000));
    assert_eq!(points.get_bpms(), vec![120_000, 240_000]);
    assert_eq!(points.get_slider_velocities(), vec![500, 1000]);
    assert_eq!(points.points_in_range(0, 1_000_000).len(), 2);
    points.sort_by_time();
    let order: Vec<(i64, bool)> =
        points.timing_points.iter().map(|p| (p.time, p.uninherited)).collect();
    assert_eq!(
        order,
        vec![(0, true), (1_000_000, false), (2_000_000, true), (2_000_000, false)]
    );
    assert_eq!(
        points.to_osu_format(),
        "0,250,4,1,0,100,1,0\n1000,-200,4,1,0,100,0,0\n2000,500,4,1,0,100,1,0\n\
         2000,-100,4,1,0,100,0,0"
    );
    let mut empty = TimingPoints::new();
    assert_eq!((empty.start_time(), empty.end_time(), empty.count()), (None, None, 0));
    assert_eq!(empty.to_osu_format(), "");
    empty.add_timing_point(TimingPoint::default());
    assert_eq!(empty.count(), 1);
    assert_eq!(
        TimingPoints::from_str("0,250,4,1,0,100,1,0\nbad").unwrap_err(),
        "Expected 8 comma-separated values, found 1"
    );
}

#[test]
fn hit_samples_read_and_write() {
    let s = HitSample::from_str("1:2:3:40:hit.wav").unwrap();
    assert_eq!((s.normal_set, s.addition_set, s.index, s.volume), (1, 2, 3, 40));
    assert_eq!(s.filename, "hit.wav");
    assert_eq!(s.to_osu_format(), "1:2:3:40:hit.wav");
    let short = HitSample::from_str("1:2:3").unwrap();
    assert_eq!(short.to_osu_format(), "0:0:0:0:");
    let odd = HitSample::from_str("x:300:-1:7").unwrap();
    assert_eq!(odd.to_osu_format(), "0:0:0:7:");
    assert_eq!(HitSample::default().to_osu_format(), "0:0:0:0:");
}

#[test]
fn hit_objects_are_read_by_mode() {
    let circle = HitObject::from_str("64,192,1000,1,2,0:0:0:0:").unwrap();
    assert_eq!((circle.x, circle.y, circle.time), (64, 192, 1_000_000));
    assert!(circle.is_hit_circle() && circle.is_normal() && !circle.is_hold());
    assert!(circle.has_whistle() && !circle.has_clap() && !circle.has_finish());
    assert!(!circle.has_normal());
    assert!(circle.object_params.is_empty());
    assert_eq!(circle.end_time(), None);
    let hold = HitObject::from_str_with_mode("448,192,2000,128,0,2500:0:0:0:70:s.wav", &OsuMode::Mania)
        .unwrap();
    assert!(hold.is_hold() && !hold.is_normal());
    assert_eq!(hold.object_params, vec!["2500"]);
    assert_eq!(hold.end_time(), Some(2500));
    assert_eq!((hold.hit_sample.volume, hold.hit_sample.filename.as_str()), (70, "s.wav"));
    let hold_standard = HitObject::from_str("448,192,2000,128,0,2500:0:0:0:70:s.wav").unwrap();
    assert!(hold_standard.object_params.is_empty());
    assert_eq!(hold_standard.hit_sample.normal_set, 0);
    assert_eq!(hold_standard.hit_sample.volume, 0);
    assert_eq!(hold_standard.hit_sample.filename, "70");
    let bare_hold = HitObject::from_str_with_mode("0,0,5,128,0,99", &OsuMode::Mania).unwrap();
    assert_eq!(bare_hold.end_time(), Some(99));
    let slider =
        HitObject::from_str("100,100,500,6,0,B|200:200|250:200,1,140,2|0,0:0|0:0,0:0:0:0:").unwrap();
    assert!(slider.is_slider() && slider.is_new_combo() && !slider.is_spinner());
    assert_eq!(slider.object_params, vec!["B|200:200|250:200", "1", "140", "2|0", "0:0|0:0"]);
    assert_eq!(slider.combo_skip(), 0);
    assert_eq!(HitObject::new(0, 0, 0, 0b0111_0101, 0).combo_skip(), 7);
    let spinner = HitObject::from_str("256,192,3000,12,8,4500,0:0:0:0:").unwrap();
    assert!(spinner.is_spinner());
    assert_eq!(spinner.end_time(), Some(4500));
    assert!(spinner.has_clap());
    assert_eq!(
        HitObject::from_str("1,2,3,4").unwrap_err(),
        "Expected at least 5 comma-separated values, found 4"
    );
    assert_eq!(HitObject::from_str("1,2,3,256,0").unwrap_err(), "Invalid type value: 256");
    assert_eq!(HitObject::from_str("1,2,3,4,-1").unwrap_err(), "Invalid hitSound value: -1");
    assert_eq!(HitObject::from_str("x,2,3,4,5").unwrap_err(), "Invalid x value: x");
    assert_eq!(HitObject::from_str("1,y,3,4,5").unwrap_err(), "Invalid y value: y");
    assert_eq!(HitObject::from_str("1,2,t,4,5").unwrap_err(), "Invalid time value: t");
}

#[test]
fn hit_objects_convert_to_other_modes() {
    let at = |x: i32| HitObject::new(x, 0, 0, 1, 0);
    assert_eq!(at(0).mania_column(4), 0);
    assert_eq!(at(64).mania_column(4), 0);
    assert_eq!(at(192).mania_column(4), 1);
    assert_eq!(at(448).mania_column(4), 3);
    assert_eq!(at(512).mania_column(4), 3);
    assert_eq!(at(9999).mania_column(7), 6);
    assert_eq!(at(-50).mania_column(4), 0);
    assert_eq!(at(100).mania_column(0), 255);
    assert_eq!(at(36).mania_column(7), 0);
    assert_eq!(at(37 * 3).mania_column(7), 1);
    assert_eq!(at(64).to_mania(4), (Key::normal(), 0));
    let mut hold = HitObject::new(448, 0, 10_000, 128, 0);
    hold.object_params.push("700".to_string());
    assert_eq!(hold.to_mania(4), (Key::slider_start(Some(700)), 3));
    assert_eq!(HitObject::new(0, 0, 0, 2, 0).to_mania(4).0, Key::empty());
    assert_eq!(HitObject::new(0, 0, 0, 1, 0).to_taiko().note_type, TaikoHitobjectType::Don);
    assert_eq!(HitObject::new(0, 0, 0, 1, 2).to_taiko().note_type, TaikoHitobjectType::Kat);
    assert_eq!(HitObject::new(0, 0, 0, 1, 8).to_taiko().note_type, TaikoHitobjectType::Kat);
    assert_eq!(HitObject::new(0, 0, 0, 1, 4).to_taiko().note_type, TaikoHitobjectType::BonusDon);
    assert_eq!(HitObject::new(0, 0, 0, 1, 6).to_taiko().note_type, TaikoHitobjectType::BonusKat);
    assert_eq!(HitObject::new(0, 0, 0, 2, 0).to_taiko().note_type, TaikoHitobjectType::DrumRoll);
    assert_eq!(
        HitObject::new(0, 0, 0, 2, 4).to_taiko().note_type,
        TaikoHitobjectType::BonusDrumRoll
    );
    let mut spinner = HitObject::new(0, 0, 0, 8, 0);
    spinner.object_params.push("900".to_string());
    assert_eq!(spinner.to_taiko().note_type, TaikoHitobjectType::Balloon);
    assert_eq!(spinner.to_taiko().end_time, Some(900));
    assert_eq!(spinner.to_catch().object_type, CatchHitobjectType::Banana);
    assert_eq!(spinner.to_catch().end_time, Some(900));
    assert_eq!(at(33).to_catch().object_type, CatchHitobjectType::Fruit);
    assert_eq!(at(33).to_catch().x_position, 33);
    assert_eq!(HitObject::new(5, 0, 0, 2, 0).to_catch().object_type, CatchHitobjectType::Juice);
    assert_eq!(HitObject::new(5, 0, 0, 128, 0).to_catch().object_type, CatchHitobjectType::Empty);
}

#[test]
fn hit_objects_find_their_key_sound() {
    let mut bank = SoundBank::new();
    let plain = HitObject::new(0, 0, 0, 1, 3);
    assert_eq!(plain.get_generic_keysound(&mut bank), KeySound::of_type(100, HitSoundType::Clap));
    assert!(bank.get_sample_paths().is_empty());
    let mut custom = HitObject::new(0, 0, 0, 1, 1);
    custom.hit_sample.filename = "kick.wav".to_string();
    custom.hit_sample.volume = 130;
    let k = custom.get_generic_keysound(&mut bank);
    assert_eq!(k, KeySound::with_custom(100, 0, Some(HitSoundType::Whistle)));
    custom.hit_sample.volume = 30;
    custom.hit_sound = 2;
    let k = custom.get_generic_keysound(&mut bank);
    assert_eq!(k, KeySound::with_custom(30, 0, Some(HitSoundType::Finish)));
    custom.hit_sample.filename = "snare.wav".to_string();
    custom.hit_sound = 9;
    let k = custom.get_generic_keysound(&mut bank);
    assert_eq!(k, KeySound::with_custom(30, 1, Some(HitSoundType::Normal)));
    custom.hit_sample.filename = "   ".to_string();
    assert_eq!(
        custom.get_generic_keysound(&mut bank),
        KeySound::of_type(100, HitSoundType::Normal)
    );
    assert_eq!(bank.get_sample_paths().len(), 2);
}

#[test]
fn hit_objects_are_written_by_mode() {
    let circle = HitObject::from_str("64,100,1000,1,2,0:0:0:0:").unwrap();
    assert_eq!(circle.to_osu_format(), "64,100,1000,1,2,0:0:0:0:");
    assert_eq!(circle.to_osu_format_standard(), "64,100,1000,1,2,0:0:0:0:");
    assert_eq!(circle.to_osu_format_mania_no_soundbank(), "64,192,1000,1,2,0:0:0:0:");
    assert_eq!(circle.to_osu_format_taiko(), "256,192,1000,1,2,0:0:0:0:");
    assert_eq!(circle.to_osu_format_catch(), "64,192,1000,1,2,0:0:0:0:");
    let hold = HitObject::from_str_with_mode("448,0,2000.5,128,0,2500:1:0:0:70:s.wav", &OsuMode::Mania)
        .unwrap();
    assert_eq!(hold.to_osu_format(), "448,0,2000.5,128,0,2500,1:0:0:70:s.wav");
    assert_eq!(hold.to_osu_format_mania_no_soundbank(), "448,192,2000.5,128,0,2500:1:0:0:70:s.wav");
    let mut bank = SoundBank::new();
    assert_eq!(hold.to_osu_format_mania(&mut bank), "448,192,2000.5,128,0,2500:0:0:0:70:s.wav");
    assert_eq!(bank.get_sample_paths(), &vec!["s.wav".to_string()]);
    assert_eq!(circle.to_osu_format_mania(&mut bank), "64,192,1000,1,2,0:0:0:0:");
    let broken_hold = HitObject::new(1, 2, 3000, 128, 0);
    assert_eq!(broken_hold.to_osu_format_mania_no_soundbank(), "1,192,3,128,0");
    let slider =
        HitObject::from_str("100,100,500,2,4,B|200:200,1,140,0:0:0:0:").unwrap();
    assert_eq!(slider.to_osu_format_standard(), "100,100,500,2,4,B|200:200,1,140,0:0:0:0:");
    assert_eq!(slider.to_osu_format_taiko(), "256,192,500,2,4,L|256:192,1,-500,0:0:0:0:");
    assert_eq!(slider.to_osu_format_catch(), "100,192,500,2,4,B|200:200,1,140,0:0:0:0:");
    let spinner = HitObject::from_str("256,192,3000,8,0,4500,0:0:0:0:").unwrap();
    assert_eq!(spinner.to_osu_format_standard(), "256,192,3000,8,0,4500,0:0:0:0:");
    assert_eq!(spinner.to_osu_format_taiko(), "256,192,3000,8,0,4500,0:0:0:0:");
    assert_eq!(spinner.to_osu_format_catch(), "256,192,3000,8,0,4500,0:0:0:0:");
    assert_eq!(HitObject::new(5, 5, 0, 128, 0).to_osu_format_catch(), "");
}

#[test]
fn hit_object_section_reads_counts_and_writes() {
    let text = "64,192,1000,1,0,0:0:0:0:\n// a comment\n192,192,500,128,0,900:0:0:0:0:\n\n\
                320,192,1000,5,0,0:0:0:0:\n256,192,1500,8,0,1800,0:0:0:0:";
    let mut objects = HitObjects::from_str_with_mode(text, &OsuMode::Mania).unwrap();
    assert_eq!(objects.count(), 4);
    assert!(!objects.is_empty());
    assert_eq!(
        (objects.hit_circle_count(), objects.slider_count(), objects.spinner_count()),
        (2, 0, 1)
    );
    assert_eq!(objects.start_time(), Some(1_000_000));
    assert_eq!(objects.end_time(), Some(1800));
    assert_eq!(objects.length(), Some(800_000));
    assert_eq!(objects.objects_in_time_range(500_000, 1_000_000), vec![0, 1, 2]);
    assert_eq!(objects.first().unwrap().x, 64);
    assert_eq!(objects.last().unwrap().x, 256);
    assert_eq!(objects.get(1).unwrap().end_time(), Some(900));
    assert!(objects.get(4).is_none());
    objects.sort_by_time();
    let xs: Vec<i32> = objects.hit_objects.iter().map(|h| h.x).collect();
    assert_eq!(xs, vec![192, 64, 320, 256]);
    assert_eq!(
        objects.to_osu_format_mania_no_soundbank(),
        "192,192,500,128,0,900:0:0:0:0:\n64,192,1000,1,0,0:0:0:0:\n320,192,1000,5,0,0:0:0:0:\n\
         256,192,1500,8,0,0:0:0:0:"
    );
    assert_eq!(objects.to_osu_format(), objects.to_osu_format_standard());
    assert!(objects.to_osu_format_taiko().starts_with("256,192,500,"));
    assert!(objects.to_osu_format_catch().starts_with("\n64,192,1000,1,0,"));
    let empty = HitObjects::new();
    assert!(empty.is_empty());
    assert_eq!((empty.start_time(), empty.end_time(), empty.length()), (None, None, None));
    assert!(empty.first().is_none() && empty.last().is_none());
    assert_eq!(empty.to_osu_format(), "");
    assert_eq!(
        HitObjects::from_str("64,192,1000,1,0\nnope").unwrap_err(),
        "Expected at least 5 comma-separated values, found 1"
    );
}
