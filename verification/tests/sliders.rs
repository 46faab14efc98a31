use mania_chart::models::generic::SoundBank;
use mania_chart::models::ordered::stable_sort_in_place;
use mania_chart::models::osu::{HitObject, OsuMode};
use mania_chart::utils::quaver::{get_keycount_from_str, get_mode_from_u8};

#[test]
fn slider_curve_is_read_from_its_parameters() {
    let slider = HitObject::from_str(
        "100,100,500,2,0,B|200:200|250:200,2,310.123,2|1|2,0:0|0:0|0:2,0:0:0:0:",
    )
    .unwrap();
    assert_eq!(
        slider.slider_params(),
        Some(("B".to_string(), vec!["200:200".to_string(), "250:200".to_string()], 2, 310_123))
    );
    assert_eq!(slider.slider_edge_sounds(), vec![2, 1, 2]);
    assert_eq!(slider.slider_edge_sets(), vec![(0, 0), (0, 0), (0, 2)]);
}

#[test]
fn slider_curve_without_points_has_only_its_type() {
    let slider = HitObject::from_str("0,0,0,2,0,L,1,50,0:0:0:0:").unwrap();
    assert_eq!(slider.slider_params(), Some(("L".to_string(), vec![], 1, 50_000)));
    assert!(slider.slider_edge_sounds().is_empty());
    assert!(slider.slider_edge_sets().is_empty());
}

#[test]
fn slider_curve_needs_a_slider_with_readable_numbers() {
    let circle = HitObject::from_str("64,192,1000,1,2,0:0:0:0:").unwrap();
    assert_eq!(circle.slider_params(), None);
    assert!(circle.slider_edge_sounds().is_empty());
    assert!(circle.slider_edge_sets().is_empty());
    let mut slider = HitObject::new(0, 0, 0, 2, 0);
    slider.object_params = vec!["B|1:1".to_string(), "x".to_string(), "10".to_string()];
    assert_eq!(slider.slider_params(), None);
    slider.object_params = vec!["B|1:1".to_string(), "1".to_string(), "ten".to_string()];
    assert_eq!(slider.slider_params(), None);
    slider.object_params = vec!["B|1:1".to_string(), "1".to_string()];
    assert_eq!(slider.slider_params(), None);
}

#[test]
fn slider_edges_pass_over_what_is_no_number() {
    let mut slider = HitObject::new(0, 0, 0, 2, 0);
    slider.object_params = vec![
        "B|1:1".to_string(),
        "1".to_string(),
        "10".to_string(),
        "2|x||-7".to_string(),
        "1:2|3|a:4|5:6:7".to_string(),
    ];
    assert_eq!(slider.slider_edge_sounds(), vec![2, -7]);
    assert_eq!(slider.slider_edge_sets(), vec![(1, 2), (5, 6)]);
}

#[test]
fn line_in_a_mode_reads_the_bank_only_in_the_mania_mode() {
    let hold = HitObject::from_str_with_mode("448,0,2000.5,128,0,2500:1:0:0:70:s.wav", &OsuMode::Mania)
        .unwrap();
    let mut bank = SoundBank::new();
    assert_eq!(
        hold.to_osu_format_with_mode(&OsuMode::Mania, Some(&mut bank)),
        "448,192,2000.5,128,0,2500:0:0:0:70:s.wav"
    );
    assert_eq!(bank.get_sample_paths(), &vec!["s.wav".to_string()]);
    assert_eq!(
        hold.to_osu_format_with_mode(&OsuMode::Mania, None),
        "448,192,2000.5,128,0,2500:1:0:0:70:s.wav"
    );
    let mut other = SoundBank::new();
    assert_eq!(
        hold.to_osu_format_with_mode(&OsuMode::Unknown, Some(&mut other)),
        "448,0,2000.5,128,0,2500,1:0:0:70:s.wav"
    );
    assert!(other.get_sample_paths().is_empty());
    let circle = HitObject::from_str("64,100,1000,1,2,0:0:0:0:").unwrap();
    assert_eq!(
        circle.to_osu_format_with_mode(&OsuMode::Standard, None),
        "64,100,1000,1,2,0:0:0:0:"
    );
    assert_eq!(
        circle.to_osu_format_with_mode(&OsuMode::Taiko, None),
        "256,192,1000,1,2,0:0:0:0:"
    );
    assert_eq!(
        circle.to_osu_format_with_mode(&OsuMode::Catch, Some(&mut other)),
        "64,192,1000,1,2,0:0:0:0:"
    );
    assert!(other.get_sample_paths().is_empty());
}

#[test]
fn sorting_in_place_keeps_ties_in_order() {
    let mut objects: Vec<HitObject> = vec![
        HitObject::new(1, 0, 300_000, 1, 0),
        HitObject::new(2, 0, 100_000, 1, 0),
        HitObject::new(3, 0, 300_000, 1, 0),
        HitObject::new(4, 0, 100_000, 1, 0),
        HitObject::new(5, 0, -5_000, 1, 0),
    ];
    stable_sort_in_place(&mut objects);
    let xs: Vec<i32> = objects.iter().map(|h| h.x).collect();
    assert_eq!(xs, vec![5, 2, 4, 1, 3]);
    let mut none: Vec<HitObject> = Vec::new();
    stable_sort_in_place(&mut none);
    assert!(none.is_empty());
}

#[test]
fn mode_names_go_both_ways() {
    assert_eq!(get_keycount_from_str("Keys4"), Some(4));
    assert_eq!(get_keycount_from_str("KEYS7"), Some(7));
    assert_eq!(get_keycount_from_str("keys255"), Some(255));
    assert_eq!(get_keycount_from_str("keys256"), None);
    assert_eq!(get_keycount_from_str("keys"), None);
    assert_eq!(get_keycount_from_str("key4"), None);
    assert_eq!(get_keycount_from_str("keys-4"), None);
    assert_eq!(get_mode_from_u8(4), "keys4");
    assert_eq!(get_mode_from_u8(0), "keys0");
    assert_eq!(get_mode_from_u8(255), "keys255");
}

#[test]
fn objects_can_be_changed_in_place() {
    let mut objects = mania_chart::models::osu::HitObjects::new();
    assert!(objects.first_mut().is_none());
    assert!(objects.last_mut().is_none());
    assert!(objects.get_mut(0).is_none());
    objects.hit_objects.push(HitObject::new(1, 0, 0, 1, 0));
    objects.hit_objects.push(HitObject::new(2, 0, 0, 1, 0));
    objects.hit_objects.push(HitObject::new(3, 0, 0, 1, 0));
    objects.first_mut().unwrap().y = 10;
    objects.last_mut().unwrap().y = 30;
    objects.get_mut(1).unwrap().y = 20;
    assert!(objects.get_mut(3).is_none());
    let seen: Vec<(i32, i32)> = objects.hit_objects.iter().map(|h| (h.x, h.y)).collect();
    assert_eq!(seen, vec![(1, 10), (2, 20), (3, 30)]);
}

#[test]
fn note_names_its_stock_sound() {
    let mut note = mania_chart::models::quaver::HitObject::default();
    assert_eq!(note.hit_sound(), None);
    note.hit_sound = Some("Clap".to_string());
    assert_eq!(note.hit_sound(), Some("Clap"));
}
