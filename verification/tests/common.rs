use mania_chart::models::common::{
    CatchHitobject, CatchHitobjectType, GameMode, HitObject, Key, KeyType, OsuHitobject,
    OsuHitobjectType, TaikoHitobject, TaikoHitobjectType,
};

#[test]
fn keys_are_built_by_kind() {
    assert_eq!(Key::empty(), Key { key_type: KeyType::Empty, slider_end_time: None });
    assert_eq!(Key::normal().key_type, KeyType::Normal);
    assert_eq!(Key::slider_start(Some(5)).slider_end_time(), Some(5));
    assert_eq!(Key::slider_start(None).key_type, KeyType::SliderStart);
    assert_eq!(Key::slider_end().key_type, KeyType::SliderEnd);
    assert_eq!(Key::mine().key_type, KeyType::Mine);
    assert_eq!(Key::fake().key_type, KeyType::Fake);
    assert_eq!(Key::unknown().key_type, KeyType::Unknown);
    assert_eq!(Key::unknown().slider_end_time(), None);
}

#[test]
fn taiko_objects_are_built_by_kind() {
    assert_eq!(TaikoHitobject::empty().note_type, TaikoHitobjectType::Empty);
    assert_eq!(TaikoHitobject::don().note_type, TaikoHitobjectType::Don);
    assert_eq!(TaikoHitobject::kat().note_type, TaikoHitobjectType::Kat);
    assert_eq!(TaikoHitobject::bonus_don().note_type, TaikoHitobjectType::BonusDon);
    assert_eq!(TaikoHitobject::bonus_kat().note_type, TaikoHitobjectType::BonusKat);
    assert_eq!(TaikoHitobject::drum_roll(9).end_time(), Some(9));
    assert_eq!(TaikoHitobject::drum_roll(9).note_type, TaikoHitobjectType::DrumRoll);
    assert_eq!(TaikoHitobject::bonus_drum_roll(8).note_type, TaikoHitobjectType::BonusDrumRoll);
    assert_eq!(TaikoHitobject::balloon(7).end_time(), Some(7));
    assert_eq!(TaikoHitobject::unknown().end_time(), None);
}

#[test]
fn catch_objects_are_built_by_kind() {
    assert_eq!(CatchHitobject::empty().object_type, CatchHitobjectType::Empty);
    assert_eq!(CatchHitobject::fruit(12).x_position, 12);
    assert_eq!(CatchHitobject::juice(13).object_type, CatchHitobjectType::Juice);
    let banana = CatchHitobject::banana(14, 99);
    assert_eq!((banana.x_position, banana.end_time()), (14, Some(99)));
    assert!(CatchHitobject::hyperfruit(1).is_hyperdash());
    assert!(!CatchHitobject::fruit(1).is_hyperdash());
    assert_eq!(CatchHitobject::unknown().object_type, CatchHitobjectType::Unknown);
}

#[test]
fn standard_objects_are_built_by_kind() {
    assert_eq!(OsuHitobject::empty().object_type, OsuHitobjectType::Empty);
    let circle = OsuHitobject::hit_circle(1, 2);
    assert_eq!((circle.x, circle.y, circle.end_time()), (1, 2, None));
    assert_eq!(OsuHitobject::slider(3, 4).object_type, OsuHitobjectType::Slider);
    let spinner = OsuHitobject::spinner(50);
    assert_eq!((spinner.x, spinner.y, spinner.end_time()), (256, 192, Some(50)));
    assert_eq!(OsuHitobject::unknown().object_type, OsuHitobjectType::Unknown);
    let styled = OsuHitobject::hit_circle(0, 0).with_new_combo().with_combo_skip(3);
    assert!(styled.is_new_combo());
    assert_eq!(styled.combo_skip(), 3);
    assert!(!circle.is_new_combo());
}

#[test]
fn objects_know_their_game_mode() {
    assert_eq!(Key::normal().game_mode(), GameMode::Mania);
    assert_eq!(TaikoHitobject::don().game_mode(), GameMode::Taiko);
    assert_eq!(CatchHitobject::empty().game_mode(), GameMode::Catch);
    assert_eq!(OsuHitobject::empty().game_mode(), GameMode::OsuStandard);
    assert_eq!(GameMode::Mania.to_string(), "mania");
    assert_eq!(GameMode::Taiko.to_string(), "taiko");
    assert_eq!(GameMode::Catch.to_string(), "catch");
    assert_eq!(GameMode::OsuStandard.to_string(), "osu! standard");
}
