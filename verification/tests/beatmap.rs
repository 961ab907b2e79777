use zuchsya::beatmap::{
    default_preview_time, AudioInfo, BeatmapError, Difficulty, EditorInfo, Metadata, ZuchsyaMap,
    FORMAT_VERSION,
};
use zuchsya::hit_object::{is_time_in_range, HitObject, MAX_TIME};
use zuchsya::input::LaneKey::{KeyA, KeyD, KeyF, KeyJ, KeyK, KeyL, KeyS, Semicolon, Space};
use zuchsya::input::{flag_at, KeyBindings, KeyState};
use zuchsya::note::{CurrentHitObjects, Note};
use zuchsya::scroll::{reset_game_time, GameTime};
use zuchsya::scroll_velocity::ScrollVelocity;
use zuchsya::timing::{default_signature, TimingPoint};

#[test]
fn empty_beatmap() {
    let map = ZuchsyaMap::new();
    assert_eq!(map.version, FORMAT_VERSION);
    assert_eq!(map.version, 1);
    assert_eq!(map.metadata, Metadata::default());
    assert_eq!(map.audio, AudioInfo::default());
    assert_eq!(map.background, None);
    assert_eq!(map.difficulty, Difficulty { keys: 4, od: 5000, hp: 5000 });
    assert_eq!(map.timing, vec![TimingPoint { time: 0, bpm: 120_000, signature: 4 }]);
    assert!(map.scroll_velocities.is_empty());
    assert!(map.hit_objects.is_empty());
    assert_eq!(map.editor, None);
    assert_eq!(map, ZuchsyaMap::default());
    assert_eq!(map.validate(), Ok(()));
    assert_eq!(map.duration(), 0);
    assert_eq!(map.object_count(), 0);
    assert_eq!(map.bpm(), 120_000);
}

#[test]
fn defaults() {
    let metadata = Metadata::default();
    assert!(metadata.title.is_empty() && metadata.artist.is_empty());
    assert!(metadata.creator.is_empty() && metadata.difficulty_name.is_empty());
    assert!(metadata.title_unicode.is_none() && metadata.artist_unicode.is_none());
    assert!(metadata.source.is_none() && metadata.tags.is_empty());
    assert_eq!(AudioInfo::default().preview_time, -1);
    assert!(AudioInfo::default().file.is_empty());
    assert_eq!(default_preview_time(), -1);
    assert_eq!(Difficulty::default(), Difficulty { keys: 4, od: 5000, hp: 5000 });
    assert!(EditorInfo::default().bookmarks.is_empty());
    assert!(EditorInfo::default().breaks.is_empty());
    assert_eq!(TimingPoint::default(), TimingPoint { time: 0, bpm: 120_000, signature: 4 });
    assert_eq!(TimingPoint::new(5, 90_500), TimingPoint { time: 5, bpm: 90_500, signature: 4 });
    assert_eq!(
        TimingPoint::with_signature(5, 90_500, 3),
        TimingPoint { time: 5, bpm: 90_500, signature: 3 }
    );
    assert_eq!(default_signature(), 4);
    assert_eq!(ScrollVelocity::default(), ScrollVelocity { time: 0, multiplier: 1000 });
    assert_eq!(ScrollVelocity::new(7, 2000), ScrollVelocity { time: 7, multiplier: 2000 });
    assert_eq!(HitObject::default(), HitObject { time: 0, lane: 0, duration: None });
    assert!(CurrentHitObjects::default().objects.is_empty());
    assert_eq!(GameTime::default().current_us, 0);
}

#[test]
fn validation_asks_for_a_timing_point() {
    let mut map = ZuchsyaMap::new();
    map.timing.clear();
    assert_eq!(
        map.validate(),
        Err(BeatmapError::Validation("At least one timing point is required".to_string()))
    );
    // The timing point is asked for first.
    map.difficulty.keys = 0;
    assert_eq!(
        map.validate(),
        Err(BeatmapError::Validation("At least one timing point is required".to_string()))
    );
}

#[test]
fn validation_asks_for_one_to_ten_keys() {
    let mut map = ZuchsyaMap::new();
    for keys in [0u8, 11, 12, 255] {
        map.difficulty.keys = keys;
        assert_eq!(
            map.validate(),
            Err(BeatmapError::Validation("Key count must be between 1 and 10".to_string()))
        );
    }
    for keys in 1u8..=10 {
        map.difficulty.keys = keys;
        assert_eq!(map.validate(), Ok(()));
    }
}

#[test]
fn counts_and_duration() {
    let mut map = ZuchsyaMap::new();
    map.hit_objects = vec![
        HitObject::note(0, 1_000_000),
        HitObject::hold(1, 2_000_000, 3_000_000),
        HitObject::note(2, 4_500_000),
        HitObject::hold(3, 100_000, 250_000),
        HitObject::note(0, 4_000_000),
    ];
    assert_eq!(map.object_count(), 5);
    assert_eq!(map.note_count(), 3);
    assert_eq!(map.hold_count(), 2);
    assert_eq!(map.duration(), 5_000_000);
    map.hit_objects.push(HitObject::note(1, 5_000_001));
    assert_eq!(map.duration(), 5_000_001);
    assert_eq!(map.note_count(), 4);
    map.hit_objects = vec![HitObject::note(0, -5), HitObject::hold(0, -100, 40)];
    assert_eq!(map.duration(), 0);
}

#[test]
fn tempo_of_the_first_timing_point() {
    let mut map = ZuchsyaMap::new();
    map.timing = vec![TimingPoint::new(0, 174_000), TimingPoint::new(60_000_000, 87_000)];
    assert_eq!(map.bpm(), 174_000);
    map.timing.clear();
    assert_eq!(map.bpm(), 120_000);
}

#[test]
fn hit_objects() {
    let note = HitObject::note(3, 1_500_000);
    assert_eq!(note, HitObject { time: 1_500_000, lane: 3, duration: None });
    assert_eq!(note.lane(), 3);
    assert_eq!(note.column(), 3);
    assert_eq!(note.start_time(), 1_500_000);
    assert_eq!(note.end_time(), 1_500_000);
    assert_eq!(note.get_duration(), 0);
    assert!(!note.is_hold());
    assert!(note.is_valid());
    let hold = HitObject::hold(1, 1_500_000, 250_000);
    assert_eq!(hold, HitObject { time: 1_500_000, lane: 1, duration: Some(250_000) });
    assert_eq!(hold.end_time(), 1_750_000);
    assert_eq!(hold.get_duration(), 250_000);
    assert!(hold.is_hold());
    assert!(HitObject::hold(0, 0, 0).is_hold());
    assert!(!HitObject::hold(0, 0, MAX_TIME + 1).is_valid());
    assert!(!HitObject::note(0, i64::MIN).is_valid());
    assert!(is_time_in_range(-MAX_TIME) && is_time_in_range(MAX_TIME));
    assert!(!is_time_in_range(MAX_TIME + 1));
    assert_eq!(MAX_TIME, 1_000_000_000_000_000_000);
}

#[test]
fn key_bindings() {
    let four = vec![KeyD, KeyF, KeyJ, KeyK];
    assert_eq!(KeyBindings::default().keys, four);
    assert_eq!(KeyBindings::for_key_count(1).keys, vec![Space]);
    assert_eq!(KeyBindings::for_key_count(2).keys, vec![KeyF, KeyJ]);
    assert_eq!(KeyBindings::for_key_count(3).keys, vec![KeyF, Space, KeyJ]);
    assert_eq!(KeyBindings::for_key_count(4).keys, four);
    assert_eq!(KeyBindings::for_key_count(5).keys, vec![KeyD, KeyF, Space, KeyJ, KeyK]);
    assert_eq!(KeyBindings::for_key_count(6).keys, vec![KeyS, KeyD, KeyF, KeyJ, KeyK, KeyL]);
    assert_eq!(
        KeyBindings::for_key_count(7).keys,
        vec![KeyS, KeyD, KeyF, Space, KeyJ, KeyK, KeyL]
    );
    assert_eq!(
        KeyBindings::for_key_count(8).keys,
        vec![KeyA, KeyS, KeyD, KeyF, KeyJ, KeyK, KeyL, Semicolon]
    );
    for other in [0u8, 9, 10, 200] {
        assert_eq!(KeyBindings::for_key_count(other).keys, four);
    }
}

#[test]
fn key_state() {
    let state = KeyState::new(7);
    assert_eq!(state.pressed, vec![false; 7]);
    assert_eq!(state.just_pressed, vec![false; 7]);
    assert_eq!(state.just_released, vec![false; 7]);
    assert!(KeyState::default().pressed.is_empty());
    assert!(KeyState::new(0).just_pressed.is_empty());
    let flags = vec![false, true, false];
    assert!(!flag_at(&flags, 0));
    assert!(flag_at(&flags, 1));
    assert!(!flag_at(&flags, 3));
    assert!(!flag_at(&flags, 255));
}

#[test]
fn clock() {
    let mut time = GameTime::default();
    time.advance(16_667);
    time.advance(16_667);
    assert_eq!(time.current_us, 33_334);
    time.advance(0);
    assert_eq!(time.current_us, 33_334);
    reset_game_time(&mut time);
    assert_eq!(time.current_us, 0);
    let _ = Note { column: 0, time_us: 0, hit: false };
}

#[test]
fn beatmap_errors_keep_their_message() {
    let io = BeatmapError::Io("file not found".to_string());
    let yaml = BeatmapError::Yaml("file not found".to_string());
    let validation = BeatmapError::Validation("file not found".to_string());
    assert_ne!(io, yaml);
    assert_ne!(yaml, validation);
    assert_ne!(io, validation);
    assert_eq!(io, BeatmapError::Io("file not found".to_string()));
    assert_eq!(format!("{:?}", validation), "Validation(\"file not found\")");
}
