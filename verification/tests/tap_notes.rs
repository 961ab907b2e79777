use zuchsya::input::KeyState;
use zuchsya::judgement::note::find_closest_note;
use zuchsya::judgement::{
    cleanup_hit_notes, process_note_hits, process_note_misses, JudgementConfig, JudgementEvent,
    ScoreState,
};
use zuchsya::note::Note;
use zuchsya::scoring::{HitResult, HitWindows};
use zuchsya::scroll::GameTime;

fn note(column: u8, time_ms: i64) -> Note {
    Note { column, time_us: time_ms * 1000, hit: false }
}

fn press(lanes: u8, column: usize) -> KeyState {
    let mut keys = KeyState::new(lanes);
    keys.pressed[column] = true;
    keys.just_pressed[column] = true;
    keys
}

fn at(time_us: i64) -> GameTime {
    GameTime { current_us: time_us }
}

struct Play {
    notes: Vec<Note>,
    score: ScoreState,
    events: Vec<JudgementEvent>,
}

fn play(notes: Vec<Note>) -> Play {
    Play { notes, score: ScoreState::default(), events: Vec::new() }
}

impl Play {
    fn hits(&mut self, keys: &KeyState, now_us: i64) {
        let config = JudgementConfig::default();
        process_note_hits(
            keys,
            &at(now_us),
            &config,
            &mut self.notes,
            &mut self.score,
            &mut self.events,
        );
    }

    fn misses(&mut self, now_us: i64) {
        let config = JudgementConfig::default();
        process_note_misses(
            &at(now_us),
            &config,
            &mut self.notes,
            &mut self.score,
            &mut self.events,
        );
    }
}

#[test]
fn default_config_is_difficulty_five() {
    assert_eq!(JudgementConfig::default().hit_windows, HitWindows::new(5000));
}

#[test]
fn press_judges_the_note_by_its_offset() {
    let mut p = play(vec![note(0, 1000)]);
    p.hits(&press(4, 0), 1_015_000);
    assert!(p.notes[0].hit);
    assert_eq!(
        p.events,
        vec![JudgementEvent { result: HitResult::Perfect, column: 0, time_offset: -15_000 }]
    );
    assert_eq!(p.score.perfect_count, 1);
    assert_eq!(p.score.combo, 1);

    let mut p = play(vec![note(2, 1000)]);
    p.hits(&press(4, 2), 970_000);
    assert_eq!(
        p.events,
        vec![JudgementEvent { result: HitResult::Great, column: 2, time_offset: 30_000 }]
    );
    assert_eq!(p.score.great_count, 1);
}

#[test]
fn press_at_the_edge_of_the_widest_window_is_a_miss() {
    let mut p = play(vec![note(0, 1000)]);
    p.hits(&press(4, 0), 1_000_000 - 173_500);
    assert!(p.notes[0].hit);
    assert_eq!(p.events[0].result, HitResult::Miss);
    assert_eq!(p.score.miss_count, 1);

    let mut p = play(vec![note(0, 1000)]);
    p.hits(&press(4, 0), 1_000_000 - 173_501);
    assert!(!p.notes[0].hit);
    assert!(p.events.is_empty());
    assert_eq!(p.score, ScoreState::default());
}

#[test]
fn tie_goes_to_the_note_spawned_first() {
    for _ in 0..3 {
        let mut p = play(vec![note(0, 1000), note(0, 1005)]);
        p.hits(&press(4, 0), 1_002_500);
        assert!(p.notes[0].hit);
        assert!(!p.notes[1].hit);
        assert_eq!(
            p.events,
            vec![JudgementEvent { result: HitResult::Perfect, column: 0, time_offset: -2_500 }]
        );
    }
    // The same two notes in the other order: again the first in the list.
    let mut p = play(vec![note(0, 1005), note(0, 1000)]);
    p.hits(&press(4, 0), 1_002_500);
    assert!(p.notes[0].hit);
    assert!(!p.notes[1].hit);
    assert_eq!(p.events[0].time_offset, 2_500);
}

#[test]
fn press_judges_the_nearest_note() {
    let notes = vec![note(0, 1000), note(0, 1100), note(1, 1090), note(0, 1200)];
    let windows = HitWindows::new(5000);
    assert_eq!(find_closest_note(&notes, 0, 1_080_000, &windows), Some(1));
    assert_eq!(find_closest_note(&notes, 0, 1_040_000, &windows), Some(0));
    assert_eq!(find_closest_note(&notes, 0, 1_050_000, &windows), Some(0));
    assert_eq!(find_closest_note(&notes, 0, 1_050_001, &windows), Some(1));
    assert_eq!(find_closest_note(&notes, 1, 1_080_000, &windows), Some(2));
    assert_eq!(find_closest_note(&notes, 2, 1_080_000, &windows), None);
    assert_eq!(find_closest_note(&notes, 0, 500_000, &windows), None);
    assert_eq!(find_closest_note(&notes, 0, 1_373_500, &windows), Some(3));
    assert_eq!(find_closest_note(&notes, 0, 1_373_501, &windows), None);

    let mut p = play(notes);
    p.hits(&press(4, 0), 1_080_000);
    assert_eq!(p.notes.iter().map(|n| n.hit).collect::<Vec<_>>(), vec![false, true, false, false]);
    // The judged note is out of the choice: the next press takes the first.
    p.hits(&press(4, 0), 1_080_000);
    assert_eq!(p.notes.iter().map(|n| n.hit).collect::<Vec<_>>(), vec![true, true, false, false]);
    assert_eq!(p.events.len(), 2);
    assert_eq!(p.events[1].time_offset, -80_000);
    assert_eq!(p.events[1].result, HitResult::Good);
}

#[test]
fn one_press_judges_one_note() {
    let mut p = play(vec![note(0, 1000), note(0, 1000), note(0, 1001)]);
    p.hits(&press(4, 0), 1_000_000);
    assert_eq!(p.events.len(), 1);
    assert_eq!(p.score.objects_judged, 1);
    assert_eq!(p.notes.iter().filter(|n| n.hit).count(), 1);
    assert!(p.notes[0].hit);
}

#[test]
fn each_pressed_lane_judges_its_own_note() {
    let mut keys = KeyState::new(4);
    keys.just_pressed[1] = true;
    keys.just_pressed[3] = true;
    let mut p = play(vec![note(3, 1000), note(0, 1000), note(1, 1000)]);
    p.hits(&keys, 1_000_000);
    assert_eq!(p.notes.iter().map(|n| n.hit).collect::<Vec<_>>(), vec![true, false, true]);
    // Lane 1 comes before lane 3.
    assert_eq!(p.events.iter().map(|e| e.column).collect::<Vec<_>>(), vec![1, 3]);
    assert_eq!(p.score.combo, 2);
}

#[test]
fn keys_beyond_the_lanes_of_the_notes_are_ignored() {
    let mut keys = KeyState::new(0);
    keys.just_pressed = vec![false; 300];
    keys.just_pressed[256] = true;
    keys.just_pressed[299] = true;
    let mut p = play(vec![note(0, 1000), note(43, 1000)]);
    p.hits(&keys, 1_000_000);
    assert!(p.events.is_empty());
    keys.just_pressed[255] = true;
    let mut p = play(vec![note(255, 1000)]);
    p.hits(&keys, 1_000_000);
    assert_eq!(p.events.len(), 1);
    assert_eq!(p.events[0].column, 255);
}

#[test]
fn held_key_without_a_press_judges_nothing() {
    let mut keys = KeyState::new(4);
    keys.pressed[0] = true;
    keys.just_released[0] = true;
    let mut p = play(vec![note(0, 1000)]);
    p.hits(&keys, 1_000_000);
    assert!(p.events.is_empty());
    assert!(!p.notes[0].hit);
}

#[test]
fn note_left_behind_is_missed_once() {
    let mut p = play(vec![note(0, 1000)]);
    p.misses(1_173_500);
    assert!(!p.notes[0].hit);
    assert!(p.events.is_empty());
    p.misses(1_200_000);
    assert!(p.notes[0].hit);
    assert_eq!(
        p.events,
        vec![JudgementEvent { result: HitResult::Miss, column: 0, time_offset: -200_000 }]
    );
    assert_eq!(p.score.miss_count, 1);
    assert_eq!(p.score.combo, 0);
    // Never twice: further runs report nothing.
    p.misses(1_200_000);
    p.misses(1_300_000);
    p.misses(9_000_000);
    assert_eq!(p.events.len(), 1);
    assert_eq!(p.score.miss_count, 1);
    assert_eq!(p.score.objects_judged, 1);
    // And a press cannot judge it again.
    p.hits(&press(4, 0), 1_200_000);
    assert_eq!(p.events.len(), 1);
}

#[test]
fn miss_path_starts_just_behind_the_widest_window() {
    let mut p = play(vec![note(1, 1000)]);
    p.misses(1_173_501);
    assert!(p.notes[0].hit);
    assert_eq!(p.events[0].time_offset, -173_501);
}

#[test]
fn miss_path_leaves_hit_and_future_notes() {
    let mut p = play(vec![note(0, 1000), note(1, 1000), note(2, 5000), note(3, 900)]);
    p.hits(&press(4, 0), 1_000_000);
    p.misses(1_500_000);
    assert_eq!(p.notes.iter().map(|n| n.hit).collect::<Vec<_>>(), vec![true, true, false, true]);
    assert_eq!(
        p.events.iter().map(|e| (e.result, e.column)).collect::<Vec<_>>(),
        vec![(HitResult::Perfect, 0), (HitResult::Miss, 1), (HitResult::Miss, 3)]
    );
    assert_eq!(p.score.perfect_count, 1);
    assert_eq!(p.score.miss_count, 2);
    assert_eq!(p.score.max_combo, 1);
}

#[test]
fn judged_notes_are_discarded_after_the_delay() {
    let mut notes = vec![
        Note { column: 0, time_us: 1_000_000, hit: true },
        Note { column: 1, time_us: 1_000_000, hit: false },
        Note { column: 2, time_us: 1_100_000, hit: true },
        Note { column: 3, time_us: 1_000_001, hit: true },
    ];
    cleanup_hit_notes(&mut notes, &at(1_200_000));
    assert_eq!(notes.len(), 4);
    cleanup_hit_notes(&mut notes, &at(1_200_001));
    assert_eq!(
        notes,
        vec![
            Note { column: 1, time_us: 1_000_000, hit: false },
            Note { column: 2, time_us: 1_100_000, hit: true },
            Note { column: 3, time_us: 1_000_001, hit: true },
        ]
    );
    cleanup_hit_notes(&mut notes, &at(5_000_000));
    assert_eq!(notes, vec![Note { column: 1, time_us: 1_000_000, hit: false }]);
}
