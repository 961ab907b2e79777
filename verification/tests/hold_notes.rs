use zuchsya::input::KeyState;
use zuchsya::judgement::hold::find_closest_head;
use zuchsya::judgement::{
    cleanup_hold_notes, process_hold_head_hits, process_hold_head_misses, process_hold_release,
    update_hold_state, JudgementConfig, JudgementEvent, ScoreState,
};
use zuchsya::note::{HoldNote, HoldNoteHead, HoldNoteId, HoldNoteState};
use zuchsya::scoring::{Accuracy, HitResult, HitWindows};
use zuchsya::scroll::GameTime;

fn hold(id: u32, column: u8, start_ms: i64, end_ms: i64) -> HoldNote {
    HoldNote {
        id: HoldNoteId(id),
        head: HoldNoteHead { column, start_time_us: start_ms * 1000, end_time_us: end_ms * 1000 },
        state: HoldNoteState::default(),
    }
}

#[derive(Clone, Copy)]
enum Key {
    Up,
    Down,
    Pressed,
    Released,
    /// Let go and pressed again within one tick.
    Tapped,
}

fn keys(lane0: Key) -> KeyState {
    let mut keys = KeyState::new(4);
    match lane0 {
        Key::Up => {}
        Key::Down => keys.pressed[0] = true,
        Key::Pressed => {
            keys.pressed[0] = true;
            keys.just_pressed[0] = true;
        }
        Key::Released => keys.just_released[0] = true,
        Key::Tapped => {
            keys.pressed[0] = true;
            keys.just_released[0] = true;
        }
    }
    keys
}

struct Play {
    holds: Vec<HoldNote>,
    score: ScoreState,
    events: Vec<JudgementEvent>,
}

fn play(holds: Vec<HoldNote>) -> Play {
    Play { holds, score: ScoreState::default(), events: Vec::new() }
}

impl Play {
    /// The four hold paths of one tick, in their order.
    fn tick(&mut self, now_ms: i64, key: Key) {
        self.tick_us(now_ms * 1000, key);
    }

    fn tick_us(&mut self, now_us: i64, key: Key) {
        let config = JudgementConfig::default();
        let time = GameTime { current_us: now_us };
        let keys = keys(key);
        process_hold_head_hits(
            &keys,
            &time,
            &config,
            &mut self.holds,
            &mut self.score,
            &mut self.events,
        );
        process_hold_head_misses(
            &time,
            &config,
            &mut self.holds,
            &mut self.score,
            &mut self.events,
        );
        update_hold_state(&keys, &time, &mut self.holds, &mut self.score);
        process_hold_release(
            &keys,
            &time,
            &config,
            &mut self.holds,
            &mut self.score,
            &mut self.events,
        );
    }

    fn results(&self) -> Vec<HitResult> {
        self.events.iter().map(|e| e.result).collect()
    }
}

#[test]
fn new_hold_waits_for_its_head() {
    assert_eq!(
        HoldNoteState::default(),
        HoldNoteState {
            head_hit: false,
            head_result: None,
            is_holding: false,
            hold_broken: false,
            tail_judged: false,
        }
    );
}

#[test]
fn hold_held_to_its_end_is_perfect() {
    let mut p = play(vec![hold(0, 0, 1000, 2000)]);
    p.tick(900, Key::Up);
    assert!(p.events.is_empty());
    p.tick(1000, Key::Pressed);
    assert_eq!(
        p.events,
        vec![JudgementEvent { result: HitResult::Perfect, column: 0, time_offset: 0 }]
    );
    assert_eq!(
        p.holds[0].state,
        HoldNoteState {
            head_hit: true,
            head_result: Some(HitResult::Perfect),
            is_holding: true,
            hold_broken: false,
            tail_judged: false,
        }
    );
    p.tick(1500, Key::Down);
    p.tick(1999, Key::Down);
    assert_eq!(p.events.len(), 1);
    p.tick(2003, Key::Down);
    assert_eq!(
        p.events[1],
        JudgementEvent { result: HitResult::Perfect, column: 0, time_offset: -3_000 }
    );
    assert_eq!(
        p.holds[0].state,
        HoldNoteState {
            head_hit: true,
            head_result: Some(HitResult::Perfect),
            is_holding: false,
            hold_broken: false,
            tail_judged: true,
        }
    );
    assert_eq!(p.score.perfect_count, 2);
    assert_eq!(p.score.combo, 2);
    // The tail is judged once.
    p.tick(2010, Key::Released);
    p.tick(2500, Key::Up);
    assert_eq!(p.events.len(), 2);
    assert_eq!(p.score.objects_judged, 2);
}

#[test]
fn broken_body_caps_a_perfect_tail_to_meh() {
    let mut p = play(vec![hold(0, 0, 1000, 2000)]);
    p.tick(1000, Key::Pressed);
    assert_eq!(p.results(), vec![HitResult::Perfect]);
    assert_eq!(p.score.combo, 1);
    // The key is let go in the middle of the hold.
    p.tick(1500, Key::Released);
    assert_eq!(p.events.len(), 1);
    assert!(p.holds[0].state.hold_broken);
    assert!(!p.holds[0].state.is_holding);
    assert!(!p.holds[0].state.tail_judged);
    // The break costs the combo, not the accuracy.
    assert_eq!(p.score.combo, 0);
    assert_eq!(p.score.miss_count, 0);
    assert_eq!(p.score.objects_judged, 1);
    assert_eq!(p.score.accuracy, Accuracy { num: 6, den: 6 });
    // The end comes with a tail offset of 0 ms.
    p.tick(2000, Key::Up);
    assert_eq!(
        p.events[1],
        JudgementEvent { result: HitResult::Meh, column: 0, time_offset: 0 }
    );
    assert_eq!(p.score.meh_count, 1);
    assert_eq!(p.score.combo, 1);
    assert_eq!(p.score.max_combo, 1);
    assert_eq!(p.score.accuracy, Accuracy { num: 7, den: 12 });
}

#[test]
fn broken_hold_cannot_be_taken_up_again() {
    let mut p = play(vec![hold(0, 0, 1000, 2000)]);
    p.tick(1000, Key::Pressed);
    p.tick(1200, Key::Released);
    p.tick(1300, Key::Pressed);
    assert!(!p.holds[0].state.is_holding);
    assert!(p.holds[0].state.hold_broken);
    p.tick(2000, Key::Down);
    // Held at the end, yet capped.
    assert_eq!(p.results(), vec![HitResult::Perfect, HitResult::Meh]);
}

#[test]
fn unbroken_hold_is_taken_up_again() {
    // A state put together by hand: in play a hold is held from its head
    // on until it breaks.
    let mut holds = vec![hold(0, 0, 1000, 2000)];
    holds[0].state.head_hit = true;
    holds[0].state.head_result = Some(HitResult::Great);
    let mut score = ScoreState::default();
    let time = GameTime { current_us: 1_500_000 };
    update_hold_state(&keys(Key::Up), &time, &mut holds, &mut score);
    assert!(!holds[0].state.is_holding);
    assert!(!holds[0].state.hold_broken);
    update_hold_state(&keys(Key::Down), &time, &mut holds, &mut score);
    assert!(holds[0].state.is_holding);
    assert!(!holds[0].state.hold_broken);
    assert_eq!(score, ScoreState::default());
}

#[test]
fn body_is_tracked_only_inside_the_hold() {
    let mut p = play(vec![hold(0, 0, 1000, 2000)]);
    // The head is hit 20 ms early; at 999 ms the hold has not begun.
    p.tick(980, Key::Pressed);
    assert_eq!(p.results(), vec![HitResult::Great]);
    let mut score = p.score;
    update_hold_state(&keys(Key::Up), &GameTime { current_us: 999_999 }, &mut p.holds, &mut score);
    assert!(p.holds[0].state.is_holding);
    update_hold_state(&keys(Key::Up), &GameTime { current_us: 2_000_000 }, &mut p.holds, &mut score);
    assert!(p.holds[0].state.is_holding);
    assert_eq!(score.combo, 1);
    update_hold_state(&keys(Key::Up), &GameTime { current_us: 1_000_000 }, &mut p.holds, &mut score);
    assert!(!p.holds[0].state.is_holding);
    assert!(p.holds[0].state.hold_broken);
    assert_eq!(score.combo, 0);
}

#[test]
fn missed_head_breaks_the_hold_and_caps_the_tail() {
    let mut p = play(vec![hold(0, 0, 1000, 2000)]);
    p.tick_us(1_173_500, Key::Up);
    assert!(p.events.is_empty());
    p.tick_us(1_173_501, Key::Up);
    assert_eq!(
        p.events,
        vec![JudgementEvent { result: HitResult::Miss, column: 0, time_offset: -173_501 }]
    );
    assert_eq!(
        p.holds[0].state,
        HoldNoteState {
            head_hit: true,
            head_result: Some(HitResult::Miss),
            is_holding: false,
            hold_broken: true,
            tail_judged: false,
        }
    );
    assert_eq!(p.score.miss_count, 1);
    // The head is missed once.
    p.tick(1500, Key::Pressed);
    p.tick(1800, Key::Down);
    assert_eq!(p.events.len(), 1);
    p.tick(2000, Key::Down);
    assert_eq!(p.results(), vec![HitResult::Miss, HitResult::Meh]);
    assert_eq!(p.events[1].time_offset, 0);
    assert!(p.holds[0].state.tail_judged);
}

#[test]
fn head_hit_at_the_edge_of_the_widest_window_caps_the_tail() {
    let mut p = play(vec![hold(0, 0, 1000, 2000)]);
    p.tick_us(1_173_500, Key::Pressed);
    assert_eq!(p.results(), vec![HitResult::Miss]);
    assert!(p.holds[0].state.is_holding);
    assert!(!p.holds[0].state.hold_broken);
    p.tick(1500, Key::Down);
    p.tick(2000, Key::Down);
    assert_eq!(p.results(), vec![HitResult::Miss, HitResult::Meh]);
}

#[test]
fn late_release_is_judged_with_wider_windows() {
    let mut p = play(vec![hold(0, 0, 1000, 2000)]);
    p.tick(1000, Key::Pressed);
    p.tick(1999, Key::Down);
    // 60 ms late: Good for a head, Great for a tail.
    p.tick(2060, Key::Released);
    assert_eq!(
        p.events[1],
        JudgementEvent { result: HitResult::Great, column: 0, time_offset: -60_000 }
    );
    assert_eq!(HitWindows::new(5000).result_for(-60_000), Some(HitResult::Good));
    assert_eq!(p.score.combo, 2);
}

#[test]
fn release_far_from_the_end_is_a_miss() {
    let mut p = play(vec![hold(0, 0, 1000, 2000)]);
    p.tick(980, Key::Pressed);
    assert_eq!(p.events[0].time_offset, 20_000);
    // Let go before the hold begins: the tail is out of every window.
    p.tick(990, Key::Released);
    assert_eq!(
        p.events[1],
        JudgementEvent { result: HitResult::Miss, column: 0, time_offset: 1_010_000 }
    );
    assert_eq!(p.score.combo, 0);
    assert_eq!(p.score.miss_count, 1);
    assert!(p.holds[0].state.tail_judged);
    assert!(!p.holds[0].state.hold_broken);
}

#[test]
fn end_without_the_key_is_judged_by_the_clock() {
    // The key goes up in the very tick in which the end has come.
    let mut p = play(vec![hold(0, 0, 1000, 2000)]);
    p.tick(1000, Key::Pressed);
    p.tick(1990, Key::Down);
    p.tick(2100, Key::Up);
    // 100 ms / 1.5 = 66.7 ms: Good.
    assert_eq!(
        p.events[1],
        JudgementEvent { result: HitResult::Good, column: 0, time_offset: -100_000 }
    );
}

#[test]
fn release_comes_before_holding_through() {
    // The key was let go and pressed again in one tick past the end: the
    // release counts, not the key that is down.
    let mut p = play(vec![hold(0, 0, 1000, 2000)]);
    p.tick(1000, Key::Pressed);
    p.tick(1990, Key::Down);
    p.tick(2100, Key::Tapped);
    assert_eq!(p.results(), vec![HitResult::Perfect, HitResult::Good]);

    let mut p = play(vec![hold(0, 0, 1000, 2000)]);
    p.tick(1000, Key::Pressed);
    p.tick(1990, Key::Down);
    p.tick(2100, Key::Down);
    assert_eq!(p.results(), vec![HitResult::Perfect, HitResult::Perfect]);
}

#[test]
fn head_tie_goes_to_the_hold_spawned_first() {
    let holds = vec![hold(0, 0, 1000, 2000), hold(1, 0, 1005, 2000), hold(2, 0, 1001, 1500)];
    let windows = HitWindows::new(5000);
    assert_eq!(find_closest_head(&holds, 0, 1_002_500, &windows), Some(2));
    assert_eq!(find_closest_head(&holds[..2].to_vec(), 0, 1_002_500, &windows), Some(0));
    assert_eq!(find_closest_head(&holds, 0, 1_004_000, &windows), Some(1));
    assert_eq!(find_closest_head(&holds, 1, 1_004_000, &windows), None);
    let mut p = play(holds[..2].to_vec());
    p.tick_us(1_002_500, Key::Pressed);
    assert!(p.holds[0].state.head_hit);
    assert!(!p.holds[1].state.head_hit);
    assert_eq!(p.events[0].time_offset, -2_500);
}

#[test]
fn tails_in_a_lane_without_a_key_end_unheld() {
    // Lane 9 has no key in a four-lane key state.
    let mut p = play(vec![hold(0, 9, 1000, 2000)]);
    p.holds[0].state.head_hit = true;
    p.holds[0].state.head_result = Some(HitResult::Perfect);
    p.holds[0].state.is_holding = true;
    p.tick(1500, Key::Down);
    assert!(p.holds[0].state.hold_broken);
    p.tick(2000, Key::Down);
    assert_eq!(p.results(), vec![HitResult::Meh]);
    assert_eq!(p.events[0].column, 9);
}

#[test]
fn finished_holds_are_discarded_after_the_delay() {
    let mut holds = vec![hold(0, 0, 1000, 2000), hold(1, 1, 1000, 2000), hold(2, 2, 1000, 2100)];
    holds[0].state.head_hit = true;
    holds[0].state.tail_judged = true;
    holds[2].state.head_hit = true;
    holds[2].state.tail_judged = true;
    let expected = holds.clone();
    cleanup_hold_notes(&mut holds, &GameTime { current_us: 2_199_999 });
    assert_eq!(holds, expected);
    cleanup_hold_notes(&mut holds, &GameTime { current_us: 2_200_000 });
    assert_eq!(holds, expected[1..].to_vec());
    cleanup_hold_notes(&mut holds, &GameTime { current_us: 60_000_000 });
    assert_eq!(holds, expected[1..2].to_vec());
}
