use zuchsya::hit_object::{HitObject, MAX_TIME};
use zuchsya::input::KeyState;
use zuchsya::judgement::JudgementEvent;
use zuchsya::note::{spawn_notes, HoldNoteId, HoldNoteState, Note};
use zuchsya::scoring::{HitResult, HitWindows};
use zuchsya::session::{Frame, PlaySession};

fn frame(now_ms: i64, down: &[usize], pressed: &[usize], released: &[usize]) -> Frame {
    let mut keys = KeyState::new(4);
    for lane in down {
        keys.pressed[*lane] = true;
    }
    for lane in pressed {
        keys.pressed[*lane] = true;
        keys.just_pressed[*lane] = true;
    }
    for lane in released {
        keys.just_released[*lane] = true;
    }
    Frame { now_us: now_ms * 1000, keys }
}

fn chart() -> Vec<HitObject> {
    vec![
        HitObject::note(0, 1_000_000),
        HitObject::hold(1, 1_000_000, 1_000_000),
        HitObject::note(0, 1_500_000),
        HitObject::note(2, 2_000_000),
        HitObject::hold(3, 2_500_000, 500_000),
        HitObject::note(3, 4_000_000),
    ]
}

fn performance() -> Vec<Frame> {
    vec![
        frame(0, &[], &[], &[]),
        frame(1010, &[], &[0, 1], &[]),
        frame(1300, &[1], &[], &[0]),
        frame(1530, &[1], &[0], &[]),
        frame(1700, &[], &[], &[0, 1]),
        frame(2000, &[], &[], &[]),
        frame(2200, &[], &[], &[]),
        frame(2480, &[], &[3], &[]),
        frame(2900, &[3], &[], &[]),
        frame(3001, &[3], &[], &[]),
        frame(3500, &[], &[], &[3]),
        frame(4100, &[], &[3], &[]),
        frame(4500, &[], &[], &[3]),
    ]
}

#[test]
fn session_starts_with_every_note_unjudged() {
    let session = PlaySession::new(&chart(), 5000).unwrap();
    assert_eq!(session.config().hit_windows, HitWindows::new(5000));
    assert_eq!(session.time().current_us, 0);
    assert_eq!(
        *session.notes(),
        vec![
            Note { column: 0, time_us: 1_000_000, hit: false },
            Note { column: 0, time_us: 1_500_000, hit: false },
            Note { column: 2, time_us: 2_000_000, hit: false },
            Note { column: 3, time_us: 4_000_000, hit: false },
        ]
    );
    assert_eq!(session.holds().len(), 2);
    assert_eq!(session.holds()[0].id, HoldNoteId(0));
    assert_eq!(session.holds()[1].id, HoldNoteId(1));
    assert_eq!(session.holds()[0].head.column, 1);
    assert_eq!(session.holds()[0].head.start_time_us, 1_000_000);
    assert_eq!(session.holds()[0].head.end_time_us, 2_000_000);
    assert_eq!(session.holds()[1].head.end_time_us, 3_000_000);
    assert_eq!(session.holds()[1].state, HoldNoteState::default());
    assert_eq!(session.score().objects_judged, 0);
    assert_eq!(session.score().score(1_000_000), 150_000);
}

#[test]
fn session_without_objects_plays_the_test_pattern() {
    let session = PlaySession::new(&Vec::new(), 5000).unwrap();
    assert_eq!(session.notes().len(), 12);
    assert!(session.holds().is_empty());
    assert_eq!(session.notes()[0], Note { column: 0, time_us: 1_000_000, hit: false });
    assert_eq!(session.notes()[5], Note { column: 3, time_us: 2_000_000, hit: false });
    assert_eq!(session.notes()[11], Note { column: 3, time_us: 2_500_000, hit: false });
    let spawned = spawn_notes(&Vec::new());
    assert_eq!(&spawned.notes, session.notes());
    assert!(spawned.holds.is_empty());
}

#[test]
fn session_refuses_objects_out_of_range() {
    assert!(PlaySession::new(&vec![HitObject::note(0, MAX_TIME)], 5000).is_some());
    assert!(PlaySession::new(&vec![HitObject::note(0, MAX_TIME + 1)], 5000).is_none());
    assert!(PlaySession::new(&vec![HitObject::note(0, -MAX_TIME - 1)], 5000).is_none());
    assert!(PlaySession::new(&vec![HitObject::hold(0, 0, i64::MAX)], 5000).is_none());
    assert!(PlaySession::new(&vec![HitObject::hold(0, MAX_TIME, MAX_TIME)], 5000).is_some());
    let mixed = vec![HitObject::note(0, 0), HitObject::hold(0, 5, i64::MIN)];
    assert!(PlaySession::new(&mixed, 5000).is_none());
}

#[test]
fn tick_runs_the_paths_in_their_order() {
    // A tap note and a hold in one lane at one time, and an older note
    // that nobody hit: one press judges the tap note, the miss path the
    // old note, the head path the hold.
    let objects = vec![
        HitObject::hold(0, 1_000_000, 500_000),
        HitObject::note(1, 500_000),
        HitObject::note(0, 1_000_000),
    ];
    let mut session = PlaySession::new(&objects, 5000).unwrap();
    let tick = frame(1000, &[], &[0], &[]);
    let events = session.tick(tick.now_us, &tick.keys);
    assert_eq!(
        events,
        vec![
            JudgementEvent { result: HitResult::Perfect, column: 0, time_offset: 0 },
            JudgementEvent { result: HitResult::Miss, column: 1, time_offset: -500_000 },
            JudgementEvent { result: HitResult::Perfect, column: 0, time_offset: 0 },
        ]
    );
    assert_eq!(session.time().current_us, 1_000_000);
    assert_eq!(session.score().objects_judged, 3);
    assert_eq!(session.score().combo, 1);
    assert_eq!(session.score().max_combo, 1);
    // The missed note is 500 ms old and gone; the hit one stays a while.
    assert_eq!(*session.notes(), vec![Note { column: 0, time_us: 1_000_000, hit: true }]);
    assert!(session.holds()[0].state.is_holding);
    let tick = frame(1201, &[0], &[], &[]);
    assert!(session.tick(tick.now_us, &tick.keys).is_empty());
    assert!(session.notes().is_empty());
    assert_eq!(session.holds().len(), 1);
    let tick = frame(1500, &[0], &[], &[]);
    assert_eq!(session.tick(tick.now_us, &tick.keys).len(), 1);
    let tick = frame(1700, &[0], &[], &[]);
    assert!(session.tick(tick.now_us, &tick.keys).is_empty());
    assert!(session.holds().is_empty());
    assert_eq!(session.score().perfect_count, 3);
}

#[test]
fn tick_reports_one_event_for_each_judgement() {
    let mut session = PlaySession::new(&chart(), 5000).unwrap();
    let mut reported = 0;
    for frame in performance() {
        let before = session.score().objects_judged;
        let events = session.tick(frame.now_us, &frame.keys);
        assert_eq!(events.len() as u32, session.score().objects_judged - before);
        reported += events.len();
    }
    // Four tap notes and two holds with head and tail.
    assert_eq!(reported, 8);
    assert_eq!(session.score().total_notes(), 8);
    assert!(session.notes().is_empty());
    assert!(session.holds().is_empty());
}

#[test]
fn replay_of_a_performance() {
    let mut session = PlaySession::new(&chart(), 5000).unwrap();
    let events = session.replay(&performance());
    let summary: Vec<(HitResult, u8, i64)> =
        events.iter().map(|e| (e.result, e.column, e.time_offset)).collect();
    assert_eq!(
        summary,
        vec![
            (HitResult::Perfect, 0, -10_000),
            (HitResult::Perfect, 1, -10_000),
            (HitResult::Great, 0, -30_000),
            (HitResult::Meh, 1, 0),
            (HitResult::Miss, 2, -200_000),
            (HitResult::Great, 3, 20_000),
            (HitResult::Perfect, 3, -1_000),
            (HitResult::Okay, 3, -100_000),
        ]
    );
    assert_eq!(session.score().perfect_count, 3);
    assert_eq!(session.score().great_count, 2);
    assert_eq!(session.score().ok_count, 1);
    assert_eq!(session.score().meh_count, 1);
    assert_eq!(session.score().miss_count, 1);
    assert_eq!(session.score().combo, 3);
    assert_eq!(session.score().max_combo, 3);
    assert_eq!(session.time().current_us, 4_500_000);
}

#[test]
fn replay_is_repeatable() {
    let mut first = PlaySession::new(&chart(), 5000).unwrap();
    let first_events = first.replay(&performance());
    for _ in 0..3 {
        let mut again = PlaySession::new(&chart(), 5000).unwrap();
        let events = again.replay(&performance());
        assert_eq!(events, first_events);
        assert_eq!(again.score(), first.score());
        assert_eq!(again, first);
    }
    // Tick by tick gives what replay gives.
    let mut stepped = PlaySession::new(&chart(), 5000).unwrap();
    let mut events = Vec::new();
    for frame in performance() {
        events.extend(stepped.tick(frame.now_us, &frame.keys));
    }
    assert_eq!(events, first_events);
    assert_eq!(stepped, first);
}

#[test]
fn difficulty_changes_the_judgements() {
    let objects = vec![HitObject::note(0, 1_000_000)];
    let press = frame(1015, &[], &[0], &[]);
    let mut easy = PlaySession::new(&objects, 0).unwrap();
    assert_eq!(easy.tick(press.now_us, &press.keys)[0].result, HitResult::Perfect);
    let mut hard = PlaySession::new(&objects, 10_000).unwrap();
    assert_eq!(hard.tick(press.now_us, &press.keys)[0].result, HitResult::Great);
}

#[test]
fn total_of_the_session_scales_the_score() {
    let mut session = PlaySession::new(&vec![HitObject::note(0, 1_000_000)], 5000).unwrap();
    session.set_total_objects(4);
    assert_eq!(session.score().total_objects, 4);
    let press = frame(1000, &[], &[0], &[]);
    assert_eq!(session.tick(press.now_us, &press.keys).len(), 1);
    // One perfect judgement of four: 150000 + 850000 / 4.
    assert_eq!(session.score().score(1_000_000), 362_500);
}
