//! Judgement of tap notes.

use crate::hit_object::time_in_range;
use crate::input::KeyState;
use crate::judgement::score::ScoreState;
use crate::judgement::{
    closest, distance, is_candidate, is_closest, lanes, lemma_closest_is, lemma_closest_none,
    lemma_total_weight_update, total_weight, JudgementConfig, JudgementEvent, Target,
    CLEANUP_DELAY, LANE_LIMIT,
};
use crate::note::Note;
use crate::scoring::{HitResult, HitWindows};
use crate::scroll::GameTime;
use vstd::prelude::*;

verus! {

impl Note {
    /// What the choice among notes reads of this note.
    pub open spec fn target(self) -> Target {
        Target { column: self.column, time_us: self.time_us, open: !self.hit }
    }

    /// The note once it is judged.
    pub open spec fn judged(self) -> Note {
        Note { hit: true, ..self }
    }

    /// 1 for a note that awaits its judgement, else 0.
    pub open spec fn pending(self) -> nat {
        if self.hit {
            0
        } else {
            1
        }
    }
}

/// The targets of a sequence of tap notes.
pub open spec fn note_targets(notes: Seq<Note>) -> Seq<Target> {
    notes.map_values(|note: Note| note.target())
}

/// The number of notes that await their judgement.
pub open spec fn open_notes(notes: Seq<Note>) -> nat {
    total_weight(notes, |note: Note| note.pending())
}

/// The tap notes of a session with the score and the events so far.
pub struct TapPlay {
    pub notes: Seq<Note>,
    pub score: ScoreState,
    pub events: Seq<JudgementEvent>,
}

impl TapPlay {
    /// Every note's time is in range, the score is consistent, and the
    /// counters have room for every judgement still to come.
    pub open spec fn wf(self) -> bool {
        &&& forall|i: int| 0 <= i < self.notes.len() ==> (#[trigger] self.notes[i]).wf()
        &&& self.score.wf()
        &&& self.score.objects_judged + open_notes(self.notes) <= u32::MAX
    }

    /// Whether this play can come of `before` by judging notes: it is well
    /// formed, holds as many notes, every judgement moved one note from
    /// the open ones to the score and brought one event, and the total of
    /// the score is what it was.
    pub open spec fn follows(self, before: TapPlay) -> bool {
        &&& self.wf()
        &&& self.notes.len() == before.notes.len()
        &&& self.score.objects_judged + open_notes(self.notes) == before.score.objects_judged
            + open_notes(before.notes)
        &&& self.events.len() - before.events.len() == self.score.objects_judged
            - before.score.objects_judged
        &&& self.score.objects_judged >= before.score.objects_judged
        &&& self.score.total_objects == before.score.total_objects
    }

    /// The play after note `i` got `result` at `offset`.
    pub open spec fn judge(self, i: int, result: HitResult, offset: int) -> TapPlay {
        TapPlay {
            notes: self.notes.update(i, self.notes[i].judged()),
            score: self.score.spec_add_judgement(result),
            events: self.events.push(
                JudgementEvent { result, column: self.notes[i].column, time_offset: offset as i64 },
            ),
        }
    }

    /// The play after a key press in `column`: the closest candidate in
    /// that lane, if there is one, is judged by its offset.
    pub open spec fn press(self, column: u8, now: int, windows: HitWindows) -> TapPlay {
        match closest(note_targets(self.notes), column, now, windows) {
            Some(i) => {
                let offset = self.notes[i].time_us - now;
                match windows.spec_result_for(offset) {
                    Some(result) => self.judge(i, result, offset),
                    None => self,
                }
            },
            None => self,
        }
    }

    /// The play after the presses in the lanes below `n`, lane 0 first.
    pub open spec fn hits_through(
        self,
        just_pressed: Seq<bool>,
        now: int,
        windows: HitWindows,
        n: int,
    ) -> TapPlay
        decreases n,
    {
        if n <= 0 {
            self
        } else {
            let before = self.hits_through(just_pressed, now, windows, n - 1);
            if just_pressed[n - 1] {
                before.press((n - 1) as u8, now, windows)
            } else {
                before
            }
        }
    }

    /// The play after the hit path of one tick.
    pub open spec fn process_hits(
        self,
        just_pressed: Seq<bool>,
        now: int,
        windows: HitWindows,
    ) -> TapPlay {
        self.hits_through(just_pressed, now, windows, lanes(just_pressed))
    }

    /// Whether note `i` awaits its judgement and has receded past the
    /// widest window.
    pub open spec fn is_overdue(self, i: int, now: int, windows: HitWindows) -> bool {
        !self.notes[i].hit && windows.spec_is_past(self.notes[i].time_us - now)
    }

    /// The play after note `i` was looked at by the miss path.
    pub open spec fn miss(self, i: int, now: int, windows: HitWindows) -> TapPlay {
        if self.is_overdue(i, now, windows) {
            self.judge(i, HitResult::Miss, self.notes[i].time_us - now)
        } else {
            self
        }
    }

    /// The play after the miss path looked at the notes below `n`.
    pub open spec fn misses_through(self, now: int, windows: HitWindows, n: int) -> TapPlay
        decreases n,
    {
        if n <= 0 {
            self
        } else {
            self.misses_through(now, windows, n - 1).miss(n - 1, now, windows)
        }
    }

    /// The play after the miss path of one tick.
    pub open spec fn process_misses(self, now: int, windows: HitWindows) -> TapPlay {
        self.misses_through(now, windows, self.notes.len() as int)
    }
}

/// Whether a judged note has stayed its time and is discarded at `now`.
pub open spec fn is_expired(note: Note, now: int) -> bool {
    note.hit && now - note.time_us > CLEANUP_DELAY
}

/// The notes that stay at `now`, in their order.
pub open spec fn spec_cleanup_hit_notes(notes: Seq<Note>, now: int) -> Seq<Note> {
    notes.filter(|note: Note| !is_expired(note, now))
}

/// Judging an open note keeps the play well formed and moves one
/// judgement from the notes to the score.
pub proof fn lemma_judge_keeps_wf(play: TapPlay, i: int, result: HitResult, offset: int)
    requires
        play.wf(),
        0 <= i < play.notes.len(),
        !play.notes[i].hit,
    ensures
        play.score.has_room(),
        play.judge(i, result, offset).wf(),
        play.judge(i, result, offset).notes.len() == play.notes.len(),
        open_notes(play.judge(i, result, offset).notes) + 1 == open_notes(play.notes),
{
    let weight = |note: Note| note.pending();
    lemma_total_weight_update(play.notes, weight, i, play.notes[i].judged());
    crate::judgement::score::lemma_add_judgement_keeps_wf(play.score, result);
}

/// One press judges one note: where the lane holds a candidate, the press
/// judges the closest one by its offset and reports one event, and where
/// it holds none, the press changes nothing.
pub proof fn lemma_press_judges_one(play: TapPlay, column: u8, now: int, windows: HitWindows)
    ensures
        match closest(note_targets(play.notes), column, now, windows) {
            Some(i) => {
                &&& is_closest(note_targets(play.notes), i, column, now, windows)
                &&& windows.spec_result_for(play.notes[i].time_us - now) is Some
                &&& play.press(column, now, windows) == play.judge(
                    i,
                    windows.spec_result_for(play.notes[i].time_us - now).unwrap(),
                    play.notes[i].time_us - now,
                )
                &&& play.press(column, now, windows).events.len() == play.events.len() + 1
            },
            None => play.press(column, now, windows) == play,
        },
{
    crate::judgement::lemma_closest_some(note_targets(play.notes), column, now, windows);
    if let Some(i) = closest(note_targets(play.notes), column, now, windows) {
        crate::scoring::lemma_hittable_is_classified(windows, play.notes[i].time_us - now);
    }
}

/// A tie goes to the note spawned first: of two candidates equally far
/// from the clock, a press never judges the later one.
pub proof fn lemma_tie_goes_to_first(
    notes: Seq<Note>,
    first: int,
    second: int,
    column: u8,
    now: int,
    windows: HitWindows,
)
    requires
        0 <= first < second < notes.len(),
        is_candidate(notes[first].target(), column, now, windows),
        is_candidate(notes[second].target(), column, now, windows),
        distance(notes[first].target(), now) == distance(notes[second].target(), now),
    ensures
        closest(note_targets(notes), column, now, windows) is Some,
        closest(note_targets(notes), column, now, windows) != Some(second),
{
    let targets = note_targets(notes);
    crate::judgement::lemma_closest_some(targets, column, now, windows);
    assert(targets[first] == notes[first].target());
    assert(targets[second] == notes[second].target());
    crate::judgement::lemma_closest_exists(targets, first, column, now, windows);
}

/// The hit path judges each note at most once: the play after the presses
/// in the lanes below `n` follows the play before them.
pub proof fn lemma_hits_follow(
    play: TapPlay,
    just_pressed: Seq<bool>,
    now: int,
    windows: HitWindows,
    n: int,
)
    requires
        play.wf(),
    ensures
        play.hits_through(just_pressed, now, windows, n).follows(play),
    decreases n,
{
    if n > 0 {
        lemma_hits_follow(play, just_pressed, now, windows, n - 1);
        let before = play.hits_through(just_pressed, now, windows, n - 1);
        if just_pressed[n - 1] {
            let column = (n - 1) as u8;
            lemma_press_judges_one(before, column, now, windows);
            if let Some(i) = closest(note_targets(before.notes), column, now, windows) {
                assert(note_targets(before.notes)[i] == before.notes[i].target());
                lemma_judge_keeps_wf(
                    before,
                    i,
                    windows.spec_result_for(before.notes[i].time_us - now).unwrap(),
                    before.notes[i].time_us - now,
                );
            }
        }
    }
}

/// The miss path judges each note at most once: the play after it looked
/// at the notes below `n` follows the play before.
pub proof fn lemma_misses_follow(play: TapPlay, now: int, windows: HitWindows, n: int)
    requires
        play.wf(),
        n <= play.notes.len(),
    ensures
        play.misses_through(now, windows, n).follows(play),
    decreases n,
{
    if n > 0 {
        lemma_misses_follow(play, now, windows, n - 1);
        let before = play.misses_through(now, windows, n - 1);
        if before.is_overdue(n - 1, now, windows) {
            lemma_judge_keeps_wf(
                before,
                n - 1,
                HitResult::Miss,
                before.notes[n - 1].time_us - now,
            );
        }
    }
}

/// The cleanup discards judged notes only: every note that stays is in
/// range, and as many notes await their judgement as before.
pub proof fn lemma_cleanup_keeps_open(notes: Seq<Note>, now: int)
    requires
        forall|i: int| 0 <= i < notes.len() ==> (#[trigger] notes[i]).wf(),
    ensures
        forall|i: int|
            0 <= i < spec_cleanup_hit_notes(notes, now).len() ==> (#[trigger] spec_cleanup_hit_notes(
                notes,
                now,
            )[i]).wf(),
        open_notes(spec_cleanup_hit_notes(notes, now)) == open_notes(notes),
    decreases notes.len(),
{
    let keep = |note: Note| !is_expired(note, now);
    let weight = |note: Note| note.pending();
    reveal(Seq::filter);
    if notes.len() > 0 {
        let rest = notes.drop_last();
        lemma_cleanup_keeps_open(rest, now);
        assert(spec_cleanup_hit_notes(rest, now) == rest.filter(keep));
        if keep(notes.last()) {
            crate::judgement::lemma_total_weight_push(rest.filter(keep), weight, notes.last());
        }
    }
}

/// The number of notes that await their judgement and have receded past
/// the widest window.
pub open spec fn overdue_notes(notes: Seq<Note>, now: int, windows: HitWindows) -> nat {
    total_weight(
        notes,
        |note: Note|
            if !note.hit && windows.spec_is_past(note.time_us - now) {
                1nat
            } else {
                0nat
            },
    )
}

/// What the miss path does to the notes below `n`: each overdue note is
/// judged, every other note stays as it is, and one event is added for
/// each overdue note.
pub proof fn lemma_misses_through(play: TapPlay, now: int, windows: HitWindows, n: int)
    requires
        0 <= n <= play.notes.len(),
    ensures
        play.misses_through(now, windows, n).notes.len() == play.notes.len(),
        forall|i: int|
            0 <= i < n ==> #[trigger] play.misses_through(now, windows, n).notes[i] == if play.is_overdue(
                i,
                now,
                windows,
            ) {
                play.notes[i].judged()
            } else {
                play.notes[i]
            },
        forall|i: int|
            n <= i < play.notes.len() ==> #[trigger] play.misses_through(now, windows, n).notes[i]
                == play.notes[i],
        play.misses_through(now, windows, n).events.len() == play.events.len() + overdue_notes(
            play.notes.take(n),
            now,
            windows,
        ),
    decreases n,
{
    if n > 0 {
        lemma_misses_through(play, now, windows, n - 1);
        let before = play.misses_through(now, windows, n - 1);
        assert(before.notes[n - 1] == play.notes[n - 1]);
        assert(before.is_overdue(n - 1, now, windows) == play.is_overdue(n - 1, now, windows));
        assert(play.notes.take(n).drop_last() =~= play.notes.take(n - 1));
    }
}

/// A play in which no note is overdue is left as it is by the miss path.
pub proof fn lemma_no_overdue_no_change(play: TapPlay, now: int, windows: HitWindows, n: int)
    requires
        0 <= n <= play.notes.len(),
        forall|i: int| 0 <= i < play.notes.len() ==> !play.is_overdue(i, now, windows),
    ensures
        play.misses_through(now, windows, n) == play,
    decreases n,
{
    if n > 0 {
        lemma_no_overdue_no_change(play, now, windows, n - 1);
    }
}

/// No note is missed twice: a second run of the miss path at the same
/// clock changes nothing and reports nothing.
pub proof fn lemma_miss_pass_settles(play: TapPlay, now: int, windows: HitWindows)
    ensures
        play.process_misses(now, windows).process_misses(now, windows) == play.process_misses(
            now,
            windows,
        ),
{
    let once = play.process_misses(now, windows);
    lemma_misses_through(play, now, windows, play.notes.len() as int);
    assert forall|i: int| 0 <= i < once.notes.len() implies !once.is_overdue(i, now, windows) by {
        assert(once.notes[i] == if play.is_overdue(i, now, windows) {
            play.notes[i].judged()
        } else {
            play.notes[i]
        });
    }
    lemma_no_overdue_no_change(once, now, windows, once.notes.len() as int);
}

/// At a difficulty from 0 to 10, a tap note that was never hit and whose
/// time lies 200 ms or more behind the clock is judged by the miss path,
/// which reports one event for each note that it judges, and the miss
/// path at any later clock leaves the note as it is.
pub proof fn lemma_overdue_note_missed_once(
    play: TapPlay,
    i: int,
    now: int,
    later: int,
    windows: HitWindows,
)
    requires
        0 <= windows.overall_difficulty <= crate::scoring::MAX_DIFFICULTY,
        0 <= i < play.notes.len(),
        !play.notes[i].hit,
        now - play.notes[i].time_us >= CLEANUP_DELAY,
    ensures
        play.is_overdue(i, now, windows),
        play.process_misses(now, windows).notes[i] == play.notes[i].judged(),
        play.process_misses(now, windows).events.len() == play.events.len() + overdue_notes(
            play.notes,
            now,
            windows,
        ),
        play.process_misses(now, windows).process_misses(later, windows).notes[i]
            == play.notes[i].judged(),
{
    crate::scoring::lemma_window_bounds(windows, HitResult::Miss);
    let once = play.process_misses(now, windows);
    lemma_misses_through(play, now, windows, play.notes.len() as int);
    assert(play.notes.take(play.notes.len() as int) =~= play.notes);
    assert(once.notes[i] == play.notes[i].judged());
    lemma_misses_through(once, later, windows, once.notes.len() as int);
    assert(!once.is_overdue(i, later, windows));
}

/// The note that a press in `column` judges, if any.
pub fn find_closest_note(notes: &Vec<Note>, column: u8, now: i64, windows: &HitWindows) -> (found:
    Option<usize>)
    requires
        time_in_range(now as int),
        forall|i: int| 0 <= i < notes@.len() ==> (#[trigger] notes@[i]).wf(),
    ensures
        match found {
            Some(i) => closest(note_targets(notes@), column, now as int, *windows) == Some(
                i as int,
            ),
            None => closest(note_targets(notes@), column, now as int, *windows) is None,
        },
{
    let ghost targets = note_targets(notes@);
    let mut best: Option<usize> = None;
    let mut best_distance: i64 = 0;
    let mut i: usize = 0;
    while i < notes.len()
        invariant
            i <= notes@.len(),
            targets == note_targets(notes@),
            time_in_range(now as int),
            forall|k: int| 0 <= k < notes@.len() ==> (#[trigger] notes@[k]).wf(),
            match best {
                Some(b) => {
                    &&& b < i
                    &&& is_candidate(targets[b as int], column, now as int, *windows)
                    &&& best_distance == distance(targets[b as int], now as int)
                    &&& forall|j: int|
                        0 <= j < i && is_candidate(#[trigger] targets[j], column, now as int, *windows)
                            ==> best_distance <= distance(targets[j], now as int)
                    &&& forall|j: int|
                        0 <= j < b && is_candidate(#[trigger] targets[j], column, now as int, *windows)
                            ==> best_distance < distance(targets[j], now as int)
                },
                None => forall|j: int|
                    0 <= j < i ==> !is_candidate(#[trigger] targets[j], column, now as int, *windows),
            },
        decreases notes@.len() - i,
    {
        let note = notes[i];
        assert(notes@[i as int].wf());
        assert(targets[i as int] == note.target());
        if note.column == column && !note.hit {
            let offset: i64 = note.time_us - now;
            if windows.can_be_hit(offset) {
                let d: i64 = if offset < 0 {
                    -offset
                } else {
                    offset
                };
                let closer = match best {
                    Some(_) => d < best_distance,
                    None => true,
                };
                if closer {
                    best = Some(i);
                    best_distance = d;
                }
            }
        }
        i = i + 1;
    }
    proof {
        match best {
            Some(b) => {
                assert(is_closest(targets, b as int, column, now as int, *windows));
                lemma_closest_is(targets, b as int, column, now as int, *windows);
            },
            None => {
                lemma_closest_none(targets, column, now as int, *windows);
            },
        }
    }
    best
}

/// The hit path for tap notes: each lane whose key went down in this tick
/// judges the closest note of that lane that can be hit, lane 0 first.
pub fn process_note_hits(
    key_state: &KeyState,
    game_time: &GameTime,
    config: &JudgementConfig,
    notes: &mut Vec<Note>,
    score: &mut ScoreState,
    events: &mut Vec<JudgementEvent>,
)
    requires
        game_time.wf(),
        (TapPlay { notes: old(notes)@, score: *old(score), events: old(events)@ }).wf(),
    ensures
        (TapPlay { notes: final(notes)@, score: *final(score), events: final(events)@ }) == (TapPlay {
            notes: old(notes)@,
            score: *old(score),
            events: old(events)@,
        }).process_hits(
            key_state.just_pressed@,
            game_time.current_us as int,
            config.hit_windows,
        ),
        (TapPlay { notes: final(notes)@, score: *final(score), events: final(events)@ }).wf(),
        final(notes)@.len() == old(notes)@.len(),
        final(score).objects_judged + open_notes(final(notes)@) == old(score).objects_judged
            + open_notes(old(notes)@),
        final(events)@.len() - old(events)@.len() == final(score).objects_judged - old(
            score,
        ).objects_judged,
{
    let now = game_time.current_us;
    let windows = config.hit_windows;
    let ghost start = TapPlay { notes: notes@, score: *score, events: events@ };
    let lane_count: usize = if key_state.just_pressed.len() < LANE_LIMIT {
        key_state.just_pressed.len()
    } else {
        LANE_LIMIT
    };
    let mut lane: usize = 0;
    while lane < lane_count
        invariant
            lane <= lane_count,
            lane_count == lanes(key_state.just_pressed@),
            lane_count <= key_state.just_pressed@.len(),
            time_in_range(now as int),
            start.wf(),
            (TapPlay { notes: notes@, score: *score, events: events@ }) == start.hits_through(
                key_state.just_pressed@,
                now as int,
                windows,
                lane as int,
            ),
            (TapPlay { notes: notes@, score: *score, events: events@ }).wf(),
            notes@.len() == start.notes.len(),
            score.objects_judged + open_notes(notes@) == start.score.objects_judged + open_notes(
                start.notes,
            ),
            events@.len() - start.events.len() == score.objects_judged - start.score.objects_judged,
        decreases lane_count - lane,
    {
        let ghost before = TapPlay { notes: notes@, score: *score, events: events@ };
        if key_state.just_pressed[lane] {
            let column: u8 = lane as u8;
            match find_closest_note(notes, column, now, &windows) {
                Some(i) => {
                    let note = notes[i];
                    assert(notes@[i as int].wf());
                    let offset: i64 = note.time_us - now;
                    proof {
                        let targets = note_targets(notes@);
                        assert(is_closest(targets, i as int, column, now as int, windows));
                        assert(targets[i as int] == note.target());
                    }
                    match windows.result_for(offset) {
                        Some(result) => {
                            proof {
                                lemma_judge_keeps_wf(before, i as int, result, offset as int);
                            }
                            notes.set(i, Note { column: note.column, time_us: note.time_us, hit: true });
                            score.add_judgement(result);
                            events.push(JudgementEvent { result, column, time_offset: offset });
                            assert((TapPlay { notes: notes@, score: *score, events: events@ })
                                == before.judge(i as int, result, offset as int));
                        },
                        None => {},
                    }
                },
                None => {},
            }
        }
        lane = lane + 1;
    }
}

/// The miss path for tap notes: every note that awaits its judgement and
/// has receded past the widest window is judged a miss, in the order of
/// the notes.
pub fn process_note_misses(
    game_time: &GameTime,
    config: &JudgementConfig,
    notes: &mut Vec<Note>,
    score: &mut ScoreState,
    events: &mut Vec<JudgementEvent>,
)
    requires
        game_time.wf(),
        (TapPlay { notes: old(notes)@, score: *old(score), events: old(events)@ }).wf(),
    ensures
        (TapPlay { notes: final(notes)@, score: *final(score), events: final(events)@ }) == (TapPlay {
            notes: old(notes)@,
            score: *old(score),
            events: old(events)@,
        }).process_misses(game_time.current_us as int, config.hit_windows),
        (TapPlay { notes: final(notes)@, score: *final(score), events: final(events)@ }).wf(),
        final(notes)@.len() == old(notes)@.len(),
        final(score).objects_judged + open_notes(final(notes)@) == old(score).objects_judged
            + open_notes(old(notes)@),
        final(events)@.len() - old(events)@.len() == final(score).objects_judged - old(
            score,
        ).objects_judged,
{
    let now = game_time.current_us;
    let windows = config.hit_windows;
    let ghost start = TapPlay { notes: notes@, score: *score, events: events@ };
    let mut i: usize = 0;
    while i < notes.len()
        invariant
            i <= notes@.len(),
            notes@.len() == start.notes.len(),
            time_in_range(now as int),
            (TapPlay { notes: notes@, score: *score, events: events@ }) == start.misses_through(
                now as int,
                windows,
                i as int,
            ),
            (TapPlay { notes: notes@, score: *score, events: events@ }).wf(),
            score.objects_judged + open_notes(notes@) == start.score.objects_judged + open_notes(
                start.notes,
            ),
            events@.len() - start.events.len() == score.objects_judged - start.score.objects_judged,
        decreases notes@.len() - i,
    {
        let ghost before = TapPlay { notes: notes@, score: *score, events: events@ };
        let note = notes[i];
        assert(notes@[i as int].wf());
        if !note.hit {
            let offset: i64 = note.time_us - now;
            if windows.is_past(offset) {
                proof {
                    lemma_judge_keeps_wf(before, i as int, HitResult::Miss, offset as int);
                }
                notes.set(i, Note { column: note.column, time_us: note.time_us, hit: true });
                score.add_judgement(HitResult::Miss);
                events.push(
                    JudgementEvent {
                        result: HitResult::Miss,
                        column: note.column,
                        time_offset: offset,
                    },
                );
                assert((TapPlay { notes: notes@, score: *score, events: events@ }) == before.judge(
                    i as int,
                    HitResult::Miss,
                    offset as int,
                ));
            }
        }
        i = i + 1;
    }
}

/// Discards the judged notes whose time lies more than `CLEANUP_DELAY`
/// behind the clock; the others stay in their order.
pub fn cleanup_hit_notes(notes: &mut Vec<Note>, game_time: &GameTime)
    requires
        game_time.wf(),
        forall|i: int| 0 <= i < old(notes)@.len() ==> (#[trigger] old(notes)@[i]).wf(),
    ensures
        final(notes)@ == spec_cleanup_hit_notes(old(notes)@, game_time.current_us as int),
        forall|i: int| 0 <= i < final(notes)@.len() ==> (#[trigger] final(notes)@[i]).wf(),
        open_notes(final(notes)@) == open_notes(old(notes)@),
{
    let now = game_time.current_us;
    let ghost keep = |note: Note| !is_expired(note, now as int);
    let ghost weight = |note: Note| note.pending();
    let mut kept: Vec<Note> = Vec::new();
    let mut i: usize = 0;
    while i < notes.len()
        invariant
            i <= notes@.len(),
            notes@ == old(notes)@,
            time_in_range(now as int),
            keep == |note: Note| !is_expired(note, now as int),
            weight == |note: Note| note.pending(),
            forall|k: int| 0 <= k < notes@.len() ==> (#[trigger] notes@[k]).wf(),
            kept@ == notes@.take(i as int).filter(keep),
            forall|k: int| 0 <= k < kept@.len() ==> (#[trigger] kept@[k]).wf(),
            total_weight(kept@, weight) == total_weight(notes@.take(i as int), weight),
        decreases notes@.len() - i,
    {
        let note = notes[i];
        assert(notes@[i as int].wf());
        proof {
            let prefix = notes@.take(i as int);
            let next = notes@.take(i as int + 1);
            assert(next =~= prefix.push(note));
            assert(next.drop_last() =~= prefix);
            reveal(Seq::filter);
            crate::judgement::lemma_total_weight_push(prefix, weight, note);
            crate::judgement::lemma_total_weight_push(kept@, weight, note);
        }
        let expired = note.hit && now - note.time_us > CLEANUP_DELAY;
        if !expired {
            kept.push(note);
        }
        i = i + 1;
    }
    assert(notes@.take(notes@.len() as int) =~= notes@);
    *notes = kept;
}

} // verus!
