//! Judgement of hold notes: head, body and tail.
//!
//! The head is judged like a tap note. While the clock is inside the hold
//! the body follows the key: letting go breaks the hold and the combo. The
//! tail is judged once, with time windows one and a half times as wide,
//! and no better than Meh after a missed head or a broken body.

use crate::hit_object::time_in_range;
use crate::input::{flag_at, lane_flag, KeyState};
use crate::judgement::score::{lemma_add_judgement_keeps_wf, ScoreState};
use crate::judgement::{
    closest, distance, is_candidate, is_closest, lanes, lemma_closest_is, lemma_closest_none,
    lemma_closest_some, lemma_total_weight_push, lemma_total_weight_update, total_weight, JudgementConfig,
    JudgementEvent, Target, CLEANUP_DELAY, LANE_LIMIT,
};
use crate::note::{HoldNote, HoldNoteState};
use crate::scoring::{HitResult, HitWindows};
use crate::scroll::GameTime;
use vstd::prelude::*;

verus! {

/// The tail's windows are `LENIENCE_NUM / LENIENCE_DEN` times as wide as
/// the head's: one and a half times.
pub const LENIENCE_NUM: i64 = 3;

/// The denominator of the tail's lenience.
pub const LENIENCE_DEN: i64 = 2;

/// How a tail comes to be judged.
#[derive(Debug, Clone, Copy, PartialEq, Eq, Structural)]
pub enum TailTrigger {
    /// The key came up while the hold was held.
    Released,
    /// The end of the hold has come and the key is not down.
    EndedUnheld,
    /// The end of the hold has come and the key is still down.
    EndedHeld,
}

impl HitWindows {
    /// Whether `time_offset` divided by the lenience lies within the
    /// window of `result`: `|time_offset| * 2 <= window * 3`.
    pub open spec fn spec_within_lenient(self, time_offset: int, result: HitResult) -> bool {
        vstd::math::abs(time_offset) * LENIENCE_DEN <= self.spec_window_for(result) * LENIENCE_NUM
    }

    /// The best result whose window holds `time_offset` divided by the
    /// lenience, if any.
    pub open spec fn spec_lenient_result_for(self, time_offset: int) -> Option<HitResult> {
        if self.spec_within_lenient(time_offset, HitResult::Perfect) {
            Some(HitResult::Perfect)
        } else if self.spec_within_lenient(time_offset, HitResult::Great) {
            Some(HitResult::Great)
        } else if self.spec_within_lenient(time_offset, HitResult::Good) {
            Some(HitResult::Good)
        } else if self.spec_within_lenient(time_offset, HitResult::Okay) {
            Some(HitResult::Okay)
        } else if self.spec_within_lenient(time_offset, HitResult::Meh) {
            Some(HitResult::Meh)
        } else if self.spec_within_lenient(time_offset, HitResult::Miss) {
            Some(HitResult::Miss)
        } else {
            None
        }
    }

    fn within_lenient(&self, time_offset: i64, result: HitResult) -> (b: bool)
        ensures
            b == self.spec_within_lenient(time_offset as int, result),
    {
        let w: i128 = self.window_for(result) as i128;
        let a: i128 = if time_offset < 0 {
            -(time_offset as i128)
        } else {
            time_offset as i128
        };
        a * 2 <= w * 3
    }

    /// Classifies a tail offset: the offset divided by one and a half is
    /// held against the windows.
    pub fn lenient_result_for(&self, time_offset: i64) -> (result: Option<HitResult>)
        ensures
            result == self.spec_lenient_result_for(time_offset as int),
    {
        if self.within_lenient(time_offset, HitResult::Perfect) {
            Some(HitResult::Perfect)
        } else if self.within_lenient(time_offset, HitResult::Great) {
            Some(HitResult::Great)
        } else if self.within_lenient(time_offset, HitResult::Good) {
            Some(HitResult::Good)
        } else if self.within_lenient(time_offset, HitResult::Okay) {
            Some(HitResult::Okay)
        } else if self.within_lenient(time_offset, HitResult::Meh) {
            Some(HitResult::Meh)
        } else if self.within_lenient(time_offset, HitResult::Miss) {
            Some(HitResult::Miss)
        } else {
            None
        }
    }
}

impl HoldNoteState {
    /// The states that a hold can reach: there is a head result exactly
    /// once the head is judged; a hold is broken, held or done with its
    /// tail only after its head is judged; it is not held once its tail
    /// is judged; and between head and tail it is held or broken.
    pub open spec fn consistent(self) -> bool {
        &&& self.head_hit <==> self.head_result.is_some()
        &&& self.hold_broken ==> self.head_hit
        &&& self.is_holding ==> self.head_hit && !self.tail_judged
        &&& self.tail_judged ==> self.head_hit
        &&& self.in_progress() ==> self.is_holding || self.hold_broken
    }

    /// Whether the head was missed or the body broken.
    pub open spec fn has_combo_break(self) -> bool {
        self.head_result == Some(HitResult::Miss) || self.hold_broken
    }

    /// Whether head and tail tracking applies: the head is judged and the
    /// tail is not.
    pub open spec fn in_progress(self) -> bool {
        self.head_hit && !self.tail_judged
    }

    /// The state after the head was hit with `result`.
    pub open spec fn head_judged(self, result: HitResult) -> HoldNoteState {
        HoldNoteState { head_hit: true, head_result: Some(result), is_holding: true, ..self }
    }

    /// The state after the head went by unhit.
    pub open spec fn head_missed(self) -> HoldNoteState {
        HoldNoteState {
            head_hit: true,
            head_result: Some(HitResult::Miss),
            hold_broken: true,
            ..self
        }
    }

    /// The state after the key was let go inside the hold.
    pub open spec fn broken(self) -> HoldNoteState {
        HoldNoteState { is_holding: false, hold_broken: true, ..self }
    }

    /// The state after the key was taken up again.
    pub open spec fn resumed(self) -> HoldNoteState {
        HoldNoteState { is_holding: true, ..self }
    }

    /// The state after the tail was judged.
    pub open spec fn tail_done(self) -> HoldNoteState {
        HoldNoteState { tail_judged: true, is_holding: false, ..self }
    }
}

impl HoldNote {
    /// What the choice among heads reads of this hold.
    pub open spec fn target(self) -> Target {
        Target {
            column: self.head.column,
            time_us: self.head.start_time_us,
            open: !self.state.head_hit,
        }
    }

    /// The judgements still to come: one for the head, one for the tail.
    pub open spec fn pending(self) -> nat {
        (if self.state.head_hit {
            0nat
        } else {
            1nat
        }) + (if self.state.tail_judged {
            0nat
        } else {
            1nat
        })
    }

    /// The hold with another state.
    pub open spec fn with_state(self, state: HoldNoteState) -> HoldNote {
        HoldNote { state, ..self }
    }

    /// Whether the clock is inside the hold: from its start up to, not
    /// including, its end.
    pub open spec fn in_duration(self, now: int) -> bool {
        self.head.start_time_us <= now < self.head.end_time_us
    }

    /// What the body does in a tick in which the key is `held`.
    pub open spec fn body_step(self, held: bool, now: int) -> BodyStep {
        if !self.state.in_progress() || !self.in_duration(now) {
            BodyStep::Keep
        } else if self.state.is_holding && !held {
            BodyStep::Break
        } else if !self.state.is_holding && held && !self.state.hold_broken {
            BodyStep::Resume
        } else {
            BodyStep::Keep
        }
    }

    /// Whether and why the tail is judged in this tick. Of the three
    /// triggers the first that applies counts, in the order of
    /// `TailTrigger`.
    pub open spec fn tail_trigger(self, held: bool, released: bool, now: int) -> Option<
        TailTrigger,
    > {
        if !self.state.in_progress() {
            None
        } else if released && self.state.is_holding {
            Some(TailTrigger::Released)
        } else if !held && now >= self.head.end_time_us {
            Some(TailTrigger::EndedUnheld)
        } else if held && now >= self.head.end_time_us {
            Some(TailTrigger::EndedHeld)
        } else {
            None
        }
    }

    /// The result of the tail by its timing alone: a held-through end is
    /// an offset of zero, anything else the lenient classification of the
    /// end minus the clock, and a miss outside all windows.
    pub open spec fn tail_timing_result(self, trigger: TailTrigger, now: int, windows: HitWindows)
        -> HitResult {
        match trigger {
            TailTrigger::EndedHeld => match windows.spec_result_for(0) {
                Some(result) => result,
                None => HitResult::Perfect,
            },
            _ => match windows.spec_lenient_result_for(self.head.end_time_us - now) {
                Some(result) => result,
                None => HitResult::Miss,
            },
        }
    }

    /// The result of the tail: its timing result, and no better than Meh
    /// after a missed head or a broken body.
    pub open spec fn tail_result(self, trigger: TailTrigger, now: int, windows: HitWindows)
        -> HitResult {
        let by_timing = self.tail_timing_result(trigger, now, windows);
        if self.state.has_combo_break() {
            by_timing.spec_min(HitResult::Meh)
        } else {
            by_timing
        }
    }
}

/// What the body of a hold does in one tick.
#[derive(Debug, Clone, Copy, PartialEq, Eq, Structural)]
pub enum BodyStep {
    /// Nothing changes.
    Keep,
    /// The key was let go: the hold and the combo break.
    Break,
    /// The key of an unbroken hold is down again.
    Resume,
}

/// The targets of a sequence of holds.
pub open spec fn hold_targets(holds: Seq<HoldNote>) -> Seq<Target> {
    holds.map_values(|hold: HoldNote| hold.target())
}

/// The number of head and tail judgements still to come.
pub open spec fn pending_holds(holds: Seq<HoldNote>) -> nat {
    total_weight(holds, |hold: HoldNote| hold.pending())
}

/// The hold notes of a session with the score and the events so far.
pub struct HoldPlay {
    pub holds: Seq<HoldNote>,
    pub score: ScoreState,
    pub events: Seq<JudgementEvent>,
}

impl HoldPlay {
    /// Every hold's times are in range, the score is consistent, and the
    /// counters have room for every judgement still to come.
    pub open spec fn wf(self) -> bool {
        &&& forall|i: int| 0 <= i < self.holds.len() ==> (#[trigger] self.holds[i]).wf()
        &&& self.score.wf()
        &&& self.score.objects_judged + pending_holds(self.holds) <= u32::MAX
    }

    /// Whether this play can come of `before` by judging heads and tails
    /// and tracking bodies: it is well formed, holds as many holds, every
    /// judgement closed one pending part and brought one event, and the
    /// total of the score is what it was.
    pub open spec fn follows(self, before: HoldPlay) -> bool {
        &&& self.wf()
        &&& self.holds.len() == before.holds.len()
        &&& self.score.objects_judged + pending_holds(self.holds) == before.score.objects_judged
            + pending_holds(before.holds)
        &&& self.events.len() - before.events.len() == self.score.objects_judged
            - before.score.objects_judged
        &&& self.score.objects_judged >= before.score.objects_judged
        &&& self.score.total_objects == before.score.total_objects
    }

    /// Every hold is in a state that a hold can reach.
    pub open spec fn consistent(self) -> bool {
        forall|i: int| 0 <= i < self.holds.len() ==> (#[trigger] self.holds[i]).state.consistent()
    }

    /// The play after hold `i` took `state` with the judgement `result`
    /// at `offset`.
    pub open spec fn judge(self, i: int, state: HoldNoteState, result: HitResult, offset: int)
        -> HoldPlay {
        HoldPlay {
            holds: self.holds.update(i, self.holds[i].with_state(state)),
            score: self.score.spec_add_judgement(result),
            events: self.events.push(
                JudgementEvent {
                    result,
                    column: self.holds[i].head.column,
                    time_offset: offset as i64,
                },
            ),
        }
    }

    /// The play after a key press in `column`: the closest head in that
    /// lane that can be hit, if there is one, is judged by its offset,
    /// and its hold is held from then on.
    pub open spec fn press(self, column: u8, now: int, windows: HitWindows) -> HoldPlay {
        match closest(hold_targets(self.holds), column, now, windows) {
            Some(i) => {
                let offset = self.holds[i].head.start_time_us - now;
                match windows.spec_result_for(offset) {
                    Some(result) => self.judge(
                        i,
                        self.holds[i].state.head_judged(result),
                        result,
                        offset,
                    ),
                    None => self,
                }
            },
            None => self,
        }
    }

    /// The play after the presses in the lanes below `n`, lane 0 first.
    pub open spec fn head_hits_through(
        self,
        just_pressed: Seq<bool>,
        now: int,
        windows: HitWindows,
        n: int,
    ) -> HoldPlay
        decreases n,
    {
        if n <= 0 {
            self
        } else {
            let before = self.head_hits_through(just_pressed, now, windows, n - 1);
            if just_pressed[n - 1] {
                before.press((n - 1) as u8, now, windows)
            } else {
                before
            }
        }
    }

    /// The play after the head-hit path of one tick.
    pub open spec fn process_head_hits(
        self,
        just_pressed: Seq<bool>,
        now: int,
        windows: HitWindows,
    ) -> HoldPlay {
        self.head_hits_through(just_pressed, now, windows, lanes(just_pressed))
    }

    /// Whether the head of hold `i` awaits its judgement and has receded
    /// past the widest window.
    pub open spec fn is_head_overdue(self, i: int, now: int, windows: HitWindows) -> bool {
        !self.holds[i].state.head_hit && windows.spec_is_past(
            self.holds[i].head.start_time_us - now,
        )
    }

    /// The play after the head-miss path looked at hold `i`.
    pub open spec fn head_miss(self, i: int, now: int, windows: HitWindows) -> HoldPlay {
        if self.is_head_overdue(i, now, windows) {
            self.judge(
                i,
                self.holds[i].state.head_missed(),
                HitResult::Miss,
                self.holds[i].head.start_time_us - now,
            )
        } else {
            self
        }
    }

    /// The play after the head-miss path looked at the holds below `n`.
    pub open spec fn head_misses_through(self, now: int, windows: HitWindows, n: int) -> HoldPlay
        decreases n,
    {
        if n <= 0 {
            self
        } else {
            self.head_misses_through(now, windows, n - 1).head_miss(n - 1, now, windows)
        }
    }

    /// The play after the head-miss path of one tick.
    pub open spec fn process_head_misses(self, now: int, windows: HitWindows) -> HoldPlay {
        self.head_misses_through(now, windows, self.holds.len() as int)
    }

    /// The play after the body of hold `i` followed the key.
    pub open spec fn track_body(self, i: int, pressed: Seq<bool>, now: int) -> HoldPlay {
        let hold = self.holds[i];
        match hold.body_step(lane_flag(pressed, hold.head.column as int), now) {
            BodyStep::Keep => self,
            BodyStep::Break => HoldPlay {
                holds: self.holds.update(i, hold.with_state(hold.state.broken())),
                score: self.score.spec_add_combo_break(),
                events: self.events,
            },
            BodyStep::Resume => HoldPlay {
                holds: self.holds.update(i, hold.with_state(hold.state.resumed())),
                score: self.score,
                events: self.events,
            },
        }
    }

    /// The play after the bodies of the holds below `n` followed the keys.
    pub open spec fn bodies_through(self, pressed: Seq<bool>, now: int, n: int) -> HoldPlay
        decreases n,
    {
        if n <= 0 {
            self
        } else {
            self.bodies_through(pressed, now, n - 1).track_body(n - 1, pressed, now)
        }
    }

    /// The play after the body tracking of one tick.
    pub open spec fn update_hold_state(self, pressed: Seq<bool>, now: int) -> HoldPlay {
        self.bodies_through(pressed, now, self.holds.len() as int)
    }

    /// The play after the tail path looked at hold `i`.
    pub open spec fn release(
        self,
        i: int,
        pressed: Seq<bool>,
        just_released: Seq<bool>,
        now: int,
        windows: HitWindows,
    ) -> HoldPlay {
        let hold = self.holds[i];
        let column = hold.head.column as int;
        match hold.tail_trigger(lane_flag(pressed, column), lane_flag(just_released, column), now) {
            Some(trigger) => self.judge(
                i,
                hold.state.tail_done(),
                hold.tail_result(trigger, now, windows),
                hold.head.end_time_us - now,
            ),
            None => self,
        }
    }

    /// The play after the tail path looked at the holds below `n`.
    pub open spec fn releases_through(
        self,
        pressed: Seq<bool>,
        just_released: Seq<bool>,
        now: int,
        windows: HitWindows,
        n: int,
    ) -> HoldPlay
        decreases n,
    {
        if n <= 0 {
            self
        } else {
            self.releases_through(pressed, just_released, now, windows, n - 1).release(
                n - 1,
                pressed,
                just_released,
                now,
                windows,
            )
        }
    }

    /// The play after the tail path of one tick.
    pub open spec fn process_release(
        self,
        pressed: Seq<bool>,
        just_released: Seq<bool>,
        now: int,
        windows: HitWindows,
    ) -> HoldPlay {
        self.releases_through(pressed, just_released, now, windows, self.holds.len() as int)
    }
}

/// Whether a hold is discarded at `now`: its tail is judged and its end
/// lies at least `CLEANUP_DELAY` behind the clock.
pub open spec fn is_hold_expired(hold: HoldNote, now: int) -> bool {
    hold.state.tail_judged && now - hold.head.end_time_us >= CLEANUP_DELAY
}

/// The holds that stay at `now`, in their order.
pub open spec fn spec_cleanup_hold_notes(holds: Seq<HoldNote>, now: int) -> Seq<HoldNote> {
    holds.filter(|hold: HoldNote| !is_hold_expired(hold, now))
}

/// Capping: after a missed head or a broken body the tail gets Meh at
/// best, whatever its timing.
pub proof fn lemma_tail_capped(hold: HoldNote, trigger: TailTrigger, now: int, windows: HitWindows)
    requires
        hold.state.has_combo_break(),
    ensures
        hold.tail_result(trigger, now, windows).spec_rank() <= HitResult::Meh.spec_rank(),
        hold.tail_timing_result(trigger, now, windows).spec_rank() >= HitResult::Meh.spec_rank()
            ==> hold.tail_result(trigger, now, windows) == HitResult::Meh,
{
}

/// One press judges one head: where the lane holds a candidate, the press
/// judges the closest head by its offset, reports one event and the hold
/// counts as held, and where it holds none, the press changes nothing.
pub proof fn lemma_press_judges_one_head(play: HoldPlay, column: u8, now: int, windows: HitWindows)
    ensures
        match closest(hold_targets(play.holds), column, now, windows) {
            Some(i) => {
                &&& is_closest(hold_targets(play.holds), i, column, now, windows)
                &&& windows.spec_result_for(play.holds[i].head.start_time_us - now) is Some
                &&& play.press(column, now, windows).events.len() == play.events.len() + 1
                &&& play.press(column, now, windows).holds[i].state.head_hit
                &&& play.press(column, now, windows).holds[i].state.is_holding
                &&& play.press(column, now, windows).holds[i].state.head_result
                    == windows.spec_result_for(play.holds[i].head.start_time_us - now)
            },
            None => play.press(column, now, windows) == play,
        },
{
    lemma_closest_some(hold_targets(play.holds), column, now, windows);
    if let Some(i) = closest(hold_targets(play.holds), column, now, windows) {
        crate::scoring::lemma_hittable_is_classified(
            windows,
            play.holds[i].head.start_time_us - now,
        );
    }
}

/// What the head-miss path does to the holds below `n`: each overdue
/// head is judged a miss and its hold counts as broken, and every other
/// hold stays as it is.
pub proof fn lemma_head_misses_through(play: HoldPlay, now: int, windows: HitWindows, n: int)
    requires
        0 <= n <= play.holds.len(),
    ensures
        play.head_misses_through(now, windows, n).holds.len() == play.holds.len(),
        forall|i: int|
            0 <= i < n ==> #[trigger] play.head_misses_through(now, windows, n).holds[i]
                == if play.is_head_overdue(i, now, windows) {
                play.holds[i].with_state(play.holds[i].state.head_missed())
            } else {
                play.holds[i]
            },
        forall|i: int|
            n <= i < play.holds.len() ==> #[trigger] play.head_misses_through(
                now,
                windows,
                n,
            ).holds[i] == play.holds[i],
    decreases n,
{
    if n > 0 {
        lemma_head_misses_through(play, now, windows, n - 1);
        let before = play.head_misses_through(now, windows, n - 1);
        assert(before.holds[n - 1] == play.holds[n - 1]);
        assert(before.is_head_overdue(n - 1, now, windows) == play.is_head_overdue(
            n - 1,
            now,
            windows,
        ));
    }
}

/// A play in which no head is overdue is left as it is by the head-miss
/// path.
pub proof fn lemma_no_overdue_head_no_change(
    play: HoldPlay,
    now: int,
    windows: HitWindows,
    n: int,
)
    requires
        0 <= n <= play.holds.len(),
        forall|i: int| 0 <= i < play.holds.len() ==> !play.is_head_overdue(i, now, windows),
    ensures
        play.head_misses_through(now, windows, n) == play,
    decreases n,
{
    if n > 0 {
        lemma_no_overdue_head_no_change(play, now, windows, n - 1);
    }
}

/// No head is missed twice: a second run of the head-miss path at the
/// same clock changes nothing and reports nothing.
pub proof fn lemma_head_miss_pass_settles(play: HoldPlay, now: int, windows: HitWindows)
    ensures
        play.process_head_misses(now, windows).process_head_misses(now, windows)
            == play.process_head_misses(now, windows),
{
    let once = play.process_head_misses(now, windows);
    lemma_head_misses_through(play, now, windows, play.holds.len() as int);
    assert forall|i: int| 0 <= i < once.holds.len() implies !once.is_head_overdue(
        i,
        now,
        windows,
    ) by {
        assert(once.holds[i] == if play.is_head_overdue(i, now, windows) {
            play.holds[i].with_state(play.holds[i].state.head_missed())
        } else {
            play.holds[i]
        });
    }
    lemma_no_overdue_head_no_change(once, now, windows, once.holds.len() as int);
}

/// The head-hit path judges each head at most once: the play after the
/// presses in the lanes below `n` follows the play before them.
pub proof fn lemma_head_hits_follow(
    play: HoldPlay,
    just_pressed: Seq<bool>,
    now: int,
    windows: HitWindows,
    n: int,
)
    requires
        play.wf(),
    ensures
        play.head_hits_through(just_pressed, now, windows, n).follows(play),
    decreases n,
{
    if n > 0 {
        lemma_head_hits_follow(play, just_pressed, now, windows, n - 1);
        let before = play.head_hits_through(just_pressed, now, windows, n - 1);
        if just_pressed[n - 1] {
            let column = (n - 1) as u8;
            lemma_press_judges_one_head(before, column, now, windows);
            if let Some(i) = closest(hold_targets(before.holds), column, now, windows) {
                assert(hold_targets(before.holds)[i] == before.holds[i].target());
                let result = windows.spec_result_for(
                    before.holds[i].head.start_time_us - now,
                ).unwrap();
                lemma_hold_judge_keeps_wf(
                    before,
                    i,
                    before.holds[i].state.head_judged(result),
                    result,
                    before.holds[i].head.start_time_us - now,
                );
            }
        }
    }
}

/// The head-miss path judges each head at most once: the play after it
/// looked at the holds below `n` follows the play before.
pub proof fn lemma_head_misses_follow(play: HoldPlay, now: int, windows: HitWindows, n: int)
    requires
        play.wf(),
        n <= play.holds.len(),
    ensures
        play.head_misses_through(now, windows, n).follows(play),
    decreases n,
{
    if n > 0 {
        lemma_head_misses_follow(play, now, windows, n - 1);
        let before = play.head_misses_through(now, windows, n - 1);
        if before.is_head_overdue(n - 1, now, windows) {
            lemma_hold_judge_keeps_wf(
                before,
                n - 1,
                before.holds[n - 1].state.head_missed(),
                HitResult::Miss,
                before.holds[n - 1].head.start_time_us - now,
            );
        }
    }
}

/// Body tracking judges nothing: the play after the bodies of the holds
/// below `n` followed the keys follows the play before, with the same
/// number of judgements and the same events.
pub proof fn lemma_bodies_follow(play: HoldPlay, pressed: Seq<bool>, now: int, n: int)
    requires
        play.wf(),
        n <= play.holds.len(),
    ensures
        play.bodies_through(pressed, now, n).follows(play),
        play.bodies_through(pressed, now, n).events == play.events,
        play.bodies_through(pressed, now, n).score.objects_judged == play.score.objects_judged,
    decreases n,
{
    if n > 0 {
        lemma_bodies_follow(play, pressed, now, n - 1);
        let before = play.bodies_through(pressed, now, n - 1);
        let hold = before.holds[n - 1];
        let weight = |hold: HoldNote| hold.pending();
        match hold.body_step(lane_flag(pressed, hold.head.column as int), now) {
            BodyStep::Keep => {},
            BodyStep::Break => {
                lemma_total_weight_update(
                    before.holds,
                    weight,
                    n - 1,
                    hold.with_state(hold.state.broken()),
                );
            },
            BodyStep::Resume => {
                lemma_total_weight_update(
                    before.holds,
                    weight,
                    n - 1,
                    hold.with_state(hold.state.resumed()),
                );
            },
        }
    }
}

/// The tail path judges each tail at most once: the play after it looked
/// at the holds below `n` follows the play before.
pub proof fn lemma_releases_follow(
    play: HoldPlay,
    pressed: Seq<bool>,
    just_released: Seq<bool>,
    now: int,
    windows: HitWindows,
    n: int,
)
    requires
        play.wf(),
        n <= play.holds.len(),
    ensures
        play.releases_through(pressed, just_released, now, windows, n).follows(play),
    decreases n,
{
    if n > 0 {
        lemma_releases_follow(play, pressed, just_released, now, windows, n - 1);
        let before = play.releases_through(pressed, just_released, now, windows, n - 1);
        let hold = before.holds[n - 1];
        let column = hold.head.column as int;
        if let Some(trigger) = hold.tail_trigger(
            lane_flag(pressed, column),
            lane_flag(just_released, column),
            now,
        ) {
            lemma_hold_judge_keeps_wf(
                before,
                n - 1,
                hold.state.tail_done(),
                hold.tail_result(trigger, now, windows),
                hold.head.end_time_us - now,
            );
        }
    }
}

/// The cleanup discards no hold with an open part unless its state is one
/// that no hold reaches: every hold that stays is in range, and no more
/// judgements are pending than before.
pub proof fn lemma_cleanup_keeps_pending(holds: Seq<HoldNote>, now: int)
    requires
        forall|i: int| 0 <= i < holds.len() ==> (#[trigger] holds[i]).wf(),
    ensures
        forall|i: int|
            0 <= i < spec_cleanup_hold_notes(holds, now).len() ==> (
            #[trigger] spec_cleanup_hold_notes(holds, now)[i]).wf(),
        pending_holds(spec_cleanup_hold_notes(holds, now)) <= pending_holds(holds),
    decreases holds.len(),
{
    let keep = |hold: HoldNote| !is_hold_expired(hold, now);
    let weight = |hold: HoldNote| hold.pending();
    reveal(Seq::filter);
    if holds.len() > 0 {
        let rest = holds.drop_last();
        lemma_cleanup_keeps_pending(rest, now);
        assert(spec_cleanup_hold_notes(rest, now) == rest.filter(keep));
        if keep(holds.last()) {
            lemma_total_weight_push(rest.filter(keep), weight, holds.last());
        }
    }
}

/// A body break caps the tail: once the key was let go inside the hold,
/// the tail gets Meh at best at whatever clock and by whatever trigger it
/// is judged.
pub proof fn lemma_body_break_caps_tail(
    hold: HoldNote,
    held: bool,
    now: int,
    trigger: TailTrigger,
    later: int,
    windows: HitWindows,
)
    requires
        hold.body_step(held, now) == BodyStep::Break,
    ensures
        hold.with_state(hold.state.broken()).tail_result(trigger, later, windows).spec_rank()
            <= HitResult::Meh.spec_rank(),
{
}

/// The tail path reports a result no better than Meh for a hold whose
/// head was missed or whose body was broken, and judges a tail once:
/// after it the tail counts as judged and the hold as no longer held.
pub proof fn lemma_release_capped(
    play: HoldPlay,
    i: int,
    pressed: Seq<bool>,
    just_released: Seq<bool>,
    now: int,
    windows: HitWindows,
)
    requires
        0 <= i < play.holds.len(),
        play.holds[i].tail_trigger(
            lane_flag(pressed, play.holds[i].head.column as int),
            lane_flag(just_released, play.holds[i].head.column as int),
            now,
        ) is Some,
    ensures
        play.release(i, pressed, just_released, now, windows).events.len() == play.events.len() + 1,
        play.holds[i].state.has_combo_break() ==> play.release(
            i,
            pressed,
            just_released,
            now,
            windows,
        ).events.last().result.spec_rank() <= HitResult::Meh.spec_rank(),
        play.release(i, pressed, just_released, now, windows).holds[i].state.tail_judged,
        !play.release(i, pressed, just_released, now, windows).holds[i].state.is_holding,
        play.release(i, pressed, just_released, now, windows).release(
            i,
            pressed,
            just_released,
            now,
            windows,
        ) == play.release(i, pressed, just_released, now, windows),
{
}

/// A hold in a state that a hold can reach is never taken up again: once
/// its head is judged it is held until it breaks, and a broken hold stays
/// broken.
pub proof fn lemma_never_resumed(hold: HoldNote, held: bool, now: int)
    requires
        hold.state.consistent(),
    ensures
        hold.body_step(held, now) != BodyStep::Resume,
{
}

/// A press keeps every hold in a state that a hold can reach.
pub proof fn lemma_press_consistent(play: HoldPlay, column: u8, now: int, windows: HitWindows)
    requires
        play.consistent(),
    ensures
        play.press(column, now, windows).consistent(),
        play.press(column, now, windows).holds.len() == play.holds.len(),
{
    lemma_closest_some(hold_targets(play.holds), column, now, windows);
}

/// The head-hit path keeps every hold in a state that a hold can reach.
pub proof fn lemma_head_hits_consistent(
    play: HoldPlay,
    just_pressed: Seq<bool>,
    now: int,
    windows: HitWindows,
    n: int,
)
    requires
        play.consistent(),
    ensures
        play.head_hits_through(just_pressed, now, windows, n).consistent(),
        play.head_hits_through(just_pressed, now, windows, n).holds.len() == play.holds.len(),
    decreases n,
{
    if n > 0 {
        lemma_head_hits_consistent(play, just_pressed, now, windows, n - 1);
        lemma_press_consistent(
            play.head_hits_through(just_pressed, now, windows, n - 1),
            (n - 1) as u8,
            now,
            windows,
        );
    }
}

/// The head-miss path keeps every hold in a state that a hold can reach.
pub proof fn lemma_head_misses_consistent(play: HoldPlay, now: int, windows: HitWindows, n: int)
    requires
        play.consistent(),
        n <= play.holds.len(),
    ensures
        play.head_misses_through(now, windows, n).consistent(),
        play.head_misses_through(now, windows, n).holds.len() == play.holds.len(),
    decreases n,
{
    if n > 0 {
        lemma_head_misses_consistent(play, now, windows, n - 1);
    }
}

/// Body tracking keeps every hold in a state that a hold can reach.
pub proof fn lemma_bodies_consistent(play: HoldPlay, pressed: Seq<bool>, now: int, n: int)
    requires
        play.consistent(),
        n <= play.holds.len(),
    ensures
        play.bodies_through(pressed, now, n).consistent(),
        play.bodies_through(pressed, now, n).holds.len() == play.holds.len(),
    decreases n,
{
    if n > 0 {
        lemma_bodies_consistent(play, pressed, now, n - 1);
    }
}

/// The tail path keeps every hold in a state that a hold can reach.
pub proof fn lemma_releases_consistent(
    play: HoldPlay,
    pressed: Seq<bool>,
    just_released: Seq<bool>,
    now: int,
    windows: HitWindows,
    n: int,
)
    requires
        play.consistent(),
        n <= play.holds.len(),
    ensures
        play.releases_through(pressed, just_released, now, windows, n).consistent(),
        play.releases_through(pressed, just_released, now, windows, n).holds.len()
            == play.holds.len(),
    decreases n,
{
    if n > 0 {
        lemma_releases_consistent(play, pressed, just_released, now, windows, n - 1);
    }
}

/// The cleanup keeps every hold in a state that a hold can reach.
pub proof fn lemma_cleanup_consistent(play: HoldPlay, now: int)
    requires
        play.consistent(),
    ensures
        (HoldPlay { holds: spec_cleanup_hold_notes(play.holds, now), ..play }).consistent(),
{
    let keep = |hold: HoldNote| !is_hold_expired(hold, now);
    let kept = play.holds.filter(keep);
    assert forall|i: int| 0 <= i < kept.len() implies (#[trigger] kept[i]).state.consistent() by {
        play.holds.lemma_filter_contains_rev(keep, kept[i]);
        let j = choose|j: int| 0 <= j < play.holds.len() && play.holds[j] == kept[i];
        assert(play.holds[j].state.consistent());
    }
}

/// A judgement that closes one pending part of a hold keeps the play well
/// formed and moves one judgement from the holds to the score.
pub proof fn lemma_hold_judge_keeps_wf(
    play: HoldPlay,
    i: int,
    state: HoldNoteState,
    result: HitResult,
    offset: int,
)
    requires
        play.wf(),
        0 <= i < play.holds.len(),
        play.holds[i].with_state(state).pending() + 1 == play.holds[i].pending(),
    ensures
        play.score.has_room(),
        play.judge(i, state, result, offset).wf(),
        play.judge(i, state, result, offset).holds.len() == play.holds.len(),
        pending_holds(play.judge(i, state, result, offset).holds) + 1 == pending_holds(play.holds),
{
    let weight = |hold: HoldNote| hold.pending();
    lemma_total_weight_update(play.holds, weight, i, play.holds[i].with_state(state));
    lemma_add_judgement_keeps_wf(play.score, result);
}

/// The head that a press in `column` judges, if any.
pub fn find_closest_head(holds: &Vec<HoldNote>, column: u8, now: i64, windows: &HitWindows) -> (found:
    Option<usize>)
    requires
        time_in_range(now as int),
        forall|i: int| 0 <= i < holds@.len() ==> (#[trigger] holds@[i]).wf(),
    ensures
        match found {
            Some(i) => closest(hold_targets(holds@), column, now as int, *windows) == Some(
                i as int,
            ),
            None => closest(hold_targets(holds@), column, now as int, *windows) is None,
        },
{
    let ghost targets = hold_targets(holds@);
    let mut best: Option<usize> = None;
    let mut best_distance: i64 = 0;
    let mut i: usize = 0;
    while i < holds.len()
        invariant
            i <= holds@.len(),
            targets == hold_targets(holds@),
            time_in_range(now as int),
            forall|k: int| 0 <= k < holds@.len() ==> (#[trigger] holds@[k]).wf(),
            match best {
                Some(b) => {
                    &&& b < i
                    &&& is_candidate(targets[b as int], column, now as int, *windows)
                    &&& best_distance == distance(targets[b as int], now as int)
                    &&& forall|j: int|
                        0 <= j < i && is_candidate(#[trigger] targets[j], column, now as int, *windows)
                            ==> best_distance <= distance(targets[j], now as int)
                    &&& forall|j: int|
                        0 <= j < b && is_candidate(#[trigger] targets[j], column, now as int, *windows)
                            ==> best_distance < distance(targets[j], now as int)
                },
                None => forall|j: int|
                    0 <= j < i ==> !is_candidate(#[trigger] targets[j], column, now as int, *windows),
            },
        decreases holds@.len() - i,
    {
        let hold = holds[i];
        assert(holds@[i as int].wf());
        assert(targets[i as int] == hold.target());
        if hold.head.column == column && !hold.state.head_hit {
            let offset: i64 = hold.head.start_time_us - now;
            if windows.can_be_hit(offset) {
                let d: i64 = if offset < 0 {
                    -offset
                } else {
                    offset
                };
                let closer = match best {
                    Some(_) => d < best_distance,
                    None => true,
                };
                if closer {
                    best = Some(i);
                    best_distance = d;
                }
            }
        }
        i = i + 1;
    }
    proof {
        match best {
            Some(b) => {
                assert(is_closest(targets, b as int, column, now as int, *windows));
                lemma_closest_is(targets, b as int, column, now as int, *windows);
            },
            None => {
                lemma_closest_none(targets, column, now as int, *windows);
            },
        }
    }
    best
}

/// The head-hit path: each lane whose key went down in this tick judges
/// the closest head of that lane that can be hit, lane 0 first.
pub fn process_hold_head_hits(
    key_state: &KeyState,
    game_time: &GameTime,
    config: &JudgementConfig,
    holds: &mut Vec<HoldNote>,
    score: &mut ScoreState,
    events: &mut Vec<JudgementEvent>,
)
    requires
        game_time.wf(),
        (HoldPlay { holds: old(holds)@, score: *old(score), events: old(events)@ }).wf(),
    ensures
        (HoldPlay { holds: final(holds)@, score: *final(score), events: final(events)@ }) == (HoldPlay {
            holds: old(holds)@,
            score: *old(score),
            events: old(events)@,
        }).process_head_hits(
            key_state.just_pressed@,
            game_time.current_us as int,
            config.hit_windows,
        ),
        (HoldPlay { holds: final(holds)@, score: *final(score), events: final(events)@ }).wf(),
        final(holds)@.len() == old(holds)@.len(),
        final(score).objects_judged + pending_holds(final(holds)@) == old(score).objects_judged
            + pending_holds(old(holds)@),
        final(events)@.len() - old(events)@.len() == final(score).objects_judged - old(
            score,
        ).objects_judged,
{
    let now = game_time.current_us;
    let windows = config.hit_windows;
    let ghost start = HoldPlay { holds: holds@, score: *score, events: events@ };
    let lane_count: usize = if key_state.just_pressed.len() < LANE_LIMIT {
        key_state.just_pressed.len()
    } else {
        LANE_LIMIT
    };
    let mut lane: usize = 0;
    while lane < lane_count
        invariant
            lane <= lane_count,
            lane_count == lanes(key_state.just_pressed@),
            lane_count <= key_state.just_pressed@.len(),
            time_in_range(now as int),
            (HoldPlay { holds: holds@, score: *score, events: events@ }) == start.head_hits_through(
                key_state.just_pressed@,
                now as int,
                windows,
                lane as int,
            ),
            (HoldPlay { holds: holds@, score: *score, events: events@ }).wf(),
            holds@.len() == start.holds.len(),
            score.objects_judged + pending_holds(holds@) == start.score.objects_judged
                + pending_holds(start.holds),
            events@.len() - start.events.len() == score.objects_judged - start.score.objects_judged,
        decreases lane_count - lane,
    {
        let ghost before = HoldPlay { holds: holds@, score: *score, events: events@ };
        if key_state.just_pressed[lane] {
            let column: u8 = lane as u8;
            match find_closest_head(holds, column, now, &windows) {
                Some(i) => {
                    let hold = holds[i];
                    assert(holds@[i as int].wf());
                    let offset: i64 = hold.head.start_time_us - now;
                    proof {
                        let targets = hold_targets(holds@);
                        assert(is_closest(targets, i as int, column, now as int, windows));
                        assert(targets[i as int] == hold.target());
                    }
                    match windows.result_for(offset) {
                        Some(result) => {
                            let state = HoldNoteState {
                                head_hit: true,
                                head_result: Some(result),
                                is_holding: true,
                                hold_broken: hold.state.hold_broken,
                                tail_judged: hold.state.tail_judged,
                            };
                            proof {
                                lemma_hold_judge_keeps_wf(
                                    before,
                                    i as int,
                                    state,
                                    result,
                                    offset as int,
                                );
                            }
                            holds.set(i, HoldNote { id: hold.id, head: hold.head, state });
                            score.add_judgement(result);
                            events.push(JudgementEvent { result, column, time_offset: offset });
                            assert((HoldPlay { holds: holds@, score: *score, events: events@ })
                                == before.judge(i as int, state, result, offset as int));
                        },
                        None => {},
                    }
                },
                None => {},
            }
        }
        lane = lane + 1;
    }
}

/// The head-miss path: every head that awaits its judgement and has
/// receded past the widest window is judged a miss and its hold counts as
/// broken; the tail is judged later.
pub fn process_hold_head_misses(
    game_time: &GameTime,
    config: &JudgementConfig,
    holds: &mut Vec<HoldNote>,
    score: &mut ScoreState,
    events: &mut Vec<JudgementEvent>,
)
    requires
        game_time.wf(),
        (HoldPlay { holds: old(holds)@, score: *old(score), events: old(events)@ }).wf(),
    ensures
        (HoldPlay { holds: final(holds)@, score: *final(score), events: final(events)@ }) == (HoldPlay {
            holds: old(holds)@,
            score: *old(score),
            events: old(events)@,
        }).process_head_misses(game_time.current_us as int, config.hit_windows),
        (HoldPlay { holds: final(holds)@, score: *final(score), events: final(events)@ }).wf(),
        final(holds)@.len() == old(holds)@.len(),
        final(score).objects_judged + pending_holds(final(holds)@) == old(score).objects_judged
            + pending_holds(old(holds)@),
        final(events)@.len() - old(events)@.len() == final(score).objects_judged - old(
            score,
        ).objects_judged,
{
    let now = game_time.current_us;
    let windows = config.hit_windows;
    let ghost start = HoldPlay { holds: holds@, score: *score, events: events@ };
    let mut i: usize = 0;
    while i < holds.len()
        invariant
            i <= holds@.len(),
            holds@.len() == start.holds.len(),
            time_in_range(now as int),
            (HoldPlay { holds: holds@, score: *score, events: events@ })
                == start.head_misses_through(now as int, windows, i as int),
            (HoldPlay { holds: holds@, score: *score, events: events@ }).wf(),
            score.objects_judged + pending_holds(holds@) == start.score.objects_judged
                + pending_holds(start.holds),
            events@.len() - start.events.len() == score.objects_judged - start.score.objects_judged,
        decreases holds@.len() - i,
    {
        let ghost before = HoldPlay { holds: holds@, score: *score, events: events@ };
        let hold = holds[i];
        assert(holds@[i as int].wf());
        if !hold.state.head_hit {
            let offset: i64 = hold.head.start_time_us - now;
            if windows.is_past(offset) {
                let state = HoldNoteState {
                    head_hit: true,
                    head_result: Some(HitResult::Miss),
                    is_holding: hold.state.is_holding,
                    hold_broken: true,
                    tail_judged: hold.state.tail_judged,
                };
                proof {
                    lemma_hold_judge_keeps_wf(
                        before,
                        i as int,
                        state,
                        HitResult::Miss,
                        offset as int,
                    );
                }
                holds.set(i, HoldNote { id: hold.id, head: hold.head, state });
                score.add_judgement(HitResult::Miss);
                events.push(
                    JudgementEvent {
                        result: HitResult::Miss,
                        column: hold.head.column,
                        time_offset: offset,
                    },
                );
                assert((HoldPlay { holds: holds@, score: *score, events: events@ })
                    == before.judge(i as int, state, HitResult::Miss, offset as int));
            }
        }
        i = i + 1;
    }
}

/// Body tracking: inside a hold whose head is judged and whose tail is
/// not, a key that is no longer down breaks the hold and resets the combo
/// without a judgement, and a key that is down again resumes a hold that
/// was never broken.
pub fn update_hold_state(
    key_state: &KeyState,
    game_time: &GameTime,
    holds: &mut Vec<HoldNote>,
    score: &mut ScoreState,
)
    requires
        game_time.wf(),
        forall|i: int| 0 <= i < old(holds)@.len() ==> (#[trigger] old(holds)@[i]).wf(),
    ensures
        forall|events: Seq<JudgementEvent>|
            #[trigger] (HoldPlay { holds: old(holds)@, score: *old(score), events }).update_hold_state(
                key_state.pressed@,
                game_time.current_us as int,
            ) == (HoldPlay { holds: final(holds)@, score: *final(score), events }),
        forall|i: int| 0 <= i < final(holds)@.len() ==> (#[trigger] final(holds)@[i]).wf(),
        final(holds)@.len() == old(holds)@.len(),
        pending_holds(final(holds)@) == pending_holds(old(holds)@),
        old(score).wf() ==> final(score).wf(),
        final(score).objects_judged == old(score).objects_judged,
{
    let now = game_time.current_us;
    let ghost start_holds = holds@;
    let ghost start_score = *score;
    let ghost weight = |hold: HoldNote| hold.pending();
    let mut i: usize = 0;
    while i < holds.len()
        invariant
            i <= holds@.len(),
            holds@.len() == start_holds.len(),
            time_in_range(now as int),
            weight == |hold: HoldNote| hold.pending(),
            forall|events: Seq<JudgementEvent>|
                #[trigger] (HoldPlay { holds: start_holds, score: start_score, events }).bodies_through(
                    key_state.pressed@,
                    now as int,
                    i as int,
                ) == (HoldPlay { holds: holds@, score: *score, events }),
            forall|k: int| 0 <= k < holds@.len() ==> (#[trigger] holds@[k]).wf(),
            total_weight(holds@, weight) == total_weight(start_holds, weight),
            start_score.wf() ==> score.wf(),
            score.objects_judged == start_score.objects_judged,
        decreases holds@.len() - i,
    {
        let ghost before_holds = holds@;
        let ghost before_score = *score;
        let hold = holds[i];
        assert(holds@[i as int].wf());
        if hold.state.head_hit && !hold.state.tail_judged {
            let held = flag_at(&key_state.pressed, hold.head.column);
            let in_duration = now >= hold.head.start_time_us && now < hold.head.end_time_us;
            if in_duration {
                if hold.state.is_holding && !held {
                    let state = HoldNoteState {
                        head_hit: hold.state.head_hit,
                        head_result: hold.state.head_result,
                        is_holding: false,
                        hold_broken: true,
                        tail_judged: hold.state.tail_judged,
                    };
                    proof {
                        lemma_total_weight_update(
                            holds@,
                            weight,
                            i as int,
                            hold.with_state(state),
                        );
                    }
                    holds.set(i, HoldNote { id: hold.id, head: hold.head, state });
                    score.add_combo_break();
                } else if !hold.state.is_holding && held && !hold.state.hold_broken {
                    let state = HoldNoteState {
                        head_hit: hold.state.head_hit,
                        head_result: hold.state.head_result,
                        is_holding: true,
                        hold_broken: hold.state.hold_broken,
                        tail_judged: hold.state.tail_judged,
                    };
                    proof {
                        lemma_total_weight_update(
                            holds@,
                            weight,
                            i as int,
                            hold.with_state(state),
                        );
                    }
                    holds.set(i, HoldNote { id: hold.id, head: hold.head, state });
                }
            }
        }
        proof {
            assert forall|events: Seq<JudgementEvent>|
                #[trigger] (HoldPlay { holds: start_holds, score: start_score, events }).bodies_through(
                    key_state.pressed@,
                    now as int,
                    i as int + 1,
                ) == (HoldPlay { holds: holds@, score: *score, events }) by {
                let reached = HoldPlay { holds: before_holds, score: before_score, events };
                assert((HoldPlay { holds: start_holds, score: start_score, events }).bodies_through(
                    key_state.pressed@,
                    now as int,
                    i as int,
                ) == reached);
                assert(reached.track_body(i as int, key_state.pressed@, now as int) == (HoldPlay {
                    holds: holds@,
                    score: *score,
                    events,
                }));
            }
        }
        i = i + 1;
    }
}

/// The tail path: a hold whose head is judged and whose tail is not gets
/// its tail judged when the key comes up while held or when the end of
/// the hold has come.
pub fn process_hold_release(
    key_state: &KeyState,
    game_time: &GameTime,
    config: &JudgementConfig,
    holds: &mut Vec<HoldNote>,
    score: &mut ScoreState,
    events: &mut Vec<JudgementEvent>,
)
    requires
        game_time.wf(),
        (HoldPlay { holds: old(holds)@, score: *old(score), events: old(events)@ }).wf(),
    ensures
        (HoldPlay { holds: final(holds)@, score: *final(score), events: final(events)@ }) == (HoldPlay {
            holds: old(holds)@,
            score: *old(score),
            events: old(events)@,
        }).process_release(
            key_state.pressed@,
            key_state.just_released@,
            game_time.current_us as int,
            config.hit_windows,
        ),
        (HoldPlay { holds: final(holds)@, score: *final(score), events: final(events)@ }).wf(),
        final(holds)@.len() == old(holds)@.len(),
        final(score).objects_judged + pending_holds(final(holds)@) == old(score).objects_judged
            + pending_holds(old(holds)@),
        final(events)@.len() - old(events)@.len() == final(score).objects_judged - old(
            score,
        ).objects_judged,
{
    let now = game_time.current_us;
    let windows = config.hit_windows;
    let ghost start = HoldPlay { holds: holds@, score: *score, events: events@ };
    let mut i: usize = 0;
    while i < holds.len()
        invariant
            i <= holds@.len(),
            holds@.len() == start.holds.len(),
            time_in_range(now as int),
            (HoldPlay { holds: holds@, score: *score, events: events@ }) == start.releases_through(
                key_state.pressed@,
                key_state.just_released@,
                now as int,
                windows,
                i as int,
            ),
            (HoldPlay { holds: holds@, score: *score, events: events@ }).wf(),
            score.objects_judged + pending_holds(holds@) == start.score.objects_judged
                + pending_holds(start.holds),
            events@.len() - start.events.len() == score.objects_judged - start.score.objects_judged,
        decreases holds@.len() - i,
    {
        let ghost before = HoldPlay { holds: holds@, score: *score, events: events@ };
        let hold = holds[i];
        assert(holds@[i as int].wf());
        if hold.state.head_hit && !hold.state.tail_judged {
            let held = flag_at(&key_state.pressed, hold.head.column);
            let released = flag_at(&key_state.just_released, hold.head.column);
            let ended = now >= hold.head.end_time_us;
            let trigger: Option<TailTrigger> = if released && hold.state.is_holding {
                Some(TailTrigger::Released)
            } else if !held && ended {
                Some(TailTrigger::EndedUnheld)
            } else if held && ended {
                Some(TailTrigger::EndedHeld)
            } else {
                None
            };
            match trigger {
                Some(trigger) => {
                    let tail_offset: i64 = hold.head.end_time_us - now;
                    let by_timing = match trigger {
                        TailTrigger::EndedHeld => match windows.result_for(0) {
                            Some(result) => result,
                            None => HitResult::Perfect,
                        },
                        _ => match windows.lenient_result_for(tail_offset) {
                            Some(result) => result,
                            None => HitResult::Miss,
                        },
                    };
                    let head_missed = match hold.state.head_result {
                        Some(HitResult::Miss) => true,
                        _ => false,
                    };
                    let result = if head_missed || hold.state.hold_broken {
                        by_timing.min(HitResult::Meh)
                    } else {
                        by_timing
                    };
                    let state = HoldNoteState {
                        head_hit: hold.state.head_hit,
                        head_result: hold.state.head_result,
                        is_holding: false,
                        hold_broken: hold.state.hold_broken,
                        tail_judged: true,
                    };
                    proof {
                        lemma_hold_judge_keeps_wf(
                            before,
                            i as int,
                            state,
                            result,
                            tail_offset as int,
                        );
                    }
                    holds.set(i, HoldNote { id: hold.id, head: hold.head, state });
                    score.add_judgement(result);
                    events.push(
                        JudgementEvent { result, column: hold.head.column, time_offset: tail_offset },
                    );
                    assert((HoldPlay { holds: holds@, score: *score, events: events@ })
                        == before.judge(i as int, state, result, tail_offset as int));
                },
                None => {},
            }
        }
        i = i + 1;
    }
}

/// Discards the holds whose tail is judged and whose end lies at least
/// `CLEANUP_DELAY` behind the clock; the others stay in their order.
pub fn cleanup_hold_notes(holds: &mut Vec<HoldNote>, game_time: &GameTime)
    requires
        game_time.wf(),
        forall|i: int| 0 <= i < old(holds)@.len() ==> (#[trigger] old(holds)@[i]).wf(),
    ensures
        final(holds)@ == spec_cleanup_hold_notes(old(holds)@, game_time.current_us as int),
        forall|i: int| 0 <= i < final(holds)@.len() ==> (#[trigger] final(holds)@[i]).wf(),
        pending_holds(final(holds)@) <= pending_holds(old(holds)@),
{
    let now = game_time.current_us;
    let ghost keep = |hold: HoldNote| !is_hold_expired(hold, now as int);
    let ghost weight = |hold: HoldNote| hold.pending();
    let mut kept: Vec<HoldNote> = Vec::new();
    let mut i: usize = 0;
    while i < holds.len()
        invariant
            i <= holds@.len(),
            holds@ == old(holds)@,
            time_in_range(now as int),
            keep == |hold: HoldNote| !is_hold_expired(hold, now as int),
            weight == |hold: HoldNote| hold.pending(),
            forall|k: int| 0 <= k < holds@.len() ==> (#[trigger] holds@[k]).wf(),
            kept@ == holds@.take(i as int).filter(keep),
            forall|k: int| 0 <= k < kept@.len() ==> (#[trigger] kept@[k]).wf(),
            total_weight(kept@, weight) <= total_weight(holds@.take(i as int), weight),
        decreases holds@.len() - i,
    {
        let hold = holds[i];
        assert(holds@[i as int].wf());
        proof {
            let prefix = holds@.take(i as int);
            let next = holds@.take(i as int + 1);
            assert(next =~= prefix.push(hold));
            assert(next.drop_last() =~= prefix);
            reveal(Seq::filter);
            lemma_total_weight_push(prefix, weight, hold);
            lemma_total_weight_push(kept@, weight, hold);
        }
        let expired = hold.state.tail_judged && now - hold.head.end_time_us >= CLEANUP_DELAY;
        if !expired {
            kept.push(hold);
        }
        i = i + 1;
    }
    assert(holds@.take(holds@.len() as int) =~= holds@);
    *holds = kept;
}

} // verus!
