//! A play session: the notes in play, the clock and the score, advanced
//! one tick at a time.
//!
//! Within a tick the paths run in a fixed order: tap hits, tap misses,
//! head hits, head misses, body tracking, tail releases, cleanup. The
//! state after a tick and the events of the tick are a function of the
//! state before, the clock and the keys.

use crate::hit_object::{time_in_range, HitObject};
use crate::input::{KeyState, KeyStateView};
use crate::judgement::hold::{
    cleanup_hold_notes, lemma_bodies_consistent, lemma_bodies_follow, lemma_cleanup_consistent,
    lemma_cleanup_keeps_pending, lemma_head_hits_consistent, lemma_head_hits_follow,
    lemma_head_misses_consistent, lemma_head_misses_follow, lemma_releases_consistent,
    lemma_releases_follow, pending_holds, process_hold_head_hits, process_hold_head_misses,
    process_hold_release, spec_cleanup_hold_notes, update_hold_state, HoldPlay,
};
use crate::judgement::note::{
    cleanup_hit_notes, lemma_cleanup_keeps_open, lemma_hits_follow, lemma_misses_follow,
    open_notes, process_note_hits, process_note_misses, spec_cleanup_hit_notes, TapPlay,
};
use crate::judgement::score::{lemma_score_bounds, ScoreState, CURVE_UNIT, MAX_SCORE};
use crate::judgement::{lanes, total_weight, JudgementConfig, JudgementEvent};
use crate::note::{
    lemma_objects_part, spawn_notes, spec_spawn_holds, spec_spawn_taps, HoldNote, Note,
};
use crate::scoring::HitWindows;
use crate::scroll::GameTime;
use vstd::prelude::*;

verus! {

/// The largest number of hit objects in a session: each may bring two
/// judgements, and the counters hold 32 bits.
pub const MAX_OBJECTS: usize = 0x7fff_ffff;

/// The clock and the keys of one tick.
#[derive(Debug, Clone, PartialEq, Eq)]
pub struct Frame {
    /// The clock of the tick in microseconds.
    pub now_us: i64,
    pub keys: KeyState,
}

/// A frame as plain values.
pub struct FrameView {
    pub now: int,
    pub keys: KeyStateView,
}

impl View for Frame {
    type V = FrameView;

    open spec fn view(&self) -> FrameView {
        FrameView { now: self.now_us as int, keys: self.keys@ }
    }
}

/// The frames of a list as plain values.
pub open spec fn frame_views(frames: Seq<Frame>) -> Seq<FrameView> {
    frames.map_values(|frame: Frame| frame@)
}

/// A play session. It is changed only through its own functions, which
/// keep its clock and notes in range, its score consistent and its
/// counters wide enough for every judgement still to come.
#[derive(Debug, PartialEq, Eq)]
pub struct PlaySession {
    config: JudgementConfig,
    time: GameTime,
    /// The tap notes in play, in spawn order.
    notes: Vec<Note>,
    /// The hold notes in play, in spawn order.
    holds: Vec<HoldNote>,
    score: ScoreState,
}

/// The state of a session as plain values.
pub struct SessionState {
    pub windows: HitWindows,
    pub now: int,
    pub notes: Seq<Note>,
    pub holds: Seq<HoldNote>,
    pub score: ScoreState,
}

/// The state after some ticks and the events of those ticks, in order.
pub struct Outcome {
    pub state: SessionState,
    pub events: Seq<JudgementEvent>,
}

impl View for PlaySession {
    type V = SessionState;

    closed spec fn view(&self) -> SessionState {
        SessionState {
            windows: self.config.hit_windows,
            now: self.time.current_us as int,
            notes: self.notes@,
            holds: self.holds@,
            score: self.score,
        }
    }
}

impl SessionState {
    /// The clock and every note are in range, the score is consistent, and
    /// the counters have room for every judgement still to come.
    pub open spec fn wf(self) -> bool {
        &&& time_in_range(self.now)
        &&& forall|i: int| 0 <= i < self.notes.len() ==> (#[trigger] self.notes[i]).wf()
        &&& forall|i: int| 0 <= i < self.holds.len() ==> (#[trigger] self.holds[i]).wf()
        &&& self.score.wf()
        &&& self.score.objects_judged + open_notes(self.notes) + pending_holds(self.holds)
            <= u32::MAX
    }

    /// Every hold is in a state that a hold can reach.
    pub open spec fn consistent(self) -> bool {
        forall|i: int| 0 <= i < self.holds.len() ==> (#[trigger] self.holds[i]).state.consistent()
    }

    /// The judgements still to come: one for each open tap note, and one
    /// each for the open heads and tails.
    pub open spec fn pending(self) -> nat {
        open_notes(self.notes) + pending_holds(self.holds)
    }

    /// The session at its start: the clock at zero, every note spawned and
    /// unjudged, nothing scored.
    pub open spec fn fresh(objects: Seq<HitObject>, overall_difficulty: i32) -> SessionState {
        SessionState {
            windows: HitWindows { overall_difficulty },
            now: 0,
            notes: spec_spawn_taps(objects),
            holds: spec_spawn_holds(objects),
            score: ScoreState::spec_default(),
        }
    }

    /// One tick at the clock `now` with the keys `keys`: the seven paths
    /// in their order, each on what the one before left.
    pub open spec fn tick(self, now: int, keys: KeyStateView) -> Outcome {
        let taps = (TapPlay {
            notes: self.notes,
            score: self.score,
            events: Seq::empty(),
        }).process_hits(keys.just_pressed, now, self.windows).process_misses(now, self.windows);
        let holds = (HoldPlay {
            holds: self.holds,
            score: taps.score,
            events: taps.events,
        }).process_head_hits(keys.just_pressed, now, self.windows).process_head_misses(
            now,
            self.windows,
        ).update_hold_state(keys.pressed, now).process_release(
            keys.pressed,
            keys.just_released,
            now,
            self.windows,
        );
        Outcome {
            state: SessionState {
                windows: self.windows,
                now,
                notes: spec_cleanup_hit_notes(taps.notes, now),
                holds: spec_cleanup_hold_notes(holds.holds, now),
                score: holds.score,
            },
            events: holds.events,
        }
    }

    /// The ticks of a list of frames, the first frame first.
    pub open spec fn run(self, frames: Seq<FrameView>) -> Outcome
        decreases frames.len(),
    {
        if frames.len() == 0 {
            Outcome { state: self, events: Seq::empty() }
        } else {
            let before = self.run(frames.drop_last());
            let last = before.state.tick(frames.last().now, frames.last().keys);
            Outcome { state: last.state, events: before.events + last.events }
        }
    }
}

/// Whether the objects can make a session: no more than `MAX_OBJECTS`,
/// each with time and duration in range.
pub open spec fn playable(objects: Seq<HitObject>) -> bool {
    &&& objects.len() <= MAX_OBJECTS
    &&& forall|i: int| 0 <= i < objects.len() ==> (#[trigger] objects[i]).wf()
}

/// A sum of weights that are all `w` is `w` times the length.
proof fn lemma_total_weight_uniform<T>(items: Seq<T>, weight: spec_fn(T) -> nat, w: nat)
    requires
        forall|i: int| 0 <= i < items.len() ==> weight(#[trigger] items[i]) == w,
    ensures
        total_weight(items, weight) == w * items.len(),
    decreases items.len(),
{
    if items.len() > 0 {
        lemma_total_weight_uniform(items.drop_last(), weight, w);
        assert(w * items.len() == w * (items.len() - 1) + w) by (nonlinear_arith);
    }
}

impl PlaySession {
    #[verifier::type_invariant]
    spec fn inv(&self) -> bool {
        self@.wf()
    }

    /// Starts a session on the hit objects of a beatmap at an overall
    /// difficulty in thousandths of a point. An empty list gives the test
    /// pattern. Objects that are too many or out of range give `None`.
    pub fn new(objects: &Vec<HitObject>, overall_difficulty: i32) -> (session: Option<
        PlaySession,
    >)
        ensures
            session is Some <==> playable(objects@),
            session matches Some(s) ==> s@ == SessionState::fresh(objects@, overall_difficulty)
                && s@.wf(),
    {
        if objects.len() > MAX_OBJECTS {
            return None;
        }
        let mut i: usize = 0;
        while i < objects.len()
            invariant
                i <= objects@.len(),
                forall|k: int| 0 <= k < i ==> (#[trigger] objects@[k]).wf(),
            decreases objects@.len() - i,
        {
            if !objects[i].is_valid() {
                return None;
            }
            i = i + 1;
        }
        let spawned = spawn_notes(objects);
        proof {
            lemma_total_weight_uniform(spawned.notes@, |note: Note| note.pending(), 1);
            lemma_total_weight_uniform(spawned.holds@, |hold: HoldNote| hold.pending(), 2);
        }
        Some(
            PlaySession {
                config: JudgementConfig { hit_windows: HitWindows::new(overall_difficulty) },
                time: GameTime { current_us: 0 },
                notes: spawned.notes,
                holds: spawned.holds,
                score: ScoreState::default(),
            },
        )
    }

    /// The configuration of the judgement.
    pub fn config(&self) -> (config: JudgementConfig)
        ensures
            config.hit_windows == self@.windows,
    {
        self.config
    }

    /// The clock of the last tick.
    pub fn time(&self) -> (time: GameTime)
        ensures
            time.current_us == self@.now,
            time.wf(),
    {
        proof {
            use_type_invariant(self);
        }
        self.time
    }

    /// The tap notes in play, in spawn order.
    pub fn notes(&self) -> (notes: &Vec<Note>)
        ensures
            notes@ == self@.notes,
    {
        &self.notes
    }

    /// The hold notes in play, in spawn order.
    pub fn holds(&self) -> (holds: &Vec<HoldNote>)
        ensures
            holds@ == self@.holds,
    {
        &self.holds
    }

    /// The score so far.
    pub fn score(&self) -> (score: ScoreState)
        ensures
            score == self@.score,
            score.wf(),
    {
        proof {
            use_type_invariant(self);
        }
        self.score
    }

    /// Sets the number of judgements that the session will hold, which
    /// the score counts its progress against.
    pub fn set_total_objects(&mut self, count: u32)
        ensures
            final(self)@ == (SessionState {
                score: ScoreState { total_objects: count, ..old(self)@.score },
                ..old(self)@
            }),
    {
        proof {
            use_type_invariant(&*self);
        }
        self.score.total_objects = count;
    }

    /// Moves the clock to `now_us` and runs one tick with the keys `keys`.
    /// Returns the judgement events of the tick in the order in which
    /// they arose: one for each judgement that the tick added to the
    /// score.
    pub fn tick(&mut self, now_us: i64, keys: &KeyState) -> (events: Vec<JudgementEvent>)
        requires
            time_in_range(now_us as int),
        ensures
            final(self)@ == old(self)@.tick(now_us as int, keys@).state,
            events@ == old(self)@.tick(now_us as int, keys@).events,
            final(self)@.wf(),
            events@.len() == final(self)@.score.objects_judged - old(self)@.score.objects_judged,
            final(self)@.pending() + events@.len() <= old(self)@.pending(),
    {
        proof {
            use_type_invariant(&*self);
        }
        let mut time = self.time;
        let config = self.config;
        let mut score = self.score;
        let mut notes: Vec<Note> = Vec::new();
        let mut holds: Vec<HoldNote> = Vec::new();
        proof {
            lemma_total_weight_uniform(notes@, |note: Note| note.pending(), 1);
            lemma_total_weight_uniform(holds@, |hold: HoldNote| hold.pending(), 2);
        }
        core::mem::swap(&mut notes, &mut self.notes);
        core::mem::swap(&mut holds, &mut self.holds);
        time.current_us = now_us;
        let mut events: Vec<JudgementEvent> = Vec::new();
        assert(events@ =~= Seq::<JudgementEvent>::empty());
        process_note_hits(keys, &time, &config, &mut notes, &mut score, &mut events);
        process_note_misses(&time, &config, &mut notes, &mut score, &mut events);
        process_hold_head_hits(keys, &time, &config, &mut holds, &mut score, &mut events);
        process_hold_head_misses(&time, &config, &mut holds, &mut score, &mut events);
        let ghost heads = HoldPlay { holds: holds@, score, events: events@ };
        update_hold_state(keys, &time, &mut holds, &mut score);
        assert(heads.update_hold_state(keys.pressed@, now_us as int) == (HoldPlay {
            holds: holds@,
            score,
            events: events@,
        }));
        process_hold_release(keys, &time, &config, &mut holds, &mut score, &mut events);
        cleanup_hit_notes(&mut notes, &time);
        cleanup_hold_notes(&mut holds, &time);
        self.time = time;
        self.score = score;
        core::mem::swap(&mut notes, &mut self.notes);
        core::mem::swap(&mut holds, &mut self.holds);
        events
    }

    /// Runs the ticks of a list of frames, the first frame first, and
    /// returns the events of all of them in order.
    pub fn replay(&mut self, frames: &Vec<Frame>) -> (events: Vec<JudgementEvent>)
        requires
            frames_in_range(frame_views(frames@)),
        ensures
            final(self)@ == old(self)@.run(frame_views(frames@)).state,
            events@ == old(self)@.run(frame_views(frames@)).events,
            final(self)@.wf(),
    {
        proof {
            use_type_invariant(&*self);
        }
        let ghost start = self@;
        let ghost views = frame_views(frames@);
        let mut events: Vec<JudgementEvent> = Vec::new();
        let mut i: usize = 0;
        assert(views.take(0) =~= Seq::<FrameView>::empty());
        while i < frames.len()
            invariant
                i <= frames@.len(),
                views == frame_views(frames@),
                frames_in_range(views),
                self@.wf(),
                self@ == start.run(views.take(i as int)).state,
                events@ == start.run(views.take(i as int)).events,
            decreases frames@.len() - i,
        {
            let frame = &frames[i];
            assert(views[i as int] == frames@[i as int]@);
            proof {
                let next = views.take(i as int + 1);
                assert(next.drop_last() =~= views.take(i as int));
                assert(next.last() == frames@[i as int]@);
            }
            let mut added = self.tick(frame.now_us, &frame.keys);
            events.append(&mut added);
            i = i + 1;
        }
        assert(views.take(frames@.len() as int) =~= views);
        events
    }
}

/// A session on playable objects starts well formed, with one judgement
/// pending for each tap note and two for each hold.
pub proof fn lemma_fresh_wf(objects: Seq<HitObject>, overall_difficulty: i32)
    requires
        playable(objects),
    ensures
        SessionState::fresh(objects, overall_difficulty).wf(),
        SessionState::fresh(objects, overall_difficulty).pending() == spec_spawn_taps(
            objects,
        ).len() + 2 * spec_spawn_holds(objects).len(),
        objects.len() > 0 ==> spec_spawn_taps(objects).len() + spec_spawn_holds(objects).len()
            == objects.len(),
{
    let fresh = SessionState::fresh(objects, overall_difficulty);
    lemma_objects_part(objects);
    lemma_total_weight_uniform(fresh.notes, |note: Note| note.pending(), 1);
    lemma_total_weight_uniform(fresh.holds, |hold: HoldNote| hold.pending(), 2);
    assert forall|i: int| 0 <= i < fresh.holds.len() implies (#[trigger] fresh.holds[i]).wf() by {
        assert(crate::note::hold_objects(objects)[i].wf());
    }
    if objects.len() == 0 {
        reveal(Seq::filter);
    }
}

/// Whatever is played on whatever beatmap, the score stays between 0 and
/// 1000000: for a session that starts on playable objects and runs any
/// frames, and for any curve value up to one.
pub proof fn lemma_session_score_in_range(
    objects: Seq<HitObject>,
    overall_difficulty: i32,
    frames: Seq<FrameView>,
    curve: int,
)
    requires
        playable(objects),
        frames_in_range(frames),
        0 <= curve <= CURVE_UNIT,
    ensures
        0 <= SessionState::fresh(objects, overall_difficulty).run(
            frames,
        ).state.score.spec_score(curve) <= MAX_SCORE,
{
    lemma_fresh_wf(objects, overall_difficulty);
    lemma_run_score_in_range(SessionState::fresh(objects, overall_difficulty), frames, curve);
}

/// Whether every frame has its clock within `MAX_TIME` of zero.
pub open spec fn frames_in_range(frames: Seq<FrameView>) -> bool {
    forall|i: int| 0 <= i < frames.len() ==> time_in_range((#[trigger] frames[i]).now)
}

/// A tick keeps a session well formed. It never adds to the judgements
/// done and pending together, it reports one event for each judgement
/// that it adds to the score, and it leaves the windows and the total of
/// the score as they were.
pub proof fn lemma_tick_wf(state: SessionState, now: int, keys: KeyStateView)
    requires
        state.wf(),
        time_in_range(now),
    ensures
        state.tick(now, keys).state.wf(),
        state.tick(now, keys).state.score.objects_judged + state.tick(now, keys).state.pending()
            <= state.score.objects_judged + state.pending(),
        state.tick(now, keys).events.len() == state.tick(now, keys).state.score.objects_judged
            - state.score.objects_judged,
        state.tick(now, keys).state.score.total_objects == state.score.total_objects,
        state.tick(now, keys).state.windows == state.windows,
{
    let windows = state.windows;
    let start = TapPlay { notes: state.notes, score: state.score, events: Seq::empty() };
    lemma_hits_follow(start, keys.just_pressed, now, windows, lanes(keys.just_pressed));
    let hit = start.process_hits(keys.just_pressed, now, windows);
    lemma_misses_follow(hit, now, windows, hit.notes.len() as int);
    let taps = hit.process_misses(now, windows);
    let held = HoldPlay { holds: state.holds, score: taps.score, events: taps.events };
    lemma_head_hits_follow(held, keys.just_pressed, now, windows, lanes(keys.just_pressed));
    let heads = held.process_head_hits(keys.just_pressed, now, windows);
    lemma_head_misses_follow(heads, now, windows, heads.holds.len() as int);
    let missed = heads.process_head_misses(now, windows);
    lemma_bodies_follow(missed, keys.pressed, now, missed.holds.len() as int);
    let followed = missed.update_hold_state(keys.pressed, now);
    lemma_releases_follow(
        followed,
        keys.pressed,
        keys.just_released,
        now,
        windows,
        followed.holds.len() as int,
    );
    let released = followed.process_release(keys.pressed, keys.just_released, now, windows);
    lemma_cleanup_keeps_open(taps.notes, now);
    lemma_cleanup_keeps_pending(released.holds, now);
}

/// Replay keeps a session well formed, never adds to the judgements done
/// and pending together, and reports one event for each judgement that it
/// adds to the score.
pub proof fn lemma_run_wf(state: SessionState, frames: Seq<FrameView>)
    requires
        state.wf(),
        frames_in_range(frames),
    ensures
        state.run(frames).state.wf(),
        state.run(frames).state.score.objects_judged + state.run(frames).state.pending()
            <= state.score.objects_judged + state.pending(),
        state.run(frames).events.len() == state.run(frames).state.score.objects_judged
            - state.score.objects_judged,
        state.run(frames).state.score.total_objects == state.score.total_objects,
        state.run(frames).state.windows == state.windows,
    decreases frames.len(),
{
    if frames.len() > 0 {
        let earlier = frames.drop_last();
        assert forall|i: int| 0 <= i < earlier.len() implies time_in_range(
            (#[trigger] earlier[i]).now,
        ) by {
            assert(earlier[i] == frames[i]);
        }
        lemma_run_wf(state, earlier);
        assert(time_in_range(frames[frames.len() - 1].now));
        lemma_tick_wf(state.run(earlier).state, frames.last().now, frames.last().keys);
    }
}

/// Whatever is played, the score stays between 0 and 1000000: after any
/// frames, for a session whose total is not set or is at least the number
/// of its judgements done and pending, and for any curve value up to one.
pub proof fn lemma_run_score_in_range(state: SessionState, frames: Seq<FrameView>, curve: int)
    requires
        state.wf(),
        frames_in_range(frames),
        state.score.total_objects == 0 || state.score.objects_judged + state.pending()
            <= state.score.total_objects,
        0 <= curve <= CURVE_UNIT,
    ensures
        0 <= state.run(frames).state.score.spec_score(curve) <= MAX_SCORE,
{
    lemma_run_wf(state, frames);
    lemma_score_bounds(state.run(frames).state.score, curve);
}

/// Every hold of a session at its start is in a state that a hold can
/// reach.
pub proof fn lemma_fresh_consistent(objects: Seq<HitObject>, overall_difficulty: i32)
    ensures
        SessionState::fresh(objects, overall_difficulty).consistent(),
{
}

/// A tick keeps every hold in a state that a hold can reach.
pub proof fn lemma_tick_consistent(state: SessionState, now: int, keys: KeyStateView)
    requires
        state.consistent(),
    ensures
        state.tick(now, keys).state.consistent(),
{
    let taps = (TapPlay {
        notes: state.notes,
        score: state.score,
        events: Seq::empty(),
    }).process_hits(keys.just_pressed, now, state.windows).process_misses(now, state.windows);
    let start = HoldPlay { holds: state.holds, score: taps.score, events: taps.events };
    assert(start.consistent());
    lemma_head_hits_consistent(
        start,
        keys.just_pressed,
        now,
        state.windows,
        lanes(keys.just_pressed),
    );
    let hit = start.process_head_hits(keys.just_pressed, now, state.windows);
    lemma_head_misses_consistent(hit, now, state.windows, hit.holds.len() as int);
    let missed = hit.process_head_misses(now, state.windows);
    lemma_bodies_consistent(missed, keys.pressed, now, missed.holds.len() as int);
    let followed = missed.update_hold_state(keys.pressed, now);
    lemma_releases_consistent(
        followed,
        keys.pressed,
        keys.just_released,
        now,
        state.windows,
        followed.holds.len() as int,
    );
    let released = followed.process_release(
        keys.pressed,
        keys.just_released,
        now,
        state.windows,
    );
    lemma_cleanup_consistent(released, now);
}

/// Replay keeps every hold in a state that a hold can reach.
pub proof fn lemma_run_consistent(state: SessionState, frames: Seq<FrameView>)
    requires
        state.consistent(),
    ensures
        state.run(frames).state.consistent(),
    decreases frames.len(),
{
    if frames.len() > 0 {
        lemma_run_consistent(state, frames.drop_last());
        lemma_tick_consistent(
            state.run(frames.drop_last()).state,
            frames.last().now,
            frames.last().keys,
        );
    }
}

/// Replay is a function of its input: two sessions in the same state that
/// run the same frames end in the same state and report the same events.
pub proof fn lemma_replay_deterministic(
    first: SessionState,
    second: SessionState,
    frames_first: Seq<FrameView>,
    frames_second: Seq<FrameView>,
)
    requires
        first == second,
        frames_first == frames_second,
    ensures
        first.run(frames_first) == second.run(frames_second),
{
}

/// Two sessions started on the same objects at the same difficulty and
/// run on the same frames end in the same state, score included, and
/// report the same events.
pub proof fn lemma_fresh_replay_deterministic(
    objects: Seq<HitObject>,
    overall_difficulty: i32,
    frames: Seq<FrameView>,
    first: Outcome,
    second: Outcome,
)
    requires
        first == SessionState::fresh(objects, overall_difficulty).run(frames),
        second == SessionState::fresh(objects, overall_difficulty).run(frames),
    ensures
        first.state.score == second.state.score,
        first.state == second.state,
        first.events == second.events,
{
}

} // verus!
