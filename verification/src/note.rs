//! Note records of a running session.

use crate::hit_object::{time_in_range, HitObject};
use crate::scoring::HitResult;
use vstd::prelude::*;

verus! {

/// A tap note in play.
#[derive(Debug, Clone, Copy, PartialEq, Eq, Structural)]
pub struct Note {
    /// Lane index, counted from 0.
    pub column: u8,
    /// Hit time in microseconds.
    pub time_us: i64,
    /// Whether the note has been judged.
    pub hit: bool,
}

/// Identifier that links the parts of one hold note.
#[derive(Debug, Clone, Copy, PartialEq, Eq, Hash, Structural)]
pub struct HoldNoteId(pub u32);

/// The timing of a hold note.
#[derive(Debug, Clone, Copy, PartialEq, Eq, Structural)]
pub struct HoldNoteHead {
    pub column: u8,
    pub start_time_us: i64,
    pub end_time_us: i64,
}

/// Progress of a hold note through head, body and tail.
#[derive(Debug, Clone, Copy, PartialEq, Eq, Structural)]
pub struct HoldNoteState {
    /// Whether the head has been judged.
    pub head_hit: bool,
    /// The judgement of the head, once there is one.
    pub head_result: Option<HitResult>,
    /// Whether the key is counted as held.
    pub is_holding: bool,
    /// Whether the hold was broken: the head missed or the key let go.
    pub hold_broken: bool,
    /// Whether the tail has been judged.
    pub tail_judged: bool,
}

impl HoldNoteState {
    /// The state of a hold whose head is still to come.
    pub open spec fn spec_default() -> HoldNoteState {
        HoldNoteState {
            head_hit: false,
            head_result: None,
            is_holding: false,
            hold_broken: false,
            tail_judged: false,
        }
    }
}

impl Default for HoldNoteState {
    fn default() -> (state: Self)
        ensures
            state == HoldNoteState::spec_default(),
    {
        HoldNoteState {
            head_hit: false,
            head_result: None,
            is_holding: false,
            hold_broken: false,
            tail_judged: false,
        }
    }
}

/// One hold note in play: its identifier, its timing and its progress.
#[derive(Debug, Clone, Copy, PartialEq, Eq, Structural)]
pub struct HoldNote {
    pub id: HoldNoteId,
    pub head: HoldNoteHead,
    pub state: HoldNoteState,
}

impl Note {
    /// The note's time is within `MAX_TIME` of zero.
    pub open spec fn wf(self) -> bool {
        time_in_range(self.time_us as int)
    }
}

impl HoldNote {
    /// Start and end are within twice `MAX_TIME` of zero.
    pub open spec fn wf(self) -> bool {
        &&& time_in_range(self.head.start_time_us as int)
        &&& -2 * crate::hit_object::MAX_TIME <= self.head.end_time_us <= 2
            * crate::hit_object::MAX_TIME
    }
}

/// The hit objects of the beatmap that is being played.
#[derive(Debug, Clone, PartialEq, Eq)]
pub struct CurrentHitObjects {
    pub objects: Vec<HitObject>,
}

impl Default for CurrentHitObjects {
    fn default() -> (current: Self)
        ensures
            current.objects@.len() == 0,
    {
        CurrentHitObjects { objects: Vec::new() }
    }
}

/// The tap notes and hold notes made from a list of hit objects.
#[derive(Debug, Clone, PartialEq, Eq)]
pub struct SpawnedNotes {
    pub notes: Vec<Note>,
    pub holds: Vec<HoldNote>,
}

/// The tap note of a hit object.
pub open spec fn note_of(object: HitObject) -> Note {
    Note { column: object.lane, time_us: object.time, hit: false }
}

/// The hold note of a hit object, as the hold with number `index`.
pub open spec fn hold_of(object: HitObject, index: int) -> HoldNote {
    HoldNote {
        id: HoldNoteId(index as u32),
        head: HoldNoteHead {
            column: object.lane,
            start_time_us: object.time,
            end_time_us: object.spec_end_time() as i64,
        },
        state: HoldNoteState::spec_default(),
    }
}

/// The notes that are played where no beatmap is loaded: a fixed pattern
/// of twelve tap notes in four lanes.
pub open spec fn spec_test_notes() -> Seq<Note> {
    seq![
        Note { column: 0, time_us: 1_000_000, hit: false },
        Note { column: 1, time_us: 1_250_000, hit: false },
        Note { column: 2, time_us: 1_500_000, hit: false },
        Note { column: 3, time_us: 1_750_000, hit: false },
        Note { column: 0, time_us: 2_000_000, hit: false },
        Note { column: 3, time_us: 2_000_000, hit: false },
        Note { column: 1, time_us: 2_250_000, hit: false },
        Note { column: 2, time_us: 2_250_000, hit: false },
        Note { column: 0, time_us: 2_500_000, hit: false },
        Note { column: 1, time_us: 2_500_000, hit: false },
        Note { column: 2, time_us: 2_500_000, hit: false },
        Note { column: 3, time_us: 2_500_000, hit: false },
    ]
}

/// The hit objects without a duration, in their order.
pub open spec fn tap_objects(objects: Seq<HitObject>) -> Seq<HitObject> {
    objects.filter(|object: HitObject| object.duration.is_none())
}

/// The hit objects with a duration, in their order.
pub open spec fn hold_objects(objects: Seq<HitObject>) -> Seq<HitObject> {
    objects.filter(|object: HitObject| object.duration.is_some())
}

/// The tap notes of a list of hit objects: one for each object without a
/// duration, in the order of the objects; the test pattern for an empty
/// list.
pub open spec fn spec_spawn_taps(objects: Seq<HitObject>) -> Seq<Note> {
    if objects.len() == 0 {
        spec_test_notes()
    } else {
        tap_objects(objects).map_values(|object: HitObject| note_of(object))
    }
}

/// The hold notes of a list of hit objects: one for each object with a
/// duration, in the order of the objects and numbered from 0.
pub open spec fn spec_spawn_holds(objects: Seq<HitObject>) -> Seq<HoldNote> {
    let sources = hold_objects(objects);
    Seq::new(sources.len(), |k: int| hold_of(sources[k], k))
}

/// Every hit object is a tap note or a hold note: the two kinds together
/// are as many as the objects, each of them comes from an object of the
/// list, and so is in range where all objects are.
pub proof fn lemma_objects_part(objects: Seq<HitObject>)
    ensures
        tap_objects(objects).len() + hold_objects(objects).len() == objects.len(),
        (forall|i: int| 0 <= i < objects.len() ==> (#[trigger] objects[i]).wf()) ==> {
            &&& forall|i: int|
                0 <= i < tap_objects(objects).len() ==> (#[trigger] tap_objects(objects)[i]).wf()
            &&& forall|i: int|
                0 <= i < hold_objects(objects).len() ==> {
                    &&& (#[trigger] hold_objects(objects)[i]).wf()
                    &&& hold_objects(objects)[i].duration is Some
                }
        },
    decreases objects.len(),
{
    reveal(Seq::filter);
    if objects.len() > 0 {
        let rest = objects.drop_last();
        lemma_objects_part(rest);
        if forall|i: int| 0 <= i < objects.len() ==> (#[trigger] objects[i]).wf() {
            assert forall|i: int| 0 <= i < rest.len() implies (#[trigger] rest[i]).wf() by {
                assert(rest[i] == objects[i]);
            }
            assert(objects[objects.len() - 1].wf());
        }
    }
}

/// The pattern of tap notes that is played where no beatmap is loaded.
pub fn spawn_test_notes() -> (notes: Vec<Note>)
    ensures
        notes@ == spec_test_notes(),
{
    let notes = vec![
        Note { column: 0, time_us: 1_000_000, hit: false },
        Note { column: 1, time_us: 1_250_000, hit: false },
        Note { column: 2, time_us: 1_500_000, hit: false },
        Note { column: 3, time_us: 1_750_000, hit: false },
        Note { column: 0, time_us: 2_000_000, hit: false },
        Note { column: 3, time_us: 2_000_000, hit: false },
        Note { column: 1, time_us: 2_250_000, hit: false },
        Note { column: 2, time_us: 2_250_000, hit: false },
        Note { column: 0, time_us: 2_500_000, hit: false },
        Note { column: 1, time_us: 2_500_000, hit: false },
        Note { column: 2, time_us: 2_500_000, hit: false },
        Note { column: 3, time_us: 2_500_000, hit: false },
    ];
    assert(notes@ =~= spec_test_notes());
    notes
}

/// Makes the notes of a session from the hit objects of a beatmap, or the
/// test pattern where the list is empty. Every note starts unjudged.
pub fn spawn_notes(objects: &Vec<HitObject>) -> (spawned: SpawnedNotes)
    requires
        objects@.len() <= u32::MAX,
        forall|i: int| 0 <= i < objects@.len() ==> (#[trigger] objects@[i]).wf(),
    ensures
        spawned.notes@ == spec_spawn_taps(objects@),
        spawned.holds@ == spec_spawn_holds(objects@),
        spawned.notes@.len() + spawned.holds@.len() == if objects@.len() == 0 {
            12
        } else {
            objects@.len() as int
        },
        forall|i: int| 0 <= i < spawned.notes@.len() ==> (#[trigger] spawned.notes@[i]).wf(),
        forall|i: int| 0 <= i < spawned.holds@.len() ==> (#[trigger] spawned.holds@[i]).wf(),
        forall|i: int| 0 <= i < spawned.notes@.len() ==> !(#[trigger] spawned.notes@[i]).hit,
        forall|i: int|
            0 <= i < spawned.holds@.len() ==> (#[trigger] spawned.holds@[i]).state
                == HoldNoteState::spec_default(),
{
    if objects.len() == 0 {
        proof {
            reveal(Seq::filter);
        }
        let holds: Vec<HoldNote> = Vec::new();
        assert(holds@ =~= spec_spawn_holds(objects@));
        return SpawnedNotes { notes: spawn_test_notes(), holds };
    }
    let ghost is_tap = |object: HitObject| object.duration.is_none();
    let ghost is_hold = |object: HitObject| object.duration.is_some();
    let mut notes: Vec<Note> = Vec::new();
    let mut holds: Vec<HoldNote> = Vec::new();
    let mut hold_note_id: u32 = 0;
    let mut i: usize = 0;
    while i < objects.len()
        invariant
            i <= objects@.len(),
            objects@.len() <= u32::MAX,
            is_tap == |object: HitObject| object.duration.is_none(),
            is_hold == |object: HitObject| object.duration.is_some(),
            forall|k: int| 0 <= k < objects@.len() ==> (#[trigger] objects@[k]).wf(),
            notes@ == objects@.take(i as int).filter(is_tap).map_values(
                |object: HitObject| note_of(object),
            ),
            holds@.len() == objects@.take(i as int).filter(is_hold).len(),
            forall|k: int|
                0 <= k < holds@.len() ==> #[trigger] holds@[k] == hold_of(
                    objects@.take(i as int).filter(is_hold)[k],
                    k,
                ),
            hold_note_id == holds@.len(),
            notes@.len() + holds@.len() == i,
            forall|k: int| 0 <= k < notes@.len() ==> (#[trigger] notes@[k]).wf(),
            forall|k: int| 0 <= k < holds@.len() ==> (#[trigger] holds@[k]).wf(),
            forall|k: int| 0 <= k < notes@.len() ==> !(#[trigger] notes@[k]).hit,
            forall|k: int|
                0 <= k < holds@.len() ==> (#[trigger] holds@[k]).state
                    == HoldNoteState::spec_default(),
        decreases objects@.len() - i,
    {
        let object = objects[i];
        assert(objects@[i as int].wf());
        proof {
            let prefix = objects@.take(i as int);
            let next = objects@.take(i as int + 1);
            assert(next =~= prefix.push(object));
            assert(next.drop_last() =~= prefix);
            reveal(Seq::filter);
            if is_tap(object) {
                assert(next.filter(is_tap) == prefix.filter(is_tap).push(object));
                assert(next.filter(is_hold) == prefix.filter(is_hold));
                assert(next.filter(is_tap).map_values(|object: HitObject| note_of(object))
                    =~= notes@.push(note_of(object)));
            } else {
                assert(next.filter(is_tap) == prefix.filter(is_tap));
                assert(next.filter(is_hold) == prefix.filter(is_hold).push(object));
            }
        }
        if object.is_hold() {
            let hold = HoldNote {
                id: HoldNoteId(hold_note_id),
                head: HoldNoteHead {
                    column: object.lane,
                    start_time_us: object.time,
                    end_time_us: object.end_time(),
                },
                state: HoldNoteState::default(),
            };
            holds.push(hold);
            hold_note_id = hold_note_id + 1;
        } else {
            notes.push(Note { column: object.lane, time_us: object.time, hit: false });
        }
        i = i + 1;
    }
    assert(objects@.take(objects@.len() as int) =~= objects@);
    assert(holds@ =~= spec_spawn_holds(objects@));
    SpawnedNotes { notes, holds }
}

} // verus!
