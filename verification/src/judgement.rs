//! Judgement of notes against the clock and the keys, and the score that
//! the judgements add up to.

pub mod hold;
pub mod note;
pub mod score;

pub use hold::{
    cleanup_hold_notes, process_hold_head_hits, process_hold_head_misses, process_hold_release,
    update_hold_state,
};
pub use note::{cleanup_hit_notes, process_note_hits, process_note_misses};
pub use score::ScoreState;

use crate::scoring::{HitResult, HitWindows};
use vstd::prelude::*;

verus! {

/// How long a judged note stays before it is discarded, in microseconds.
pub const CLEANUP_DELAY: i64 = 200_000;

/// The number of lanes that a note can name.
pub const LANE_LIMIT: usize = 256;

/// Configuration of the judgement.
#[derive(Debug, Clone, Copy, PartialEq, Eq, Structural)]
pub struct JudgementConfig {
    pub hit_windows: HitWindows,
}

impl Default for JudgementConfig {
    /// Overall difficulty five.
    fn default() -> (config: Self)
        ensures
            config.hit_windows.overall_difficulty == 5000,
    {
        JudgementConfig { hit_windows: HitWindows::new(5000) }
    }
}

/// Reported when a tap note, a hold head or a hold tail is judged.
#[derive(Debug, Clone, Copy, PartialEq, Eq, Structural)]
pub struct JudgementEvent {
    pub result: HitResult,
    pub column: u8,
    /// The judged time minus the clock, in microseconds.
    pub time_offset: i64,
}

/// What the choice among notes reads of a note: its lane, its time and
/// whether it still awaits its judgement.
pub struct Target {
    pub column: u8,
    pub time_us: i64,
    pub open: bool,
}

/// Whether a press in `column` at `now` can judge the target.
pub open spec fn is_candidate(target: Target, column: u8, now: int, windows: HitWindows) -> bool {
    target.column == column && target.open && windows.spec_can_be_hit(target.time_us - now)
}

/// How far the target is from `now`, early or late.
pub open spec fn distance(target: Target, now: int) -> int {
    vstd::math::abs(target.time_us - now) as int
}

/// Whether target `i` is the one a press in `column` judges: a candidate
/// that no candidate is nearer than, and the first among those equally
/// near.
pub open spec fn is_closest(
    targets: Seq<Target>,
    i: int,
    column: u8,
    now: int,
    windows: HitWindows,
) -> bool {
    &&& 0 <= i < targets.len()
    &&& is_candidate(targets[i], column, now, windows)
    &&& forall|j: int|
        0 <= j < targets.len() && is_candidate(#[trigger] targets[j], column, now, windows)
            ==> distance(targets[i], now) <= distance(targets[j], now)
    &&& forall|j: int|
        0 <= j < i && is_candidate(#[trigger] targets[j], column, now, windows) ==> distance(
            targets[i],
            now,
        ) < distance(targets[j], now)
}

/// The target that a press in `column` judges, if there is a candidate.
pub open spec fn closest(targets: Seq<Target>, column: u8, now: int, windows: HitWindows) -> Option<
    int,
> {
    if exists|i: int| is_closest(targets, i, column, now, windows) {
        Some(choose|i: int| is_closest(targets, i, column, now, windows))
    } else {
        None
    }
}

/// A press judges at most one target: the closest is unique.
pub proof fn lemma_closest_unique(
    targets: Seq<Target>,
    i: int,
    j: int,
    column: u8,
    now: int,
    windows: HitWindows,
)
    requires
        is_closest(targets, i, column, now, windows),
        is_closest(targets, j, column, now, windows),
    ensures
        i == j,
{
}

/// The closest target is the one that meets `is_closest`.
pub proof fn lemma_closest_is(
    targets: Seq<Target>,
    i: int,
    column: u8,
    now: int,
    windows: HitWindows,
)
    requires
        is_closest(targets, i, column, now, windows),
    ensures
        closest(targets, column, now, windows) == Some(i),
{
    let k = choose|k: int| is_closest(targets, k, column, now, windows);
    lemma_closest_unique(targets, i, k, column, now, windows);
}

/// What `closest` gives meets `is_closest`.
pub proof fn lemma_closest_some(targets: Seq<Target>, column: u8, now: int, windows: HitWindows)
    ensures
        closest(targets, column, now, windows) matches Some(i) ==> is_closest(
            targets,
            i,
            column,
            now,
            windows,
        ),
{
}

/// Among the first `n` targets, where one is a candidate, one is the
/// closest: nearest, and first among the nearest.
proof fn lemma_closest_in_prefix(
    targets: Seq<Target>,
    n: int,
    column: u8,
    now: int,
    windows: HitWindows,
) -> (best: int)
    requires
        0 <= n <= targets.len(),
        exists|j: int| 0 <= j < n && is_candidate(targets[j], column, now, windows),
    ensures
        0 <= best < n,
        is_candidate(targets[best], column, now, windows),
        forall|j: int|
            0 <= j < n && is_candidate(#[trigger] targets[j], column, now, windows) ==> distance(
                targets[best],
                now,
            ) <= distance(targets[j], now),
        forall|j: int|
            0 <= j < best && is_candidate(#[trigger] targets[j], column, now, windows) ==> distance(
                targets[best],
                now,
            ) < distance(targets[j], now),
    decreases n,
{
    let last = n - 1;
    if exists|j: int| 0 <= j < last && is_candidate(targets[j], column, now, windows) {
        let before = lemma_closest_in_prefix(targets, last, column, now, windows);
        if is_candidate(targets[last], column, now, windows) && distance(targets[last], now)
            < distance(targets[before], now) {
            last
        } else {
            before
        }
    } else {
        last
    }
}

/// Where a target is a candidate there is a closest one.
pub proof fn lemma_closest_exists(
    targets: Seq<Target>,
    i: int,
    column: u8,
    now: int,
    windows: HitWindows,
)
    requires
        0 <= i < targets.len(),
        is_candidate(targets[i], column, now, windows),
    ensures
        closest(targets, column, now, windows) is Some,
{
    let best = lemma_closest_in_prefix(targets, targets.len() as int, column, now, windows);
    assert(is_closest(targets, best, column, now, windows));
}

/// Where no target is a candidate there is no closest one.
pub proof fn lemma_closest_none(targets: Seq<Target>, column: u8, now: int, windows: HitWindows)
    requires
        forall|j: int|
            0 <= j < targets.len() ==> !is_candidate(#[trigger] targets[j], column, now, windows),
    ensures
        closest(targets, column, now, windows) is None,
{
}

/// The sum of a weight over a sequence.
pub open spec fn total_weight<T>(items: Seq<T>, weight: spec_fn(T) -> nat) -> nat
    decreases items.len(),
{
    if items.len() == 0 {
        0
    } else {
        total_weight(items.drop_last(), weight) + weight(items.last())
    }
}

/// Replacing one item changes the sum by the difference of the weights.
pub proof fn lemma_total_weight_update<T>(
    items: Seq<T>,
    weight: spec_fn(T) -> nat,
    i: int,
    item: T,
)
    requires
        0 <= i < items.len(),
    ensures
        total_weight(items.update(i, item), weight) + weight(items[i]) == total_weight(
            items,
            weight,
        ) + weight(item),
    decreases items.len(),
{
    let updated = items.update(i, item);
    if i == items.len() - 1 {
        assert(updated.drop_last() =~= items.drop_last());
    } else {
        assert(updated.drop_last() =~= items.drop_last().update(i, item));
        lemma_total_weight_update(items.drop_last(), weight, i, item);
    }
}

/// Appending an item adds its weight.
pub proof fn lemma_total_weight_push<T>(items: Seq<T>, weight: spec_fn(T) -> nat, item: T)
    ensures
        total_weight(items.push(item), weight) == total_weight(items, weight) + weight(item),
{
    assert(items.push(item).drop_last() =~= items);
}

/// The number of lanes that the hit paths look at: as many as there are
/// flags, and no more than `LANE_LIMIT`.
pub open spec fn lanes(flags: Seq<bool>) -> int {
    if flags.len() < LANE_LIMIT {
        flags.len() as int
    } else {
        LANE_LIMIT as int
    }
}

} // verus!
