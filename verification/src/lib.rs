//! Timing judgement and scoring for a lane-based rhythm game.

pub mod beatmap;
pub mod hit_object;
pub mod input;
pub mod judgement;
pub mod note;
pub mod scoring;
pub mod scroll;
pub mod scroll_velocity;
pub mod selection;
pub mod session;
pub mod timing;

pub use beatmap::{
    AudioInfo, BeatmapError, BreakPeriod, Difficulty, EditorInfo, Metadata, ZuchsyaMap,
    FORMAT_VERSION,
};
pub use hit_object::HitObject;
pub use input::{KeyBindings, KeyState, LaneKey};
pub use judgement::ScoreState;
pub use note::{
    spawn_notes, CurrentHitObjects, HoldNote, HoldNoteHead, HoldNoteId, HoldNoteState, Note,
    SpawnedNotes,
};
pub use scoring::{Accuracy, DifficultyRange, HitResult, HitWindows, ScoreRank};
pub use scroll::{GameTime, ScrollConfig};
pub use scroll_velocity::ScrollVelocity;
pub use selection::SelectedBeatmap;
pub use session::{Frame, PlaySession};
pub use timing::TimingPoint;
