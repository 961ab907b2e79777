//! A beatmap as plain values, with the checks and counts on it.

use crate::hit_object::HitObject;
use crate::note::{hold_objects, tap_objects};
use crate::scroll_velocity::ScrollVelocity;
use crate::timing::{TimingPoint, DEFAULT_BPM};
use vstd::prelude::*;

verus! {

/// The format version that this library writes.
pub const FORMAT_VERSION: u32 = 1;

/// The smallest number of keys of a beatmap.
pub const MIN_KEYS: u8 = 1;

/// The largest number of keys of a beatmap.
pub const MAX_KEYS: u8 = 10;

/// Beatmap metadata.
#[derive(Debug, Clone, PartialEq, Eq)]
pub struct Metadata {
    pub title: String,
    pub artist: String,
    pub creator: String,
    pub difficulty_name: String,
    pub title_unicode: Option<String>,
    pub artist_unicode: Option<String>,
    pub source: Option<String>,
    pub tags: Vec<String>,
}

impl Default for Metadata {
    fn default() -> (metadata: Self)
        ensures
            metadata.title@.len() == 0,
            metadata.artist@.len() == 0,
            metadata.creator@.len() == 0,
            metadata.difficulty_name@.len() == 0,
            metadata.title_unicode is None,
            metadata.artist_unicode is None,
            metadata.source is None,
            metadata.tags@.len() == 0,
    {
        Metadata {
            title: String::new(),
            artist: String::new(),
            creator: String::new(),
            difficulty_name: String::new(),
            title_unicode: None,
            artist_unicode: None,
            source: None,
            tags: Vec::new(),
        }
    }
}

/// Audio configuration.
#[derive(Debug, Clone, PartialEq, Eq)]
pub struct AudioInfo {
    /// Audio file name.
    pub file: String,
    /// Start of the preview in milliseconds; -1 asks for the usual place.
    pub preview_time: i32,
}

/// The preview time of a beatmap that names none.
pub fn default_preview_time() -> (time: i32)
    ensures
        time == -1,
{
    -1
}

impl Default for AudioInfo {
    fn default() -> (audio: Self)
        ensures
            audio.file@.len() == 0,
            audio.preview_time == -1,
    {
        AudioInfo { file: String::new(), preview_time: -1 }
    }
}

/// Difficulty settings.
#[derive(Debug, Clone, Copy, PartialEq, Eq, Structural)]
pub struct Difficulty {
    /// Number of keys.
    pub keys: u8,
    /// Overall difficulty in thousandths of a point.
    pub od: i32,
    /// Health drain in thousandths of a point.
    pub hp: i32,
}

impl Default for Difficulty {
    fn default() -> (difficulty: Self)
        ensures
            difficulty == (Difficulty { keys: 4, od: 5000, hp: 5000 }),
    {
        Difficulty { keys: 4, od: 5000, hp: 5000 }
    }
}

/// A rest between two times, in microseconds.
#[derive(Debug, Clone, Copy, PartialEq, Eq, Structural)]
pub struct BreakPeriod {
    pub start: i64,
    pub end: i64,
}

/// What only the editor reads.
#[derive(Debug, Clone, PartialEq, Eq)]
pub struct EditorInfo {
    /// Bookmarked times in milliseconds.
    pub bookmarks: Vec<i32>,
    pub breaks: Vec<BreakPeriod>,
}

impl Default for EditorInfo {
    fn default() -> (editor: Self)
        ensures
            editor.bookmarks@.len() == 0,
            editor.breaks@.len() == 0,
    {
        EditorInfo { bookmarks: Vec::new(), breaks: Vec::new() }
    }
}

/// Why a beatmap could not be loaded or saved.
#[derive(Debug, Clone, PartialEq, Eq)]
pub enum BeatmapError {
    /// Reading or writing failed; the message says how.
    Io(String),
    /// The text is no beatmap; the message says why.
    Yaml(String),
    /// The beatmap breaks a rule; the message names it.
    Validation(String),
}

/// A complete beatmap.
#[derive(Debug, Clone, PartialEq, Eq)]
pub struct ZuchsyaMap {
    pub version: u32,
    pub metadata: Metadata,
    pub audio: AudioInfo,
    pub background: Option<String>,
    pub difficulty: Difficulty,
    pub timing: Vec<TimingPoint>,
    pub scroll_velocities: Vec<ScrollVelocity>,
    pub hit_objects: Vec<HitObject>,
    pub editor: Option<EditorInfo>,
}

/// The latest end among the objects, and zero where there is none or all
/// of them end before zero.
pub open spec fn latest_end(objects: Seq<HitObject>) -> int
    decreases objects.len(),
{
    if objects.len() == 0 {
        0
    } else {
        let rest = latest_end(objects.drop_last());
        let end = objects.last().spec_end_time();
        if end > rest {
            end
        } else {
            rest
        }
    }
}

/// `latest_end` is zero or the end of an object, and no object ends later.
pub proof fn lemma_latest_end(objects: Seq<HitObject>)
    ensures
        latest_end(objects) >= 0,
        forall|i: int|
            0 <= i < objects.len() ==> (#[trigger] objects[i]).spec_end_time() <= latest_end(
                objects,
            ),
        latest_end(objects) == 0 || exists|i: int|
            0 <= i < objects.len() && (#[trigger] objects[i]).spec_end_time() == latest_end(
                objects,
            ),
    decreases objects.len(),
{
    if objects.len() > 0 {
        let rest = objects.drop_last();
        lemma_latest_end(rest);
        assert forall|i: int| 0 <= i < objects.len() implies (#[trigger] objects[i]).spec_end_time()
            <= latest_end(objects) by {
            if i < rest.len() {
                assert(rest[i] == objects[i]);
            }
        }
        if latest_end(objects) != 0 {
            if objects.last().spec_end_time() > latest_end(rest) {
                assert(objects[objects.len() - 1].spec_end_time() == latest_end(objects));
            } else {
                let k = choose|k: int|
                    0 <= k < rest.len() && (#[trigger] rest[k]).spec_end_time() == latest_end(rest);
                assert(objects[k] == rest[k]);
            }
        }
    }
}

impl ZuchsyaMap {
    /// Whether the beatmap keeps the rules: at least one timing point, and
    /// from one to ten keys.
    pub open spec fn is_valid(&self) -> bool {
        self.timing@.len() > 0 && MIN_KEYS <= self.difficulty.keys <= MAX_KEYS
    }

    /// Every hit object has time and duration in range.
    pub open spec fn objects_wf(&self) -> bool {
        forall|i: int| 0 <= i < self.hit_objects@.len() ==> (#[trigger] self.hit_objects@[i]).wf()
    }

    /// An empty beatmap: the current version, four keys, difficulty five,
    /// one timing point at 120 beats per minute and no hit objects.
    pub fn new() -> (map: Self)
        ensures
            map.version == FORMAT_VERSION,
            map.difficulty == (Difficulty { keys: 4, od: 5000, hp: 5000 }),
            map.timing@ == seq![TimingPoint { time: 0, bpm: DEFAULT_BPM, signature: 4 }],
            map.scroll_velocities@.len() == 0,
            map.hit_objects@.len() == 0,
            map.background is None,
            map.editor is None,
            map.is_valid(),
    {
        let mut timing: Vec<TimingPoint> = Vec::new();
        timing.push(TimingPoint::default());
        let map = ZuchsyaMap {
            version: FORMAT_VERSION,
            metadata: Metadata::default(),
            audio: AudioInfo::default(),
            background: None,
            difficulty: Difficulty::default(),
            timing,
            scroll_velocities: Vec::new(),
            hit_objects: Vec::new(),
            editor: None,
        };
        assert(map.timing@ =~= seq![TimingPoint { time: 0, bpm: DEFAULT_BPM, signature: 4 }]);
        map
    }

    /// Checks the rules of a beatmap. A beatmap without a timing point is
    /// refused first, then one whose number of keys is not from one to
    /// ten.
    pub fn validate(&self) -> (result: Result<(), BeatmapError>)
        ensures
            result is Ok <==> self.is_valid(),
            self.timing@.len() == 0 ==> (result matches Err(BeatmapError::Validation(message))
                && message@ == "At least one timing point is required"@),
            self.timing@.len() > 0 && !self.is_valid() ==> (result matches Err(
                BeatmapError::Validation(message),
            ) && message@ == "Key count must be between 1 and 10"@),
    {
        if self.timing.len() == 0 {
            return Err(
                BeatmapError::Validation("At least one timing point is required".to_owned()),
            );
        }
        if self.difficulty.keys < MIN_KEYS || self.difficulty.keys > MAX_KEYS {
            return Err(BeatmapError::Validation("Key count must be between 1 and 10".to_owned()));
        }
        Ok(())
    }

    /// The length of the beatmap in microseconds: the latest end of a hit
    /// object, and zero for a beatmap without one.
    pub fn duration(&self) -> (length: i64)
        requires
            self.objects_wf(),
        ensures
            length == latest_end(self.hit_objects@),
            length >= 0,
            forall|i: int|
                0 <= i < self.hit_objects@.len() ==> (#[trigger] self.hit_objects@[i]).spec_end_time()
                    <= length,
            length == 0 || exists|i: int|
                0 <= i < self.hit_objects@.len() && (#[trigger] self.hit_objects@[i]).spec_end_time()
                    == length,
    {
        let mut latest: i64 = 0;
        let mut i: usize = 0;
        assert(self.hit_objects@.take(0) =~= Seq::<HitObject>::empty());
        while i < self.hit_objects.len()
            invariant
                i <= self.hit_objects@.len(),
                self.objects_wf(),
                latest == latest_end(self.hit_objects@.take(i as int)),
            decreases self.hit_objects@.len() - i,
        {
            assert(self.hit_objects@[i as int].wf());
            let end = self.hit_objects[i].end_time();
            proof {
                let next = self.hit_objects@.take(i as int + 1);
                assert(next.drop_last() =~= self.hit_objects@.take(i as int));
            }
            if end > latest {
                latest = end;
            }
            i = i + 1;
        }
        proof {
            assert(self.hit_objects@.take(self.hit_objects@.len() as int) =~= self.hit_objects@);
            lemma_latest_end(self.hit_objects@);
        }
        latest
    }

    /// The number of hit objects.
    pub fn object_count(&self) -> (count: usize)
        ensures
            count == self.hit_objects@.len(),
    {
        self.hit_objects.len()
    }

    /// The number of tap notes.
    pub fn note_count(&self) -> (count: usize)
        ensures
            count == tap_objects(self.hit_objects@).len(),
            count + hold_objects(self.hit_objects@).len() == self.hit_objects@.len(),
    {
        let ghost is_tap = |object: HitObject| object.duration.is_none();
        let ghost is_hold = |object: HitObject| object.duration.is_some();
        let mut count: usize = 0;
        let mut i: usize = 0;
        proof {
            reveal(Seq::filter);
            assert(self.hit_objects@.take(0) =~= Seq::<HitObject>::empty());
        }
        while i < self.hit_objects.len()
            invariant
                i <= self.hit_objects@.len(),
                is_tap == |object: HitObject| object.duration.is_none(),
                is_hold == |object: HitObject| object.duration.is_some(),
                count == self.hit_objects@.take(i as int).filter(is_tap).len(),
                count + self.hit_objects@.take(i as int).filter(is_hold).len() == i,
            decreases self.hit_objects@.len() - i,
        {
            proof {
                let next = self.hit_objects@.take(i as int + 1);
                assert(next.drop_last() =~= self.hit_objects@.take(i as int));
                reveal(Seq::filter);
            }
            if !self.hit_objects[i].is_hold() {
                count = count + 1;
            }
            i = i + 1;
        }
        assert(self.hit_objects@.take(self.hit_objects@.len() as int) =~= self.hit_objects@);
        count
    }

    /// The number of hold notes.
    pub fn hold_count(&self) -> (count: usize)
        ensures
            count == hold_objects(self.hit_objects@).len(),
            count + tap_objects(self.hit_objects@).len() == self.hit_objects@.len(),
    {
        self.hit_objects.len() - self.note_count()
    }

    /// The tempo of the first timing point in thousandths of a beat per
    /// minute, and 120 beats per minute where there is none.
    pub fn bpm(&self) -> (bpm: u32)
        ensures
            bpm == if self.timing@.len() > 0 {
                self.timing@[0].bpm
            } else {
                DEFAULT_BPM
            },
    {
        if self.timing.len() > 0 {
            self.timing[0].bpm
        } else {
            DEFAULT_BPM
        }
    }
}

impl Default for ZuchsyaMap {
    fn default() -> (map: Self)
        ensures
            map.version == FORMAT_VERSION,
            map.timing@.len() == 1,
            map.hit_objects@.len() == 0,
            map.is_valid(),
    {
        ZuchsyaMap::new()
    }
}

} // verus!
