//! Hit objects of a beatmap: tap notes and hold notes.

use vstd::prelude::*;

verus! {

/// The largest time, and the largest duration, that the library works
/// with, in microseconds. Sums and differences of three such values fit
/// 64 bits.
pub const MAX_TIME: i64 = 1_000_000_000_000_000_000;

/// Whether a time or a duration lies within `MAX_TIME` of zero.
pub open spec fn time_in_range(t: int) -> bool {
    -MAX_TIME <= t <= MAX_TIME
}

/// Whether a time or a duration lies within `MAX_TIME` of zero.
pub fn is_time_in_range(t: i64) -> (b: bool)
    ensures
        b == time_in_range(t as int),
{
    -MAX_TIME <= t && t <= MAX_TIME
}

/// A hit object: a tap note, or a hold note where `duration` is present.
#[derive(Debug, Clone, Copy, PartialEq, Eq, Structural)]
pub struct HitObject {
    /// Hit time in microseconds.
    pub time: i64,
    /// Lane index, counted from 0.
    pub lane: u8,
    /// Length of a hold in microseconds; `None` for a tap note.
    pub duration: Option<i64>,
}

impl HitObject {
    /// Time and duration are within `MAX_TIME` of zero.
    pub open spec fn wf(self) -> bool {
        &&& time_in_range(self.time as int)
        &&& self.duration matches Some(d) ==> time_in_range(d as int)
    }

    /// The duration, 0 for a tap note.
    pub open spec fn spec_get_duration(self) -> int {
        match self.duration {
            Some(d) => d as int,
            None => 0,
        }
    }

    /// The end of the object: its time plus its duration.
    pub open spec fn spec_end_time(self) -> int {
        self.time + self.spec_get_duration()
    }

    /// A tap note.
    pub fn note(lane: u8, time: i64) -> (object: Self)
        ensures
            object == (HitObject { time, lane, duration: None }),
    {
        HitObject { time, lane, duration: None }
    }

    /// A hold note.
    pub fn hold(lane: u8, time: i64, duration: i64) -> (object: Self)
        ensures
            object == (HitObject { time, lane, duration: Some(duration) }),
    {
        HitObject { time, lane, duration: Some(duration) }
    }

    /// The lane index, counted from 0.
    pub fn lane(&self) -> (lane: u8)
        ensures
            lane == self.lane,
    {
        self.lane
    }

    /// The lane index under its other name.
    pub fn column(&self) -> (lane: u8)
        ensures
            lane == self.lane,
    {
        self.lane
    }

    /// The start time.
    pub fn start_time(&self) -> (time: i64)
        ensures
            time == self.time,
    {
        self.time
    }

    /// The end time: start plus duration for a hold, the start for a tap.
    pub fn end_time(&self) -> (time: i64)
        requires
            self.wf(),
        ensures
            time == self.spec_end_time(),
    {
        self.time + self.get_duration()
    }

    /// Whether this is a hold note.
    pub fn is_hold(&self) -> (b: bool)
        ensures
            b == self.duration.is_some(),
    {
        self.duration.is_some()
    }

    /// The duration, 0 for a tap note.
    pub fn get_duration(&self) -> (duration: i64)
        ensures
            duration == self.spec_get_duration(),
    {
        match self.duration {
            Some(d) => d,
            None => 0,
        }
    }

    /// Whether time and duration are within `MAX_TIME` of zero.
    pub fn is_valid(&self) -> (b: bool)
        ensures
            b == self.wf(),
    {
        is_time_in_range(self.time) && match self.duration {
            Some(d) => is_time_in_range(d),
            None => true,
        }
    }
}

impl Default for HitObject {
    fn default() -> (object: Self)
        ensures
            object == (HitObject { time: 0, lane: 0, duration: None }),
    {
        HitObject { time: 0, lane: 0, duration: None }
    }
}

} // verus!
