//! Scroll velocity points: how fast the notes scroll from a given time on.

use vstd::prelude::*;

verus! {

/// The scroll speed one, in thousandths.
pub const NORMAL_MULTIPLIER: u32 = 1000;

/// A change of scroll velocity.
#[derive(Debug, Clone, Copy, PartialEq, Eq, Structural)]
pub struct ScrollVelocity {
    /// Time in microseconds.
    pub time: i64,
    /// Speed multiplier in thousandths: 1000 is the normal speed.
    pub multiplier: u32,
}

impl ScrollVelocity {
    /// A scroll velocity point.
    pub fn new(time: i64, multiplier: u32) -> (velocity: Self)
        ensures
            velocity == (ScrollVelocity { time, multiplier }),
    {
        ScrollVelocity { time, multiplier }
    }
}

impl Default for ScrollVelocity {
    fn default() -> (velocity: Self)
        ensures
            velocity == (ScrollVelocity { time: 0, multiplier: NORMAL_MULTIPLIER }),
    {
        ScrollVelocity { time: 0, multiplier: NORMAL_MULTIPLIER }
    }
}

} // verus!
