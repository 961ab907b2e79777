//! The game clock and the scroll speed.

use crate::hit_object::{time_in_range, MAX_TIME};
use vstd::prelude::*;

verus! {

/// Current time of the play session.
#[derive(Debug, Clone, Copy, PartialEq, Eq, Structural)]
pub struct GameTime {
    /// Current time in microseconds.
    pub current_us: i64,
}

impl GameTime {
    /// The clock is within `MAX_TIME` of zero.
    pub open spec fn wf(self) -> bool {
        time_in_range(self.current_us as int)
    }

    /// Moves the clock forward by `delta_us` microseconds.
    pub fn advance(&mut self, delta_us: u32)
        requires
            old(self).current_us + delta_us <= i64::MAX,
        ensures
            final(self).current_us == old(self).current_us + delta_us,
    {
        self.current_us = self.current_us + delta_us as i64;
    }
}

impl Default for GameTime {
    fn default() -> (time: Self)
        ensures
            time.current_us == 0,
    {
        GameTime { current_us: 0 }
    }
}

/// Sets the clock back to zero, as at the start of a session.
pub fn reset_game_time(game_time: &mut GameTime)
    ensures
        final(game_time).current_us == 0,
{
    game_time.current_us = 0;
}

/// The slowest scroll speed.
pub const MIN_SPEED: u8 = 1;

/// The fastest scroll speed.
pub const MAX_SPEED: u8 = 40;

/// The scroll speed of a new configuration.
pub const DEFAULT_SPEED: u8 = 20;

/// How far a key press changes the scroll speed.
pub const SPEED_STEP: u8 = 2;

/// The time that the playfield shows at the fastest speed, in
/// microseconds.
pub const MIN_TIME_RANGE: u32 = 290_000;

/// The time that the playfield shows at the slowest speed, in
/// microseconds.
pub const MAX_TIME_RANGE: u32 = 11_485_000;

/// Scroll configuration.
#[derive(Debug, Clone, Copy, PartialEq, Eq, Structural)]
pub struct ScrollConfig {
    /// Scroll speed, from 1 to 40.
    pub speed: u8,
    /// The time that the playfield shows, in microseconds.
    pub time_range_us: u32,
}

impl ScrollConfig {
    /// A speed brought into the range from 1 to 40.
    pub open spec fn clamp_speed(speed: int) -> int {
        if speed < MIN_SPEED {
            MIN_SPEED as int
        } else if speed > MAX_SPEED {
            MAX_SPEED as int
        } else {
            speed
        }
    }

    /// The time range of a speed from 1 to 40: it falls in equal steps
    /// from `MAX_TIME_RANGE` at speed 1 to `MIN_TIME_RANGE` at speed 40,
    /// rounded down to the microsecond.
    pub open spec fn spec_time_range(speed: int) -> int {
        (MAX_TIME_RANGE * 39 - (speed - 1) * (MAX_TIME_RANGE - MIN_TIME_RANGE)) / 39
    }

    /// The configuration of a speed, which is first brought into range.
    pub open spec fn spec_from_speed(speed: int) -> ScrollConfig {
        ScrollConfig {
            speed: Self::clamp_speed(speed) as u8,
            time_range_us: Self::spec_time_range(Self::clamp_speed(speed)) as u32,
        }
    }

    /// The speed after the keys for faster and slower: two more, two
    /// less, or both, kept in range.
    pub open spec fn spec_stepped_speed(self, faster: bool, slower: bool) -> int {
        Self::clamp_speed(
            self.speed + (if faster {
                SPEED_STEP as int
            } else {
                0
            }) - (if slower {
                SPEED_STEP as int
            } else {
                0
            }),
        )
    }

    /// The time range of a speed from 1 to 40.
    fn calculate_time_range(speed: u8) -> (range: u32)
        requires
            MIN_SPEED <= speed <= MAX_SPEED,
        ensures
            range == Self::spec_time_range(speed as int),
            MIN_TIME_RANGE <= range <= MAX_TIME_RANGE,
    {
        let span: u64 = (MAX_TIME_RANGE - MIN_TIME_RANGE) as u64;
        let scaled: u64 = MAX_TIME_RANGE as u64 * 39 - (speed as u64 - 1) * span;
        (scaled / 39) as u32
    }

    /// The configuration of a speed; a speed outside 1 to 40 counts as
    /// the nearest one inside.
    pub fn from_speed(speed: u8) -> (config: Self)
        ensures
            config == Self::spec_from_speed(speed as int),
            MIN_SPEED <= config.speed <= MAX_SPEED,
            MIN_TIME_RANGE <= config.time_range_us <= MAX_TIME_RANGE,
    {
        let speed = if speed < MIN_SPEED {
            MIN_SPEED
        } else if speed > MAX_SPEED {
            MAX_SPEED
        } else {
            speed
        };
        ScrollConfig { speed, time_range_us: Self::calculate_time_range(speed) }
    }

    /// The configuration after the keys for faster and slower, and
    /// whether the speed changed.
    pub fn adjust_scroll_speed(&self, faster: bool, slower: bool) -> (adjusted: (Self, bool))
        ensures
            adjusted.0 == Self::spec_from_speed(self.spec_stepped_speed(faster, slower)),
            adjusted.1 == (self.spec_stepped_speed(faster, slower) != self.speed),
            !adjusted.1 && MIN_SPEED <= self.speed <= MAX_SPEED ==> adjusted.0.speed == self.speed,
    {
        let mut new_speed: i32 = self.speed as i32;
        if faster {
            new_speed = new_speed + SPEED_STEP as i32;
        }
        if slower {
            new_speed = new_speed - SPEED_STEP as i32;
        }
        if new_speed < MIN_SPEED as i32 {
            new_speed = MIN_SPEED as i32;
        } else if new_speed > MAX_SPEED as i32 {
            new_speed = MAX_SPEED as i32;
        }
        (Self::from_speed(new_speed as u8), new_speed != self.speed as i32)
    }
}

impl Default for ScrollConfig {
    fn default() -> (config: Self)
        ensures
            config == ScrollConfig::spec_from_speed(DEFAULT_SPEED as int),
    {
        ScrollConfig::from_speed(DEFAULT_SPEED)
    }
}

/// A faster speed never shows more time.
pub proof fn lemma_time_range_falls(slower: int, faster: int)
    requires
        MIN_SPEED <= slower <= faster <= MAX_SPEED,
    ensures
        ScrollConfig::spec_time_range(faster) <= ScrollConfig::spec_time_range(slower),
        ScrollConfig::spec_time_range(MIN_SPEED as int) == MAX_TIME_RANGE,
        ScrollConfig::spec_time_range(MAX_SPEED as int) == MIN_TIME_RANGE,
{
}

} // verus!
