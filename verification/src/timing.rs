//! Timing points: the tempo of a beatmap from a given time on.

use vstd::prelude::*;

verus! {

/// 120 beats per minute, in thousandths of a beat per minute.
pub const DEFAULT_BPM: u32 = 120_000;

/// The length of a beat in microseconds, times the tempo in thousandths
/// of a beat per minute.
pub const BEAT_SCALE: i64 = 60_000_000_000;

/// The integer nearest to `n / d` for a positive `d`; a half goes away
/// from zero.
pub open spec fn round_div(n: int, d: int) -> int {
    if n >= 0 {
        (2 * n + d) / (2 * d)
    } else {
        -((2 * (-n) + d) / (2 * d))
    }
}

/// The integer nearest to `n / d`; a half goes away from zero.
fn rounded_quotient(n: i128, d: i128) -> (q: i128)
    requires
        0 < d <= 0x100_0000_0000,
        -0x1_0000_0000_0000_0000_0000_0000_0000 <= n <= 0x1_0000_0000_0000_0000_0000_0000_0000,
    ensures
        q == round_div(n as int, d as int),
{
    let m: i128 = if n >= 0 {
        n
    } else {
        -n
    };
    proof {
        vstd::arithmetic::div_mod::lemma_div_pos_is_pos(2 * m + d, 2 * d);
    }
    let q: i128 = (2 * m + d) / (2 * d);
    if n >= 0 {
        q
    } else {
        -q
    }
}

/// A tempo change.
#[derive(Debug, Clone, Copy, PartialEq, Eq, Structural)]
pub struct TimingPoint {
    /// Time in microseconds.
    pub time: i64,
    /// Tempo in thousandths of a beat per minute.
    pub bpm: u32,
    /// Beats per measure.
    pub signature: u8,
}

/// The time signature of a timing point that names none.
pub fn default_signature() -> (signature: u8)
    ensures
        signature == 4,
{
    4
}

impl TimingPoint {
    /// A timing point in four-four time.
    pub fn new(time: i64, bpm: u32) -> (point: Self)
        ensures
            point == (TimingPoint { time, bpm, signature: 4 }),
    {
        TimingPoint { time, bpm, signature: 4 }
    }

    /// A timing point with its own time signature.
    pub fn with_signature(time: i64, bpm: u32, signature: u8) -> (point: Self)
        ensures
            point == (TimingPoint { time, bpm, signature }),
    {
        TimingPoint { time, bpm, signature }
    }
}

impl TimingPoint {
    /// The length of a beat in whole microseconds, rounded down.
    pub open spec fn spec_beat_length(self) -> int {
        BEAT_SCALE as int / self.bpm as int
    }

    /// The number of the grid line nearest to `time`, where the lines lie
    /// a beat divided by `divisor` apart and line 0 lies at the timing
    /// point.
    pub open spec fn spec_snap_index(self, time: int, divisor: int) -> int {
        round_div((time - self.time) * (self.bpm * divisor), BEAT_SCALE as int)
    }

    /// The time of the grid line nearest to `time`, to the nearest
    /// microsecond.
    pub open spec fn spec_snap_to_beat(self, time: int, divisor: int) -> int {
        self.time + round_div(
            self.spec_snap_index(time, divisor) * BEAT_SCALE,
            self.bpm * divisor,
        )
    }

    /// The length of a beat in whole microseconds, rounded down; `None`
    /// at the tempo zero.
    pub fn beat_length(&self) -> (length: Option<i64>)
        ensures
            length is Some <==> self.bpm > 0,
            length matches Some(l) ==> l == self.spec_beat_length() && 0 < l <= BEAT_SCALE,
    {
        if self.bpm == 0 {
            None
        } else {
            proof {
                vstd::arithmetic::div_mod::lemma_div_non_zero(
                    BEAT_SCALE as int,
                    self.bpm as int,
                );
                vstd::arithmetic::div_mod::lemma_div_nonincreasing(
                    BEAT_SCALE as int,
                    self.bpm as int,
                );
            }
            Some(BEAT_SCALE / (self.bpm as i64))
        }
    }

    /// Snaps a time to the nearest line of the beat grid with `divisor`
    /// lines to the beat. `None` at the tempo zero, for the divisor zero,
    /// and where the snapped time does not fit 64 bits.
    pub fn snap_to_beat(&self, time: i64, divisor: u8) -> (snapped: Option<i64>)
        ensures
            snapped is Some <==> (self.bpm > 0 && divisor > 0 && i64::MIN <= self.spec_snap_to_beat(
                time as int,
                divisor as int,
            ) <= i64::MAX),
            snapped matches Some(t) ==> t == self.spec_snap_to_beat(time as int, divisor as int),
    {
        if self.bpm == 0 || divisor == 0 {
            return None;
        }
        assert(0 < self.bpm as i128 * divisor as i128 <= 0x100_0000_0000) by (nonlinear_arith)
            requires
                0 < self.bpm <= 0xffff_ffff,
                0 < divisor <= 0xff,
        ;
        let lines: i128 = self.bpm as i128 * divisor as i128;
        let offset: i128 = time as i128 - self.time as i128;
        assert(-0x1_0000_0000_0000_0000 * 0x100_0000_0000 <= offset * lines
            <= 0x1_0000_0000_0000_0000 * 0x100_0000_0000) by (nonlinear_arith)
            requires
                -0x1_0000_0000_0000_0000 <= offset <= 0x1_0000_0000_0000_0000,
                0 < lines <= 0x100_0000_0000,
        ;
        let index: i128 = rounded_quotient(offset * lines, BEAT_SCALE as i128);
        proof {
            lemma_round_div_nearest(offset * lines, BEAT_SCALE as int);
        }
        let shift: i128 = rounded_quotient(index * BEAT_SCALE as i128, lines);
        proof {
            lemma_round_div_bound(index * BEAT_SCALE, lines as int);
        }
        let snapped: i128 = self.time as i128 + shift;
        if snapped < i64::MIN as i128 || snapped > i64::MAX as i128 {
            None
        } else {
            Some(snapped as i64)
        }
    }
}

/// A rounded quotient is nearest: times the divisor it lies within half
/// the divisor of the number divided.
pub proof fn lemma_round_div_nearest(n: int, d: int)
    requires
        d > 0,
    ensures
        -d <= 2 * (round_div(n, d) * d - n) <= d,
{
    let m = vstd::math::abs(n) as int;
    let q = (2 * m + d) / (2 * d);
    vstd::arithmetic::div_mod::lemma_fundamental_div_mod(2 * m + d, 2 * d);
    vstd::arithmetic::div_mod::lemma_mod_bound(2 * m + d, 2 * d);
    let r = (2 * m + d) % (2 * d);
    assert(2 * (q * d - m) == d - r && (-q) * d == -(q * d)) by (nonlinear_arith)
        requires
            2 * m + d == (2 * d) * q + r,
    ;
}

/// A rounded quotient by a positive number is no larger in size than the
/// number divided, plus one.
pub proof fn lemma_round_div_bound(n: int, d: int)
    requires
        d > 0,
    ensures
        -(vstd::math::abs(n) + 1) <= round_div(n, d) <= vstd::math::abs(n) + 1,
{
    let m = vstd::math::abs(n) as int;
    let q = (2 * m + d) / (2 * d);
    vstd::arithmetic::div_mod::lemma_div_pos_is_pos(2 * m + d, 2 * d);
    vstd::arithmetic::div_mod::lemma_fundamental_div_mod(2 * m + d, 2 * d);
    assert(q <= m + 1) by (nonlinear_arith)
        requires
            2 * m + d == (2 * d) * q + (2 * m + d) % (2 * d),
            0 <= (2 * m + d) % (2 * d),
            d > 0,
            m >= 0,
            q >= 0,
    ;
}

/// A multiple of a positive number, divided by it and rounded, is the
/// factor.
pub proof fn lemma_round_div_multiple(j: int, d: int)
    requires
        d > 0,
    ensures
        round_div(j * d, d) == j,
{
    let m: int = if j >= 0 {
        j
    } else {
        -j
    };
    assert(2 * (m * d) + d == m * (2 * d) + d && m * d >= 0 && (j * d >= 0 <==> j >= 0) && (j >= 0
        ==> j * d == m * d) && (j < 0 ==> -(j * d) == m * d)) by (nonlinear_arith)
        requires
            d > 0,
            m >= 0,
            m == if j >= 0 {
                j
            } else {
                -j
            },
    ;
    vstd::arithmetic::div_mod::lemma_fundamental_div_mod_converse(2 * (m * d) + d, 2 * d, m, d);
}

/// A time on the grid snaps to itself: where the distance from the
/// timing point is a whole number `line` of grid steps, the snapped time
/// is the time.
pub proof fn lemma_snap_on_grid(point: TimingPoint, time: int, divisor: int, line: int)
    requires
        point.bpm > 0,
        divisor > 0,
        (time - point.time) * (point.bpm * divisor) == line * BEAT_SCALE,
    ensures
        point.spec_snap_index(time, divisor) == line,
        point.spec_snap_to_beat(time, divisor) == time,
{
    let lines = point.bpm * divisor;
    assert(lines > 0) by (nonlinear_arith)
        requires
            lines == point.bpm * divisor,
            point.bpm > 0,
            divisor > 0,
    ;
    lemma_round_div_multiple(line, BEAT_SCALE as int);
    lemma_round_div_multiple(time - point.time, lines);
}

impl Default for TimingPoint {
    fn default() -> (point: Self)
        ensures
            point == (TimingPoint { time: 0, bpm: DEFAULT_BPM, signature: 4 }),
    {
        TimingPoint { time: 0, bpm: DEFAULT_BPM, signature: 4 }
    }
}

} // verus!
