//! Judgement values, ranks and the difficulty-dependent hit windows.
//!
//! Times are whole microseconds and the overall difficulty is counted in
//! thousandths of a point, so every window is an exact integer.

use vstd::prelude::*;

verus! {

/// Microseconds in one millisecond.
pub const MICROS_PER_MILLI: i64 = 1000;

/// The overall difficulty five, in thousandths of a point.
pub const MID_DIFFICULTY: i32 = 5000;

/// The overall difficulty ten, in thousandths of a point.
pub const MAX_DIFFICULTY: i32 = 10000;

/// The denominator of the accuracy and combo weights.
pub const WEIGHT_UNIT: u32 = 6;

/// Judgement of one hit, from worst to best:
/// Miss < Meh < Okay < Good < Great < Perfect.
#[derive(Debug, Clone, Copy, PartialEq, Eq, Hash, PartialOrd, Ord, Structural)]
pub enum HitResult {
    Miss,
    Meh,
    Okay,
    Good,
    Great,
    Perfect,
}

impl HitResult {
    /// Position in the order from worst (0) to best (5).
    pub open spec fn spec_rank(self) -> int {
        match self {
            HitResult::Miss => 0,
            HitResult::Meh => 1,
            HitResult::Okay => 2,
            HitResult::Good => 3,
            HitResult::Great => 4,
            HitResult::Perfect => 5,
        }
    }

    /// Accuracy weight in sixths.
    pub open spec fn spec_accuracy_weight(self) -> int {
        match self {
            HitResult::Perfect => 6,
            HitResult::Great => 6,
            HitResult::Good => 4,
            HitResult::Okay => 2,
            HitResult::Meh => 1,
            HitResult::Miss => 0,
        }
    }

    /// Combo-score weight in sixths; the same as the accuracy weight.
    pub open spec fn spec_combo_score_weight(self) -> int {
        self.spec_accuracy_weight()
    }

    /// Only a miss breaks the combo.
    pub open spec fn spec_breaks_combo(self) -> bool {
        self == HitResult::Miss
    }

    /// The worse of two results.
    pub open spec fn spec_min(self, other: HitResult) -> HitResult {
        if self.spec_rank() <= other.spec_rank() {
            self
        } else {
            other
        }
    }

    /// Position in the order from worst (0) to best (5).
    pub fn rank(&self) -> (r: u8)
        ensures
            r == self.spec_rank(),
            r <= 5,
    {
        match self {
            HitResult::Miss => 0,
            HitResult::Meh => 1,
            HitResult::Okay => 2,
            HitResult::Good => 3,
            HitResult::Great => 4,
            HitResult::Perfect => 5,
        }
    }

    /// Base score value, for display.
    pub fn base_score(&self) -> (s: i32)
        ensures
            s == match *self {
                HitResult::Perfect => 305int,
                HitResult::Great => 300int,
                HitResult::Good => 200int,
                HitResult::Okay => 100int,
                HitResult::Meh => 50int,
                HitResult::Miss => 0int,
            },
    {
        match self {
            HitResult::Perfect => 305,
            HitResult::Great => 300,
            HitResult::Good => 200,
            HitResult::Okay => 100,
            HitResult::Meh => 50,
            HitResult::Miss => 0,
        }
    }

    /// Accuracy weight as a number of sixths: 6 stands for 1, 4 for 2/3,
    /// 2 for 1/3, 1 for 1/6.
    pub fn accuracy_weight(&self) -> (w: u32)
        ensures
            w == self.spec_accuracy_weight(),
            w <= WEIGHT_UNIT,
    {
        match self {
            HitResult::Perfect => 6,
            HitResult::Great => 6,
            HitResult::Good => 4,
            HitResult::Okay => 2,
            HitResult::Meh => 1,
            HitResult::Miss => 0,
        }
    }

    /// Combo-score weight as a number of sixths.
    pub fn combo_score_weight(&self) -> (w: u32)
        ensures
            w == self.spec_combo_score_weight(),
            w <= WEIGHT_UNIT,
    {
        self.accuracy_weight()
    }

    /// Whether this result resets the combo.
    pub fn breaks_combo(&self) -> (b: bool)
        ensures
            b == self.spec_breaks_combo(),
    {
        match self {
            HitResult::Miss => true,
            _ => false,
        }
    }

    /// The worse of two results.
    pub fn min(self, other: HitResult) -> (r: HitResult)
        ensures
            r == self.spec_min(other),
            r.spec_rank() <= self.spec_rank(),
            r.spec_rank() <= other.spec_rank(),
    {
        if self.rank() <= other.rank() {
            self
        } else {
            other
        }
    }
}

/// An accuracy as the exact fraction `num / den`.
///
/// A fraction with `den == 0` stands for "nothing measured" and meets every
/// threshold.
#[derive(Debug, Clone, Copy, PartialEq, Eq, Structural)]
pub struct Accuracy {
    pub num: u64,
    pub den: u64,
}

impl Accuracy {
    /// `num / den >= percent / 100`, cross-multiplied.
    pub open spec fn spec_at_least_percent(self, percent: int) -> bool {
        self.num * 100 >= percent * self.den
    }

    /// Whether the accuracy is at least `percent` hundredths.
    pub fn at_least_percent(&self, percent: u8) -> (b: bool)
        ensures
            b == self.spec_at_least_percent(percent as int),
    {
        let lhs: u128 = (self.num as u128) * 100;
        assert((percent as u128) * (self.den as u128) <= 255 * 0xffff_ffff_ffff_ffff)
            by (nonlinear_arith)
            requires
                percent <= 255,
                self.den <= 0xffff_ffff_ffff_ffff,
        ;
        let rhs: u128 = (percent as u128) * (self.den as u128);
        lhs >= rhs
    }
}

/// Score rank, from worst to best; `X` is shown as "SS".
#[derive(Debug, Clone, Copy, PartialEq, Eq, PartialOrd, Ord, Structural)]
pub enum ScoreRank {
    D,
    C,
    B,
    A,
    S,
    X,
}

impl ScoreRank {
    /// The rank of an accuracy. Each tier includes its lower bound:
    /// 95% gives S (X where nothing worse than Great occurred), 90% A,
    /// 80% B, 70% C, less D.
    pub open spec fn spec_from_accuracy(accuracy: Accuracy, has_imperfect: bool) -> ScoreRank {
        if accuracy.spec_at_least_percent(95) {
            if has_imperfect {
                ScoreRank::S
            } else {
                ScoreRank::X
            }
        } else if accuracy.spec_at_least_percent(90) {
            ScoreRank::A
        } else if accuracy.spec_at_least_percent(80) {
            ScoreRank::B
        } else if accuracy.spec_at_least_percent(70) {
            ScoreRank::C
        } else {
            ScoreRank::D
        }
    }

    /// The display string of a rank.
    pub open spec fn spec_as_str(self) -> Seq<char> {
        match self {
            ScoreRank::X => "SS"@,
            ScoreRank::S => "S"@,
            ScoreRank::A => "A"@,
            ScoreRank::B => "B"@,
            ScoreRank::C => "C"@,
            ScoreRank::D => "D"@,
        }
    }

    /// Rank from accuracy; `has_imperfect` says whether any judgement worse
    /// than Great occurred.
    pub fn from_accuracy(accuracy: Accuracy, has_imperfect: bool) -> (rank: ScoreRank)
        ensures
            rank == Self::spec_from_accuracy(accuracy, has_imperfect),
    {
        if accuracy.at_least_percent(95) {
            if has_imperfect {
                ScoreRank::S
            } else {
                ScoreRank::X
            }
        } else if accuracy.at_least_percent(90) {
            ScoreRank::A
        } else if accuracy.at_least_percent(80) {
            ScoreRank::B
        } else if accuracy.at_least_percent(70) {
            ScoreRank::C
        } else {
            ScoreRank::D
        }
    }

    /// Display string.
    pub fn as_str(&self) -> (s: &'static str)
        ensures
            s@ == self.spec_as_str(),
    {
        match self {
            ScoreRank::X => "SS",
            ScoreRank::S => "S",
            ScoreRank::A => "A",
            ScoreRank::B => "B",
            ScoreRank::C => "C",
            ScoreRank::D => "D",
        }
    }
}

/// Three calibration points of a hit window, in microseconds:
/// `max` at difficulty 0, `mid` at difficulty 5, `min` at difficulty 10.
#[derive(Debug, Clone, Copy, PartialEq, Eq, Structural)]
pub struct DifficultyRange {
    pub max: i32,
    pub mid: i32,
    pub min: i32,
}

/// Floor of `n / 5000`.
fn floor_div_mid(n: i128) -> (q: i128)
    ensures
        q == n as int / 5000,
{
    let q: i128 = n / 5000;
    let r: i128 = n % 5000;
    if r < 0 {
        q - 1
    } else {
        q
    }
}

/// Floor of `n / 1000`.
fn floor_div_milli(n: i64) -> (q: i64)
    ensures
        q == n as int / 1000,
{
    let q: i64 = n / 1000;
    let r: i64 = n % 1000;
    if r < 0 {
        q - 1
    } else {
        q
    }
}

impl DifficultyRange {
    /// The interpolated value times 5000, which is an integer: linear from
    /// `mid` toward `min` above difficulty 5 and toward `max` below it, and
    /// continued on the same lines outside 0..10.
    pub open spec fn scaled(self, od: int) -> int {
        if od > 5000 {
            self.mid * 5000 + (self.min - self.mid) * (od - 5000)
        } else if od < 5000 {
            self.mid * 5000 + (self.max - self.mid) * (5000 - od)
        } else {
            self.mid * 5000
        }
    }

    /// The interpolated value in whole microseconds, rounded down.
    pub open spec fn spec_at(self, od: int) -> int {
        self.scaled(od) / 5000
    }

    /// A range from its values at the difficulties 0, 5 and 10.
    pub fn new(max: i32, mid: i32, min: i32) -> (range: Self)
        ensures
            range == (DifficultyRange { max, mid, min }),
    {
        DifficultyRange { max, mid, min }
    }

    /// Value at the difficulty `od` (thousandths of a point), in whole
    /// microseconds, rounded down.
    pub fn at(&self, od: i32) -> (v: i64)
        ensures
            v == self.spec_at(od as int),
            -0x20_0000_0000_0000 <= v <= 0x20_0000_0000_0000,
    {
        let mid: i128 = self.mid as i128;
        let (slope, dist): (i128, i128) = if od > MID_DIFFICULTY {
            (self.min as i128 - mid, od as i128 - 5000)
        } else if od < MID_DIFFICULTY {
            (self.max as i128 - mid, 5000 - od as i128)
        } else {
            (0, 0)
        };
        assert(-0x1_0000_0000 * 0x1_0000_0000 <= slope * dist <= 0x1_0000_0000 * 0x1_0000_0000)
            by (nonlinear_arith)
            requires
                -0x1_0000_0000 <= slope <= 0x1_0000_0000,
                0 <= dist <= 0x1_0000_0000,
        ;
        let scaled: i128 = mid * 5000 + slope * dist;
        assert(scaled == self.scaled(od as int));
        let v: i128 = floor_div_mid(scaled);
        v as i64
    }
}

/// The six hit windows of one overall difficulty.
#[derive(Debug, Clone, Copy, PartialEq, Eq, Structural)]
pub struct HitWindows {
    /// Overall difficulty in thousandths of a point.
    pub overall_difficulty: i32,
}

impl HitWindows {
    /// The calibration points of each result's window, in microseconds.
    pub open spec fn spec_range_for(result: HitResult) -> DifficultyRange {
        match result {
            HitResult::Perfect => DifficultyRange { max: 22_400, mid: 19_400, min: 13_900 },
            HitResult::Great => DifficultyRange { max: 64_000, mid: 49_000, min: 34_000 },
            HitResult::Good => DifficultyRange { max: 97_000, mid: 82_000, min: 67_000 },
            HitResult::Okay => DifficultyRange { max: 127_000, mid: 112_000, min: 97_000 },
            HitResult::Meh => DifficultyRange { max: 151_000, mid: 136_000, min: 121_000 },
            HitResult::Miss => DifficultyRange { max: 188_000, mid: 173_000, min: 158_000 },
        }
    }

    /// Half-width of a result's window in microseconds: the interpolated
    /// value in milliseconds, rounded down to a whole millisecond, plus
    /// half a millisecond.
    pub open spec fn spec_window_for(self, result: HitResult) -> int {
        (Self::spec_range_for(result).scaled(self.overall_difficulty as int) / 5_000_000) * 1000
            + 500
    }

    /// The best result whose window holds the offset, if any.
    pub open spec fn spec_result_for(self, time_offset: int) -> Option<HitResult> {
        let a = vstd::math::abs(time_offset);
        if a <= self.spec_window_for(HitResult::Perfect) {
            Some(HitResult::Perfect)
        } else if a <= self.spec_window_for(HitResult::Great) {
            Some(HitResult::Great)
        } else if a <= self.spec_window_for(HitResult::Good) {
            Some(HitResult::Good)
        } else if a <= self.spec_window_for(HitResult::Okay) {
            Some(HitResult::Okay)
        } else if a <= self.spec_window_for(HitResult::Meh) {
            Some(HitResult::Meh)
        } else if a <= self.spec_window_for(HitResult::Miss) {
            Some(HitResult::Miss)
        } else {
            None
        }
    }

    /// Whether the offset lies inside the widest window.
    pub open spec fn spec_can_be_hit(self, time_offset: int) -> bool {
        vstd::math::abs(time_offset) <= self.spec_window_for(HitResult::Miss)
    }

    /// Whether a note at this offset has receded past the widest window.
    pub open spec fn spec_is_past(self, time_offset: int) -> bool {
        time_offset < -self.spec_window_for(HitResult::Miss)
    }

    /// The windows of an overall difficulty in thousandths of a point.
    pub fn new(od: i32) -> (windows: Self)
        ensures
            windows.overall_difficulty == od,
    {
        HitWindows { overall_difficulty: od }
    }

    /// The calibration points of a result's window.
    pub fn range_for(result: HitResult) -> (range: DifficultyRange)
        ensures
            range == Self::spec_range_for(result),
    {
        match result {
            HitResult::Perfect => DifficultyRange::new(22_400, 19_400, 13_900),
            HitResult::Great => DifficultyRange::new(64_000, 49_000, 34_000),
            HitResult::Good => DifficultyRange::new(97_000, 82_000, 67_000),
            HitResult::Okay => DifficultyRange::new(127_000, 112_000, 97_000),
            HitResult::Meh => DifficultyRange::new(151_000, 136_000, 121_000),
            HitResult::Miss => DifficultyRange::new(188_000, 173_000, 158_000),
        }
    }

    /// Half-width of the window of `result`, in microseconds.
    pub fn window_for(&self, result: HitResult) -> (w: i64)
        ensures
            w == self.spec_window_for(result),
            -0x20_0000_0000_0000 <= w <= 0x20_0000_0000_0000,
    {
        let range = Self::range_for(result);
        let value: i64 = range.at(self.overall_difficulty);
        proof {
            let s = range.scaled(self.overall_difficulty as int);
            assert((s / 5000) / 1000 == s / 5_000_000);
        }
        floor_div_milli(value) * MICROS_PER_MILLI + 500
    }

    /// Classifies a signed offset (note time minus current time).
    pub fn result_for(&self, time_offset: i64) -> (result: Option<HitResult>)
        ensures
            result == self.spec_result_for(time_offset as int),
    {
        if self.within(time_offset, HitResult::Perfect) {
            Some(HitResult::Perfect)
        } else if self.within(time_offset, HitResult::Great) {
            Some(HitResult::Great)
        } else if self.within(time_offset, HitResult::Good) {
            Some(HitResult::Good)
        } else if self.within(time_offset, HitResult::Okay) {
            Some(HitResult::Okay)
        } else if self.within(time_offset, HitResult::Meh) {
            Some(HitResult::Meh)
        } else if self.within(time_offset, HitResult::Miss) {
            Some(HitResult::Miss)
        } else {
            None
        }
    }

    /// Whether a note at this offset can still or already be hit.
    pub fn can_be_hit(&self, time_offset: i64) -> (b: bool)
        ensures
            b == self.spec_can_be_hit(time_offset as int),
    {
        self.within(time_offset, HitResult::Miss)
    }

    /// Whether a note at this offset lies behind the widest window.
    pub fn is_past(&self, time_offset: i64) -> (b: bool)
        ensures
            b == self.spec_is_past(time_offset as int),
    {
        let w = self.window_for(HitResult::Miss);
        time_offset < -w
    }

    /// `|time_offset| <= window_for(result)`.
    fn within(&self, time_offset: i64, result: HitResult) -> (b: bool)
        ensures
            b == (vstd::math::abs(time_offset as int) <= self.spec_window_for(result)),
    {
        let w = self.window_for(result);
        time_offset <= w && time_offset >= -w
    }
}

/// The interpolated value times 5000 of a range with known calibration
/// points, as a linear function of the difficulty.
proof fn lemma_scaled_linear(range: DifficultyRange, max: int, mid: int, min: int, od: int)
    requires
        range.max == max,
        range.mid == mid,
        range.min == min,
    ensures
        od >= 5000 ==> range.scaled(od) == mid * 5000 + (min - mid) * (od - 5000),
        od <= 5000 ==> range.scaled(od) == mid * 5000 + (max - mid) * (5000 - od),
{
    assert((range.min - range.mid) * (od - 5000) == (min - mid) * (od - 5000))
        by (nonlinear_arith)
        requires
            range.min - range.mid == min - mid,
    ;
    assert((range.max - range.mid) * (5000 - od) == (max - mid) * (5000 - od))
        by (nonlinear_arith)
        requires
            range.max - range.mid == max - mid,
    ;
    assert((min - mid) * (5000 - 5000) == 0);
    assert((max - mid) * (5000 - 5000) == 0);
}

/// The interpolated value of each window, times 5000, as a linear function
/// of the difficulty on either side of difficulty 5.
proof fn lemma_scaled_values(od: int)
    ensures
        od >= 5000 ==> HitWindows::spec_range_for(HitResult::Perfect).scaled(od) == 97_000_000
            - 5_500 * (od - 5000),
        od <= 5000 ==> HitWindows::spec_range_for(HitResult::Perfect).scaled(od) == 97_000_000
            + 3_000 * (5000 - od),
        od >= 5000 ==> HitWindows::spec_range_for(HitResult::Great).scaled(od) == 245_000_000
            - 15_000 * (od - 5000),
        od <= 5000 ==> HitWindows::spec_range_for(HitResult::Great).scaled(od) == 245_000_000
            + 15_000 * (5000 - od),
        od >= 5000 ==> HitWindows::spec_range_for(HitResult::Good).scaled(od) == 410_000_000
            - 15_000 * (od - 5000),
        od <= 5000 ==> HitWindows::spec_range_for(HitResult::Good).scaled(od) == 410_000_000
            + 15_000 * (5000 - od),
        od >= 5000 ==> HitWindows::spec_range_for(HitResult::Okay).scaled(od) == 560_000_000
            - 15_000 * (od - 5000),
        od <= 5000 ==> HitWindows::spec_range_for(HitResult::Okay).scaled(od) == 560_000_000
            + 15_000 * (5000 - od),
        od >= 5000 ==> HitWindows::spec_range_for(HitResult::Meh).scaled(od) == 680_000_000
            - 15_000 * (od - 5000),
        od <= 5000 ==> HitWindows::spec_range_for(HitResult::Meh).scaled(od) == 680_000_000
            + 15_000 * (5000 - od),
        od >= 5000 ==> HitWindows::spec_range_for(HitResult::Miss).scaled(od) == 865_000_000
            - 15_000 * (od - 5000),
        od <= 5000 ==> HitWindows::spec_range_for(HitResult::Miss).scaled(od) == 865_000_000
            + 15_000 * (5000 - od),
{
    lemma_scaled_linear(HitWindows::spec_range_for(HitResult::Perfect), 22_400, 19_400, 13_900, od);
    lemma_scaled_linear(HitWindows::spec_range_for(HitResult::Great), 64_000, 49_000, 34_000, od);
    lemma_scaled_linear(HitWindows::spec_range_for(HitResult::Good), 97_000, 82_000, 67_000, od);
    lemma_scaled_linear(HitWindows::spec_range_for(HitResult::Okay), 127_000, 112_000, 97_000, od);
    lemma_scaled_linear(HitWindows::spec_range_for(HitResult::Meh), 151_000, 136_000, 121_000, od);
    lemma_scaled_linear(HitWindows::spec_range_for(HitResult::Miss), 188_000, 173_000, 158_000, od);
}

/// Nesting: at every difficulty from 0 to 10 a better result has the
/// narrower or equal window, so Perfect lies within Great, Great within
/// Good, and so on to Miss.
pub proof fn lemma_windows_nested(windows: HitWindows, better: HitResult, worse: HitResult)
    requires
        0 <= windows.overall_difficulty <= MAX_DIFFICULTY,
        worse.spec_rank() <= better.spec_rank(),
    ensures
        windows.spec_window_for(better) <= windows.spec_window_for(worse),
{
    let od = windows.overall_difficulty as int;
    lemma_scaled_values(od);
    let b = HitWindows::spec_range_for(better).scaled(od);
    let w = HitWindows::spec_range_for(worse).scaled(od);
    assert(b <= w);
}

/// At every difficulty from 0 to 10 each window is at least 13.5 ms and at
/// most 188.5 ms wide.
pub proof fn lemma_window_bounds(windows: HitWindows, result: HitResult)
    requires
        0 <= windows.overall_difficulty <= MAX_DIFFICULTY,
    ensures
        13_500 <= windows.spec_window_for(result) <= 188_500,
{
    lemma_scaled_values(windows.overall_difficulty as int);
}

/// The classification does not depend on the sign of the offset.
pub proof fn lemma_result_symmetric(windows: HitWindows, time_offset: int)
    ensures
        windows.spec_result_for(time_offset) == windows.spec_result_for(-time_offset),
        windows.spec_can_be_hit(time_offset) == windows.spec_can_be_hit(-time_offset),
{
}

/// Every offset that can be hit is classified; at a difficulty from 0 to 10
/// no other offset is.
pub proof fn lemma_hittable_is_classified(windows: HitWindows, time_offset: int)
    ensures
        windows.spec_can_be_hit(time_offset) ==> windows.spec_result_for(time_offset).is_some(),
        0 <= windows.overall_difficulty <= MAX_DIFFICULTY ==> (windows.spec_can_be_hit(time_offset)
            <==> windows.spec_result_for(time_offset).is_some()),
{
    if 0 <= windows.overall_difficulty <= MAX_DIFFICULTY {
        lemma_windows_nested(windows, HitResult::Perfect, HitResult::Miss);
        lemma_windows_nested(windows, HitResult::Great, HitResult::Miss);
        lemma_windows_nested(windows, HitResult::Good, HitResult::Miss);
        lemma_windows_nested(windows, HitResult::Okay, HitResult::Miss);
        lemma_windows_nested(windows, HitResult::Meh, HitResult::Miss);
    }
}

} // verus!
