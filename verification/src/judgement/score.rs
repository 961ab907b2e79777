//! The score accumulator: combo, accuracy, per-result counts and the
//! running sums behind the score.

use crate::scoring::{Accuracy, HitResult, ScoreRank};
use vstd::arithmetic::power::pow;
use vstd::prelude::*;

verus! {

/// The smallest combo multiplier: one half.
pub const MIN_MULTIPLIER: u32 = 500_000;

/// The largest combo multiplier: the logarithm of 400 to base 4.
pub const MAX_MULTIPLIER: u32 = 4_321_928;

/// The combo at which the multiplier stops growing.
pub const MAX_COMBO_LEVEL: u32 = 400;

/// One whole unit of the accuracy curve handed to `ScoreState::score`.
pub const CURVE_UNIT: u32 = 1_000_000;

/// The largest score.
pub const MAX_SCORE: i64 = 1_000_000;

/// Logarithms to base 4 in millionths, rounded down: entry `c - 2` is
/// meant to be the largest `m` with `4^m <= c^1000000`, for `c` from 2 to
/// 400. For the powers of two that is proved below.
pub const LOG4_TABLE: [u32; 399] = [
    500000, 792481, 1000000, 1160964, 1292481, 1403677, 1500000, 1584962,
    1660964, 1729715, 1792481, 1850219, 1903677, 1953445, 2000000, 2043731,
    2084962, 2123963, 2160964, 2196158, 2229715, 2261780, 2292481, 2321928,
    2350219, 2377443, 2403677, 2428990, 2453445, 2477098, 2500000, 2522197,
    2543731, 2564641, 2584962, 2604726, 2623963, 2642701, 2660964, 2678776,
    2696158, 2713132, 2729715, 2745926, 2761780, 2777294, 2792481, 2807354,
    2821928, 2836212, 2850219, 2863960, 2877443, 2890679, 2903677, 2916445,
    2928990, 2941321, 2953445, 2965368, 2977098, 2988639, 3000000, 3011183,
    3022197, 3033044, 3043731, 3054262, 3064641, 3074873, 3084962, 3094912,
    3104726, 3114409, 3123963, 3133393, 3142701, 3151890, 3160964, 3169925,
    3178776, 3187519, 3196158, 3204695, 3213132, 3221471, 3229715, 3237866,
    3245926, 3253897, 3261780, 3269579, 3277294, 3284927, 3292481, 3299956,
    3307354, 3314678, 3321928, 3329105, 3336212, 3343250, 3350219, 3357122,
    3363960, 3370733, 3377443, 3384092, 3390679, 3397207, 3403677, 3410089,
    3416445, 3422745, 3428990, 3435182, 3441321, 3447408, 3453445, 3459431,
    3465368, 3471257, 3477098, 3482892, 3488639, 3494342, 3500000, 3505613,
    3511183, 3516711, 3522197, 3527641, 3533044, 3538407, 3543731, 3549016,
    3554262, 3559470, 3564641, 3569775, 3574873, 3579935, 3584962, 3589954,
    3594912, 3599836, 3604726, 3609584, 3614409, 3619202, 3623963, 3628693,
    3633393, 3638062, 3642701, 3647310, 3651890, 3656441, 3660964, 3665458,
    3669925, 3674364, 3678776, 3683161, 3687519, 3691852, 3696158, 3700439,
    3704695, 3708926, 3713132, 3717314, 3721471, 3725605, 3729715, 3733802,
    3737866, 3741907, 3745926, 3749922, 3753897, 3757849, 3761780, 3765690,
    3769579, 3773447, 3777294, 3781121, 3784927, 3788714, 3792481, 3796228,
    3799956, 3803665, 3807354, 3811025, 3814678, 3818312, 3821928, 3825525,
    3829105, 3832667, 3836212, 3839740, 3843250, 3846743, 3850219, 3853679,
    3857122, 3860549, 3863960, 3867354, 3870733, 3874096, 3877443, 3880775,
    3884092, 3887393, 3890679, 3893951, 3897207, 3900449, 3903677, 3906890,
    3910089, 3913274, 3916445, 3919601, 3922745, 3925874, 3928990, 3932093,
    3935182, 3938258, 3941321, 3944371, 3947408, 3950433, 3953445, 3956444,
    3959431, 3962406, 3965368, 3968318, 3971257, 3974183, 3977098, 3980000,
    3982892, 3985771, 3988639, 3991496, 3994342, 3997176, 4000000, 4002812,
    4005613, 4008404, 4011183, 4013952, 4016711, 4019459, 4022197, 4024924,
    4027641, 4030347, 4033044, 4035731, 4038407, 4041074, 4043731, 4046378,
    4049016, 4051643, 4054262, 4056871, 4059470, 4062060, 4064641, 4067213,
    4069775, 4072329, 4074873, 4077409, 4079935, 4082453, 4084962, 4087462,
    4089954, 4092437, 4094912, 4097378, 4099836, 4102285, 4104726, 4107159,
    4109584, 4112000, 4114409, 4116809, 4119202, 4121586, 4123963, 4126332,
    4128693, 4131047, 4133393, 4135731, 4138062, 4140385, 4142701, 4145009,
    4147310, 4149604, 4151890, 4154169, 4156441, 4158706, 4160964, 4163214,
    4165458, 4167695, 4169925, 4172147, 4174364, 4176573, 4178776, 4180971,
    4183161, 4185343, 4187519, 4189689, 4191852, 4194008, 4196158, 4198302,
    4200439, 4202570, 4204695, 4206813, 4208926, 4211032, 4213132, 4215226,
    4217314, 4219395, 4221471, 4223541, 4225605, 4227663, 4229715, 4231762,
    4233802, 4235837, 4237866, 4239890, 4241907, 4243920, 4245926, 4247927,
    4249922, 4251912, 4253897, 4255876, 4257849, 4259818, 4261780, 4263738,
    4265690, 4267637, 4269579, 4271515, 4273447, 4275373, 4277294, 4279210,
    4281121, 4283027, 4284927, 4286823, 4288714, 4290600, 4292481, 4294357,
    4296228, 4298094, 4299956, 4301813, 4303665, 4305512, 4307354, 4309192,
    4311025, 4312854, 4314678, 4316497, 4318312, 4320122, 4321928,
];

/// The combo multiplier in millionths: the logarithm of the combo to base 4,
/// kept between one half and the logarithm of 400. Combos below 2 get one
/// half, combos above 400 the value at 400.
pub open spec fn spec_combo_multiplier(combo: int) -> int {
    let level: int = if combo < 2 {
        2
    } else if combo > 400 {
        400
    } else {
        combo
    };
    LOG4_TABLE[level - 2] as int
}

/// The combo multiplier in millionths.
pub fn combo_multiplier(combo: u32) -> (m: u32)
    ensures
        m == spec_combo_multiplier(combo as int),
        MIN_MULTIPLIER <= m <= MAX_MULTIPLIER,
{
    let level: u32 = if combo < 2 {
        2
    } else if combo > MAX_COMBO_LEVEL {
        MAX_COMBO_LEVEL
    } else {
        combo
    };
    LOG4_TABLE[(level - 2) as usize]
}

/// Every multiplier lies between one half and the logarithm of 400.
#[verifier::rlimit(50)]
pub proof fn lemma_multiplier_bounds(combo: int)
    ensures
        MIN_MULTIPLIER <= spec_combo_multiplier(combo) <= MAX_MULTIPLIER,
{
}

/// Each entry of the table is larger than the one before.
#[verifier::rlimit(50)]
proof fn lemma_table_rises(i: int)
    requires
        0 <= i < 398,
    ensures
        LOG4_TABLE[i] < LOG4_TABLE[i + 1],
{
}

/// A later entry of the table is no smaller than an earlier one.
proof fn lemma_table_ordered(i: int, j: int)
    requires
        0 <= i <= j < 399,
    ensures
        LOG4_TABLE[i] <= LOG4_TABLE[j],
    decreases j - i,
{
    if i < j {
        lemma_table_ordered(i, j - 1);
        lemma_table_rises(j - 1);
    }
}

/// A longer combo never has the smaller multiplier.
pub proof fn lemma_multiplier_monotone(a: int, b: int)
    requires
        a <= b,
    ensures
        spec_combo_multiplier(a) <= spec_combo_multiplier(b),
{
    let level_a: int = if a < 2 {
        2
    } else if a > 400 {
        400
    } else {
        a
    };
    let level_b: int = if b < 2 {
        2
    } else if b > 400 {
        400
    } else {
        b
    };
    lemma_table_ordered(level_a - 2, level_b - 2);
}

/// Whether `value` is the logarithm of `level` to base 4 in millionths,
/// rounded down: `4^value <= level^1000000 < 4^(value + 1)`.
pub open spec fn is_log4_micro(level: int, value: int) -> bool {
    0 <= value && pow(4, value as nat) <= pow(level, 1_000_000) < pow(4, (value + 1) as nat)
}

/// The power `2^k` has the logarithm `k / 2` to base 4.
proof fn lemma_log4_of_power_of_two(k: nat, level: int)
    requires
        level == pow(2, k),
    ensures
        is_log4_micro(level, (k * 500_000) as int),
{
    let value = (k * 500_000) as nat;
    assert(pow(2, 2) == 4) by {
        reveal_with_fuel(pow, 3);
    }
    vstd::arithmetic::power::lemma_pow_multiplies(2, 2, value);
    vstd::arithmetic::power::lemma_pow_multiplies(2, 2, value + 1);
    vstd::arithmetic::power::lemma_pow_multiplies(2, k, 1_000_000);
    assert(2 * value == k * 1_000_000 && 2 * (value + 1) == k * 1_000_000 + 2) by (nonlinear_arith)
        requires
            value == k * 500_000,
    ;
    vstd::arithmetic::power::lemma_pow_strictly_increases(
        2,
        (k * 1_000_000) as nat,
        (2 * (value + 1)) as nat,
    );
}

/// The table is exact at the powers of two: each of their entries is the
/// logarithm to base 4 in millionths.
pub proof fn lemma_table_exact_at_powers_of_two()
    ensures
        is_log4_micro(2, spec_combo_multiplier(2)),
        is_log4_micro(4, spec_combo_multiplier(4)),
        is_log4_micro(8, spec_combo_multiplier(8)),
        is_log4_micro(16, spec_combo_multiplier(16)),
        is_log4_micro(32, spec_combo_multiplier(32)),
        is_log4_micro(64, spec_combo_multiplier(64)),
        is_log4_micro(128, spec_combo_multiplier(128)),
        is_log4_micro(256, spec_combo_multiplier(256)),
{
    lemma_multiplier_powers_of_two();
    reveal_with_fuel(pow, 9);
    lemma_log4_of_power_of_two(1, 2);
    lemma_log4_of_power_of_two(2, 4);
    lemma_log4_of_power_of_two(3, 8);
    lemma_log4_of_power_of_two(4, 16);
    lemma_log4_of_power_of_two(5, 32);
    lemma_log4_of_power_of_two(6, 64);
    lemma_log4_of_power_of_two(7, 128);
    lemma_log4_of_power_of_two(8, 256);
}

/// The powers of two up to 256 have their exact logarithms.
pub proof fn lemma_multiplier_powers_of_two()
    ensures
        spec_combo_multiplier(2) == 500_000,
        spec_combo_multiplier(4) == 1_000_000,
        spec_combo_multiplier(8) == 1_500_000,
        spec_combo_multiplier(16) == 2_000_000,
        spec_combo_multiplier(32) == 2_500_000,
        spec_combo_multiplier(64) == 3_000_000,
        spec_combo_multiplier(128) == 3_500_000,
        spec_combo_multiplier(256) == 4_000_000,
{
}

/// Doubling a combo adds exactly one half to its multiplier.
#[verifier::rlimit(50)]
pub proof fn lemma_multiplier_doubling(combo: int)
    requires
        2 <= combo <= 200,
    ensures
        spec_combo_multiplier(2 * combo) == spec_combo_multiplier(combo) + 500_000,
{
}

/// Whether `curve` millionths are at most the accuracy raised to the power
/// of two plus twice the accuracy. For the accuracy `n / d` that power is
/// `(n / d)^((2 d + 2 n) / d)`, so the question is whether
/// `(curve / 1000000)^d <= (n / d)^(2 d + 2 n)`, written here without
/// fractions.
pub open spec fn curve_at_most(accuracy: Accuracy, curve: int) -> bool {
    let exponent = (2 * accuracy.den + 2 * accuracy.num) as nat;
    pow(curve, accuracy.den as nat) * pow(accuracy.den as int, exponent) <= pow(
        CURVE_UNIT as int,
        accuracy.den as nat,
    ) * pow(accuracy.num as int, exponent)
}

/// Whether `curve` is the value of the accuracy curve in millionths,
/// rounded down: the accuracy raised to the power of two plus twice the
/// accuracy.
pub open spec fn is_accuracy_curve(accuracy: Accuracy, curve: int) -> bool {
    0 <= curve && curve_at_most(accuracy, curve) && !curve_at_most(accuracy, curve + 1)
}

/// A larger base has the larger power.
proof fn lemma_pow_base_increases(a: int, b: int, e: nat)
    requires
        0 <= a < b,
        e > 0,
    ensures
        0 <= pow(a, e) < pow(b, e),
    decreases e,
{
    reveal(pow);
    if e == 1 {
        vstd::arithmetic::power::lemma_pow1(a);
        vstd::arithmetic::power::lemma_pow1(b);
    } else {
        lemma_pow_base_increases(a, b, (e - 1) as nat);
        assert(0 <= a * pow(a, (e - 1) as nat) < b * pow(b, (e - 1) as nat)) by (nonlinear_arith)
            requires
                0 <= a < b,
                0 <= pow(a, (e - 1) as nat) < pow(b, (e - 1) as nat),
        ;
    }
}

/// The curve of the accuracy one is one.
pub proof fn lemma_curve_of_full_accuracy(accuracy: Accuracy)
    requires
        accuracy.num == accuracy.den,
        accuracy.den > 0,
    ensures
        is_accuracy_curve(accuracy, CURVE_UNIT as int),
{
    let d = accuracy.den as nat;
    let exponent = (2 * accuracy.den + 2 * accuracy.num) as nat;
    let k = pow(accuracy.den as int, exponent);
    vstd::arithmetic::power::lemma_pow_positive(accuracy.den as int, exponent);
    lemma_pow_base_increases(CURVE_UNIT as int, CURVE_UNIT + 1, d);
    assert(pow(CURVE_UNIT as int, d) * k < pow(CURVE_UNIT + 1, d) * k) by (nonlinear_arith)
        requires
            pow(CURVE_UNIT as int, d) < pow(CURVE_UNIT + 1, d),
            k > 0,
    ;
}

/// The curve of the accuracy zero is zero.
pub proof fn lemma_curve_of_no_accuracy(accuracy: Accuracy)
    requires
        accuracy.num == 0,
        accuracy.den > 0,
    ensures
        is_accuracy_curve(accuracy, 0),
{
    let d = accuracy.den as nat;
    let exponent = (2 * accuracy.den + 2 * accuracy.num) as nat;
    let k = pow(accuracy.den as int, exponent);
    vstd::arithmetic::power::lemma_pow_positive(accuracy.den as int, exponent);
    vstd::arithmetic::power::lemma0_pow(d);
    vstd::arithmetic::power::lemma0_pow(exponent);
    vstd::arithmetic::power::lemma1_pow(d);
    assert(pow(0, d) * k == 0 && pow(CURVE_UNIT as int, d) * pow(0, exponent) == 0 && pow(1, d) * k
        > 0) by (nonlinear_arith)
        requires
            pow(0, d) == 0,
            pow(0, exponent) == 0,
            pow(1, d) == 1,
            k > 0,
    ;
}

/// Running score state of one play session.
#[derive(Debug, Clone, Copy, PartialEq, Eq, Structural)]
pub struct ScoreState {
    pub combo: u32,
    pub max_combo: u32,
    /// `accuracy_sum` over six times `objects_judged`; one before the first
    /// judgement.
    pub accuracy: Accuracy,
    pub perfect_count: u32,
    pub great_count: u32,
    pub good_count: u32,
    pub ok_count: u32,
    pub meh_count: u32,
    pub miss_count: u32,
    /// Number of judgements the session will hold; 0 while it is not set.
    pub total_objects: u32,
    pub objects_judged: u32,
    /// Sum over the judgements of weight (sixths) times multiplier
    /// (millionths).
    pub combo_score: u64,
    /// Sum over the judgements of six times the multiplier (millionths).
    pub max_combo_score: u64,
    /// Sum over the judgements of the accuracy weight (sixths).
    pub accuracy_sum: u64,
}

impl ScoreState {
    /// The fresh state: nothing judged, accuracy one.
    pub open spec fn spec_default() -> ScoreState {
        ScoreState {
            combo: 0,
            max_combo: 0,
            accuracy: Accuracy { num: 1, den: 1 },
            perfect_count: 0,
            great_count: 0,
            good_count: 0,
            ok_count: 0,
            meh_count: 0,
            miss_count: 0,
            total_objects: 0,
            objects_judged: 0,
            combo_score: 0,
            max_combo_score: 0,
            accuracy_sum: 0,
        }
    }

    /// Sum of the six counters.
    pub open spec fn spec_total_notes(self) -> int {
        self.perfect_count + self.great_count + self.good_count + self.ok_count + self.meh_count
            + self.miss_count
    }

    /// The accuracy that belongs to a weight sum and a number of judgements.
    pub open spec fn accuracy_of(accuracy_sum: int, objects_judged: int) -> Accuracy {
        if objects_judged == 0 {
            Accuracy { num: 1, den: 1 }
        } else {
            Accuracy { num: accuracy_sum as u64, den: (6 * objects_judged) as u64 }
        }
    }

    /// The invariant of the accumulator: counters, sums and accuracy agree.
    pub open spec fn wf(self) -> bool {
        &&& self.spec_total_notes() == self.objects_judged
        &&& self.combo <= self.max_combo
        &&& self.max_combo + self.miss_count <= self.objects_judged
        &&& self.accuracy_sum == 6 * self.perfect_count + 6 * self.great_count + 4
            * self.good_count + 2 * self.ok_count + self.meh_count
        &&& self.combo_score <= self.max_combo_score
        &&& !self.spec_has_imperfect() ==> self.combo_score == self.max_combo_score
        &&& 6 * MIN_MULTIPLIER * self.objects_judged <= self.max_combo_score
        &&& self.max_combo_score <= 6 * MAX_MULTIPLIER * self.objects_judged
        &&& self.accuracy == Self::accuracy_of(
            self.accuracy_sum as int,
            self.objects_judged as int,
        )
    }

    /// Whether one more judgement fits the counters.
    pub open spec fn has_room(self) -> bool {
        self.objects_judged < u32::MAX
    }

    /// The combo after a judgement: 0 after a miss, one more otherwise.
    pub open spec fn combo_after(self, result: HitResult) -> int {
        if result.spec_breaks_combo() {
            0
        } else {
            self.combo + 1
        }
    }

    /// The state after one judgement is folded in.
    pub open spec fn spec_add_judgement(self, result: HitResult) -> ScoreState {
        let combo = self.combo_after(result);
        let multiplier = spec_combo_multiplier(combo);
        let weight = result.spec_accuracy_weight();
        let accuracy_sum = self.accuracy_sum + weight;
        let objects_judged = self.objects_judged + 1;
        ScoreState {
            combo: combo as u32,
            max_combo: if combo > self.max_combo {
                combo as u32
            } else {
                self.max_combo
            },
            accuracy: Self::accuracy_of(accuracy_sum, objects_judged),
            perfect_count: (self.perfect_count + if result == HitResult::Perfect {
                1int
            } else {
                0int
            }) as u32,
            great_count: (self.great_count + if result == HitResult::Great {
                1int
            } else {
                0int
            }) as u32,
            good_count: (self.good_count + if result == HitResult::Good {
                1int
            } else {
                0int
            }) as u32,
            ok_count: (self.ok_count + if result == HitResult::Okay {
                1int
            } else {
                0int
            }) as u32,
            meh_count: (self.meh_count + if result == HitResult::Meh {
                1int
            } else {
                0int
            }) as u32,
            miss_count: (self.miss_count + if result == HitResult::Miss {
                1int
            } else {
                0int
            }) as u32,
            total_objects: self.total_objects,
            objects_judged: objects_judged as u32,
            combo_score: (self.combo_score + result.spec_combo_score_weight() * multiplier) as u64,
            max_combo_score: (self.max_combo_score + 6 * multiplier) as u64,
            accuracy_sum: accuracy_sum as u64,
        }
    }

    /// The state after a combo break that is no judgement.
    pub open spec fn spec_add_combo_break(self) -> ScoreState {
        ScoreState { combo: 0, ..self }
    }

    /// The number of judgements that make a full session: the total that
    /// was set, else what was judged so far.
    pub open spec fn spec_total(self) -> int {
        if self.total_objects > 0 {
            self.total_objects as int
        } else {
            self.objects_judged as int
        }
    }

    /// Whether no more was judged than the session holds.
    pub open spec fn within_total(self) -> bool {
        self.objects_judged <= self.spec_total()
    }

    /// The score for a value `curve` (millionths) of the accuracy curve:
    /// 150000 times the combo progress plus 850000 times the curve times
    /// the accuracy progress, rounded down. The combo progress is
    /// `combo_score / max_combo_score`, or one while that sum is zero; the
    /// accuracy progress is `objects_judged` over the total, or zero while
    /// the total is zero.
    pub open spec fn spec_score(self, curve: int) -> int {
        let total = self.spec_total();
        let (combo_num, combo_den): (int, int) = if self.max_combo_score > 0 {
            (self.combo_score as int, self.max_combo_score as int)
        } else {
            (1, 1)
        };
        let (progress_num, progress_den): (int, int) = if total > 0 {
            (self.objects_judged as int, total)
        } else {
            (0, 1)
        };
        (150_000 * combo_num * (1_000_000 * progress_den) + 850_000 * curve * progress_num
            * combo_den) / (combo_den * (1_000_000 * progress_den))
    }

    /// Whether a judgement worse than Great was counted.
    pub open spec fn spec_has_imperfect(self) -> bool {
        self.good_count + self.ok_count + self.meh_count + self.miss_count > 0
    }

    /// Sets the number of judgements the session will hold.
    pub fn set_total_objects(&mut self, count: u32)
        ensures
            *final(self) == (ScoreState { total_objects: count, ..*old(self) }),
    {
        self.total_objects = count;
    }

    /// Folds one judgement into the state: its counter and the number of
    /// judged objects go up by one, a miss resets the combo and any other
    /// result raises it by one, and the sums grow by the result's weights
    /// at the multiplier of the new combo.
    pub fn add_judgement(&mut self, result: HitResult)
        requires
            old(self).wf(),
            old(self).has_room(),
        ensures
            *final(self) == old(self).spec_add_judgement(result),
            final(self).wf(),
            result == HitResult::Miss ==> final(self).combo == 0,
            result != HitResult::Miss ==> final(self).combo == old(self).combo + 1,
            final(self).objects_judged == old(self).objects_judged + 1,
            final(self).max_combo >= old(self).max_combo,
    {
        match result {
            HitResult::Perfect => {
                self.perfect_count = self.perfect_count + 1;
            },
            HitResult::Great => {
                self.great_count = self.great_count + 1;
            },
            HitResult::Good => {
                self.good_count = self.good_count + 1;
            },
            HitResult::Okay => {
                self.ok_count = self.ok_count + 1;
            },
            HitResult::Meh => {
                self.meh_count = self.meh_count + 1;
            },
            HitResult::Miss => {
                self.miss_count = self.miss_count + 1;
            },
        }
        self.objects_judged = self.objects_judged + 1;

        if result.breaks_combo() {
            self.combo = 0;
        } else {
            self.combo = self.combo + 1;
            if self.combo > self.max_combo {
                self.max_combo = self.combo;
            }
        }

        let multiplier: u64 = combo_multiplier(self.combo) as u64;
        let weight: u64 = result.combo_score_weight() as u64;
        assert(weight * multiplier <= 6 * multiplier) by (nonlinear_arith)
            requires
                weight <= 6,
                multiplier >= 0,
        ;
        self.combo_score = self.combo_score + weight * multiplier;
        self.max_combo_score = self.max_combo_score + 6 * multiplier;

        self.accuracy_sum = self.accuracy_sum + result.accuracy_weight() as u64;
        self.accuracy = Accuracy { num: self.accuracy_sum, den: 6 * (self.objects_judged as u64) };
    }

    /// Resets the combo without counting a judgement: no counter, no sum
    /// and no accuracy changes.
    pub fn add_combo_break(&mut self)
        ensures
            *final(self) == old(self).spec_add_combo_break(),
            final(self).combo == 0,
            old(self).wf() ==> final(self).wf(),
    {
        self.combo = 0;
    }

    /// The value of the accuracy curve where no real power is needed for
    /// it: one at the accuracy one, zero at the accuracy zero.
    pub fn known_accuracy_curve(&self) -> (curve: Option<u32>)
        requires
            self.wf(),
        ensures
            curve is Some <==> (self.accuracy.num == self.accuracy.den || self.accuracy.num == 0),
            curve matches Some(c) ==> is_accuracy_curve(self.accuracy, c as int) && c
                <= CURVE_UNIT,
    {
        if self.accuracy.num == self.accuracy.den {
            proof {
                lemma_curve_of_full_accuracy(self.accuracy);
            }
            Some(CURVE_UNIT)
        } else if self.accuracy.num == 0 {
            proof {
                lemma_curve_of_no_accuracy(self.accuracy);
            }
            Some(0)
        } else {
            None
        }
    }

    /// The score for the value `curve` of the accuracy curve in
    /// millionths, from 0 to 1000000 while no more was judged than the
    /// session holds. The score of the state is the one for the curve of
    /// its accuracy, the value that `is_accuracy_curve` names.
    pub fn score(&self, curve: u32) -> (s: i64)
        requires
            self.wf(),
            curve <= CURVE_UNIT,
        ensures
            s == self.spec_score(curve as int),
            0 <= s,
            self.within_total() ==> s <= MAX_SCORE,
    {
        let total: u32 = if self.total_objects > 0 {
            self.total_objects
        } else {
            self.objects_judged
        };
        let (combo_num, combo_den): (u128, u128) = if self.max_combo_score > 0 {
            (self.combo_score as u128, self.max_combo_score as u128)
        } else {
            (1, 1)
        };
        let (progress_num, progress_den): (u128, u128) = if total > 0 {
            (self.objects_judged as u128, total as u128)
        } else {
            (0, 1)
        };
        let c: u128 = curve as u128;
        proof {
            lemma_score_terms(
                combo_num as int,
                combo_den as int,
                progress_num as int,
                progress_den as int,
                c as int,
            );
            lemma_score_bounds(*self, curve as int);
        }
        let left: u128 = 15 * combo_num * (1_000_000 * progress_den);
        let right: u128 = 85 * c * progress_num * combo_den;
        let den: u128 = combo_den * (100 * progress_den);
        let s: u128 = (left + right) / den;
        s as i64
    }

    /// Sum of the six counters.
    pub fn total_notes(&self) -> (n: u32)
        requires
            self.wf(),
        ensures
            n == self.spec_total_notes(),
            n == self.objects_judged,
    {
        self.perfect_count + self.great_count + self.good_count + self.ok_count + self.meh_count
            + self.miss_count
    }

    /// Whether a judgement worse than Great was counted.
    pub fn has_imperfect(&self) -> (b: bool)
        ensures
            b == self.spec_has_imperfect(),
    {
        self.good_count > 0 || self.ok_count > 0 || self.meh_count > 0 || self.miss_count > 0
    }

    /// The rank of the accuracy reached so far.
    pub fn rank(&self) -> (rank: ScoreRank)
        ensures
            rank == ScoreRank::spec_from_accuracy(self.accuracy, self.spec_has_imperfect()),
    {
        ScoreRank::from_accuracy(self.accuracy, self.has_imperfect())
    }
}

impl Default for ScoreState {
    fn default() -> (state: Self)
        ensures
            state == ScoreState::spec_default(),
            state.wf(),
    {
        ScoreState {
            combo: 0,
            max_combo: 0,
            accuracy: Accuracy { num: 1, den: 1 },
            perfect_count: 0,
            great_count: 0,
            good_count: 0,
            ok_count: 0,
            meh_count: 0,
            miss_count: 0,
            total_objects: 0,
            objects_judged: 0,
            combo_score: 0,
            max_combo_score: 0,
            accuracy_sum: 0,
        }
    }
}

/// Folding a judgement into a consistent score with room leaves it
/// consistent.
pub proof fn lemma_add_judgement_keeps_wf(score: ScoreState, result: HitResult)
    requires
        score.wf(),
        score.has_room(),
    ensures
        score.spec_add_judgement(result).wf(),
        score.spec_add_judgement(result).objects_judged == score.objects_judged + 1,
{
    lemma_multiplier_bounds(score.combo_after(result));
    let m = spec_combo_multiplier(score.combo_after(result));
    let w = result.spec_combo_score_weight();
    assert(0 <= w * m <= 6 * m) by (nonlinear_arith)
        requires
            0 <= w <= 6,
            0 <= m,
    ;
}

/// The terms of the score fit 128 bits, and the score computed with the
/// common factor 10000 taken out is the score.
proof fn lemma_score_terms(
    combo_num: int,
    combo_den: int,
    progress_num: int,
    progress_den: int,
    curve: int,
)
    requires
        0 <= combo_num <= combo_den,
        0 < combo_den <= 0xffff_ffff_ffff_ffff,
        0 <= progress_num <= 0xffff_ffff,
        0 < progress_den <= 0xffff_ffff,
        0 <= curve <= 1_000_000,
    ensures
        0 <= 15 * combo_num * (1_000_000 * progress_den)
            <= 0x100_0000_0000_0000_0000_0000_0000_0000,
        0 <= 85 * curve * progress_num <= 0x1_0000_0000_0000_0000,
        0 <= 85 * curve * progress_num * combo_den <= 0x800_0000_0000_0000_0000_0000_0000_0000,
        0 < combo_den * (100 * progress_den) <= 0x800_0000_0000_0000_0000_0000_0000,
        (15 * combo_num * (1_000_000 * progress_den) + 85 * curve * progress_num * combo_den) / (
        combo_den * (100 * progress_den)) == (150_000 * combo_num * (1_000_000 * progress_den) + 850_000
            * curve * progress_num * combo_den) / (combo_den * (1_000_000 * progress_den)),
        0 <= (15 * combo_num * (1_000_000 * progress_den) + 85 * curve * progress_num * combo_den)
            / (combo_den * (100 * progress_den)) <= 150_000 + 850_000 * progress_num,
{
    let x = combo_num * progress_den;
    let w = curve * progress_num;
    let y = w * combo_den;
    let z = combo_den * progress_den;
    assert(15 * combo_num * (1_000_000 * progress_den) == 15_000_000 * x) by (nonlinear_arith)
        requires
            x == combo_num * progress_den,
    ;
    assert(150_000 * combo_num * (1_000_000 * progress_den) == 150_000_000_000 * x)
        by (nonlinear_arith)
        requires
            x == combo_num * progress_den,
    ;
    assert(85 * curve * progress_num == 85 * w) by (nonlinear_arith)
        requires
            w == curve * progress_num,
    ;
    assert(85 * curve * progress_num * combo_den == 85 * y) by (nonlinear_arith)
        requires
            y == w * combo_den,
            85 * curve * progress_num == 85 * w,
    ;
    assert(850_000 * curve * progress_num * combo_den == 850_000 * y) by (nonlinear_arith)
        requires
            y == w * combo_den,
            w == curve * progress_num,
    ;
    assert(combo_den * (100 * progress_den) == 100 * z) by (nonlinear_arith)
        requires
            z == combo_den * progress_den,
    ;
    assert(combo_den * (1_000_000 * progress_den) == 1_000_000 * z) by (nonlinear_arith)
        requires
            z == combo_den * progress_den,
    ;
    vstd::arithmetic::mul::lemma_mul_nonnegative(combo_num, progress_den);
    vstd::arithmetic::mul::lemma_mul_inequality(combo_num, combo_den, progress_den);
    vstd::arithmetic::mul::lemma_mul_strictly_positive(combo_den, progress_den);
    vstd::arithmetic::mul::lemma_mul_upper_bound(
        combo_den,
        0xffff_ffff_ffff_ffff,
        progress_den,
        0xffff_ffff,
    );
    assert(0 <= x <= z && 0 < z <= 0xffff_ffff_ffff_ffff * 0xffff_ffff);
    assert(0 <= w <= 1_000_000 * 0xffff_ffff && w <= 1_000_000 * progress_num)
        by (nonlinear_arith)
        requires
            w == curve * progress_num,
            0 <= curve <= 1_000_000,
            0 <= progress_num <= 0xffff_ffff,
    ;
    assert(0 <= y <= 1_000_000 * 0xffff_ffff * 0xffff_ffff_ffff_ffff && y <= 1_000_000
        * progress_num * z) by (nonlinear_arith)
        requires
            y == w * combo_den,
            z == combo_den * progress_den,
            0 <= w <= 1_000_000 * 0xffff_ffff,
            w <= 1_000_000 * progress_num,
            0 <= progress_num,
            0 < combo_den <= 0xffff_ffff_ffff_ffff,
            1 <= progress_den,
    ;
    let n = 15_000_000 * x + 85 * y;
    let d = 100 * z;
    vstd::arithmetic::div_mod::lemma_div_multiples_vanish_quotient(10_000, n, d);
    assert(10_000 * n == 150_000_000_000 * x + 850_000 * y);
    assert(10_000 * d == 1_000_000 * z);
    let top = 150_000 + 850_000 * progress_num;
    assert(n <= top * d) by (nonlinear_arith)
        requires
            n == 15_000_000 * x + 85 * y,
            d == 100 * z,
            top == 150_000 + 850_000 * progress_num,
            0 <= x <= z,
            y <= 1_000_000 * progress_num * z,
            0 <= progress_num,
    ;
    vstd::arithmetic::div_mod::lemma_div_is_ordered(n, top * d, d);
    vstd::arithmetic::div_mod::lemma_div_multiples_vanish(top, d);
    vstd::arithmetic::div_mod::lemma_div_pos_is_pos(n, d);
}

/// The score is never negative, and it is at most 1000000 while no more
/// was judged than the session holds and the curve is at most one.
pub proof fn lemma_score_bounds(state: ScoreState, curve: int)
    requires
        state.wf(),
        0 <= curve <= CURVE_UNIT,
    ensures
        0 <= state.spec_score(curve),
        state.within_total() ==> state.spec_score(curve) <= MAX_SCORE,
{
    let total = state.spec_total();
    let (cn, cd): (int, int) = if state.max_combo_score > 0 {
        (state.combo_score as int, state.max_combo_score as int)
    } else {
        (1, 1)
    };
    let (pn, pd): (int, int) = if total > 0 {
        (state.objects_judged as int, total)
    } else {
        (0, 1)
    };
    let n = 150_000 * cn * (1_000_000 * pd) + 850_000 * curve * pn * cd;
    let d = cd * (1_000_000 * pd);
    assert(0 <= n && 0 < d) by (nonlinear_arith)
        requires
            n == 150_000 * cn * (1_000_000 * pd) + 850_000 * curve * pn * cd,
            d == cd * (1_000_000 * pd),
            0 <= cn,
            0 < cd,
            0 <= pn,
            0 < pd,
            0 <= curve,
    ;
    vstd::arithmetic::div_mod::lemma_div_pos_is_pos(n, d);
    if state.within_total() {
        assert(n <= 1_000_000 * d) by (nonlinear_arith)
            requires
                n == 150_000 * cn * (1_000_000 * pd) + 850_000 * curve * pn * cd,
                d == cd * (1_000_000 * pd),
                0 <= cn <= cd,
                0 <= pn <= pd,
                0 <= curve <= 1_000_000,
        ;
        vstd::arithmetic::div_mod::lemma_div_is_ordered(n, 1_000_000 * d, d);
        vstd::arithmetic::div_mod::lemma_div_multiples_vanish(1_000_000, d);
    }
}

/// The largest score: a state in which every judgement is Perfect or
/// Great and everything is judged has the accuracy curve one and the
/// score 1000000.
pub proof fn lemma_full_score(state: ScoreState)
    requires
        state.wf(),
        !state.spec_has_imperfect(),
        state.objects_judged > 0,
        state.objects_judged == state.spec_total(),
    ensures
        is_accuracy_curve(state.accuracy, CURVE_UNIT as int),
        state.spec_score(CURVE_UNIT as int) == MAX_SCORE,
{
    lemma_curve_of_full_accuracy(state.accuracy);
    let c = state.max_combo_score as int;
    let p = state.objects_judged as int;
    let d = c * (1_000_000 * p);
    assert(150_000 * c * (1_000_000 * p) + 850_000 * 1_000_000 * p * c == 1_000_000 * d && d > 0)
        by (nonlinear_arith)
        requires
            d == c * (1_000_000 * p),
            c > 0,
            p > 0,
    ;
    vstd::arithmetic::div_mod::lemma_div_multiples_vanish(1_000_000, d);
}

/// The quotient of the score never falls as the curve rises.
proof fn lemma_score_is_monotone(
    combo_num: int,
    combo_den: int,
    progress_num: int,
    progress_den: int,
    lower: int,
    higher: int,
)
    requires
        0 < combo_den,
        0 <= progress_num,
        0 < progress_den,
        0 <= lower <= higher,
    ensures
        (150_000 * combo_num * (1_000_000 * progress_den) + 850_000 * lower * progress_num
            * combo_den) / (combo_den * (1_000_000 * progress_den)) <= (150_000 * combo_num * (
        1_000_000 * progress_den) + 850_000 * higher * progress_num * combo_den) / (combo_den * (
        1_000_000 * progress_den)),
{
    let base = 150_000 * combo_num * (1_000_000 * progress_den);
    let d = combo_den * (1_000_000 * progress_den);
    assert(base + 850_000 * lower * progress_num * combo_den <= base + 850_000 * higher
        * progress_num * combo_den && 0 < d) by (nonlinear_arith)
        requires
            d == combo_den * (1_000_000 * progress_den),
            0 < combo_den,
            0 <= progress_num,
            0 < progress_den,
            0 <= lower <= higher,
    ;
    vstd::arithmetic::div_mod::lemma_div_is_ordered(
        base + 850_000 * lower * progress_num * combo_den,
        base + 850_000 * higher * progress_num * combo_den,
        d,
    );
}

/// The score never falls as the accuracy rises with the combo held fixed:
/// of two states with the same combo sums, the same number of judged
/// objects and the same total, the one with the larger value of the
/// accuracy curve has the larger or the same score.
pub proof fn lemma_score_monotone(first: ScoreState, second: ScoreState, lower: int, higher: int)
    requires
        first.wf(),
        second.wf(),
        first.combo_score == second.combo_score,
        first.max_combo_score == second.max_combo_score,
        first.objects_judged == second.objects_judged,
        first.total_objects == second.total_objects,
        0 <= lower <= higher,
    ensures
        first.spec_score(lower) <= second.spec_score(higher),
{
    let total = first.spec_total();
    let (cn, cd): (int, int) = if first.max_combo_score > 0 {
        (first.combo_score as int, first.max_combo_score as int)
    } else {
        (1, 1)
    };
    let (pn, pd): (int, int) = if total > 0 {
        (first.objects_judged as int, total)
    } else {
        (0, 1)
    };
    lemma_score_is_monotone(cn, cd, pn, pd, lower, higher);
}

} // verus!
