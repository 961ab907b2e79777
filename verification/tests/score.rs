use zuchsya::judgement::score::{
    combo_multiplier, ScoreState, CURVE_UNIT, LOG4_TABLE, MAX_MULTIPLIER, MIN_MULTIPLIER,
};
use zuchsya::scoring::{Accuracy, HitResult, ScoreRank};

fn judged(results: &[HitResult]) -> ScoreState {
    let mut state = ScoreState::default();
    for result in results {
        state.add_judgement(*result);
    }
    state
}

/// The accuracy curve as a caller computes it: the accuracy to the power
/// of two plus twice the accuracy, in millionths, rounded down.
fn curve_of(state: &ScoreState) -> u32 {
    if let Some(curve) = state.known_accuracy_curve() {
        return curve;
    }
    let a = state.accuracy.num as f64 / state.accuracy.den as f64;
    let value = (a.powf(2.0 + 2.0 * a) * 1e6).floor();
    if value >= 1e6 {
        CURVE_UNIT
    } else {
        value as u32
    }
}

use HitResult::{Good, Great, Meh, Miss, Okay, Perfect};

#[test]
fn fresh_state() {
    let state = ScoreState::default();
    assert_eq!(state.combo, 0);
    assert_eq!(state.max_combo, 0);
    assert_eq!(state.accuracy, Accuracy { num: 1, den: 1 });
    assert_eq!(state.total_notes(), 0);
    assert_eq!(state.objects_judged, 0);
    assert_eq!(state.total_objects, 0);
    assert_eq!(state.combo_score, 0);
    assert_eq!(state.max_combo_score, 0);
    assert_eq!(state.accuracy_sum, 0);
    assert!(!state.has_imperfect());
    assert_eq!(state.rank(), ScoreRank::X);
}

#[test]
fn fresh_state_scores_the_combo_portion() {
    // Nothing judged: the combo progress counts as one, the accuracy
    // progress as zero.
    let state = ScoreState::default();
    assert_eq!(state.score(CURVE_UNIT), 150_000);
    assert_eq!(state.score(0), 150_000);
    let mut with_total = ScoreState::default();
    with_total.set_total_objects(10);
    assert_eq!(with_total.score(CURVE_UNIT), 150_000);
}

#[test]
fn miss_resets_combo_and_others_add_one() {
    let mut state = ScoreState::default();
    let mut expected = 0;
    for result in [Perfect, Great, Good, Okay, Meh, Miss, Meh, Miss, Miss, Perfect, Perfect] {
        state.add_judgement(result);
        expected = if result == Miss { 0 } else { expected + 1 };
        assert_eq!(state.combo, expected);
    }
    assert_eq!(state.combo, 2);
    assert_eq!(state.max_combo, 5);
}

#[test]
fn counters_follow_the_results() {
    let state = judged(&[Perfect, Perfect, Great, Good, Good, Good, Okay, Meh, Miss, Miss]);
    assert_eq!(state.perfect_count, 2);
    assert_eq!(state.great_count, 1);
    assert_eq!(state.good_count, 3);
    assert_eq!(state.ok_count, 1);
    assert_eq!(state.meh_count, 1);
    assert_eq!(state.miss_count, 2);
    assert_eq!(state.total_notes(), 10);
    assert_eq!(state.objects_judged, 10);
    assert!(state.has_imperfect());
    assert!(!judged(&[Perfect, Great]).has_imperfect());
}

#[test]
fn accuracy_is_the_mean_weight() {
    let state = judged(&[Perfect, Good]);
    assert_eq!(state.accuracy_sum, 10);
    assert_eq!(state.accuracy, Accuracy { num: 10, den: 12 });
    let state = judged(&[Good, Okay, Meh]);
    assert_eq!(state.accuracy, Accuracy { num: 7, den: 18 });
    let state = judged(&[Miss]);
    assert_eq!(state.accuracy, Accuracy { num: 0, den: 6 });
    assert_eq!(state.rank(), ScoreRank::D);
    assert_eq!(judged(&[Perfect, Great, Great]).rank(), ScoreRank::X);
}

#[test]
fn combo_sums_use_the_multiplier_of_the_new_combo() {
    // Combos after each judgement: 1, 2, 3, 0.
    let state = judged(&[Perfect, Perfect, Good, Miss]);
    assert_eq!(state.combo_score, 6 * 500_000 + 6 * 500_000 + 4 * 792_481);
    assert_eq!(state.max_combo_score, 6 * (500_000 + 500_000 + 792_481 + 500_000));
    assert_eq!(state.combo_score, 9_169_924);
    assert_eq!(state.max_combo_score, 13_754_886);
    let state = judged(&[Perfect; 10]);
    assert_eq!(state.combo_score, 68_373_174);
    assert_eq!(state.max_combo_score, 68_373_174);
}

#[test]
fn combo_break_touches_only_the_combo() {
    let mut state = judged(&[Perfect, Great, Good]);
    let before = state;
    state.add_combo_break();
    assert_eq!(state.combo, 0);
    assert_eq!(state.max_combo, 3);
    assert_eq!(state, ScoreState { combo: 0, ..before });
    assert_eq!(state.miss_count, 0);
    assert_eq!(state.objects_judged, 3);
    assert_eq!(state.accuracy, before.accuracy);
    // The next judgement starts a new combo.
    state.add_judgement(Perfect);
    assert_eq!(state.combo, 1);
    assert_eq!(state.max_combo, 3);
}

#[test]
fn score_values() {
    let state = judged(&[Perfect, Perfect, Good, Miss]);
    // (2 / 3)^(10 / 3) = 0.2588386...
    assert_eq!(curve_of(&state), 258_838);
    assert_eq!(state.score(258_838), 320_012);
    assert_eq!(state.score(500_000), 525_000);
    assert_eq!(state.score(0), 100_000);

    let state = judged(&[Good, Okay, Meh]);
    assert_eq!(curve_of(&state), 72_548);
    assert_eq!(state.score(72_548), 114_560);

    let state = judged(&[Miss]);
    assert_eq!(curve_of(&state), 0);
    assert_eq!(state.score(0), 0);

    let state = judged(&[Perfect, Miss, Perfect]);
    assert_eq!(state.score(258_838), 320_012);
}

#[test]
fn all_perfect_is_a_million() {
    for n in [1usize, 4, 10, 400, 1000] {
        let state = judged(&vec![Perfect; n]);
        assert_eq!(curve_of(&state), CURVE_UNIT);
        assert_eq!(state.score(CURVE_UNIT), 1_000_000);
    }
    let state = judged(&[Great, Perfect, Great]);
    assert_eq!(state.score(CURVE_UNIT), 1_000_000);
}

#[test]
fn score_counts_progress_through_the_session() {
    let mut state = judged(&[Perfect; 4]);
    state.set_total_objects(8);
    assert_eq!(state.total_objects, 8);
    assert_eq!(state.score(CURVE_UNIT), 575_000);
    assert_eq!(state.score(500_000), 362_500);

    let mut state = judged(&[Perfect, Perfect, Good, Miss, Perfect]);
    state.set_total_objects(10);
    assert_eq!(curve_of(&state), 341_228);
    assert_eq!(state.score(341_228), 253_974);
}

#[test]
fn score_stays_in_range_and_grows_with_the_curve() {
    let sequences: [&[HitResult]; 5] = [
        &[Perfect, Miss, Good, Good, Meh, Great],
        &[Miss, Miss, Miss],
        &[Okay],
        &[Perfect, Great, Perfect, Perfect],
        &[Meh, Meh, Miss, Perfect, Okay, Good, Good, Miss],
    ];
    for sequence in sequences {
        for total in [0u32, sequence.len() as u32, 100] {
            let mut state = judged(sequence);
            state.set_total_objects(total);
            let mut last = -1;
            let mut curve = 0;
            while curve <= CURVE_UNIT {
                let score = state.score(curve);
                assert!((0..=1_000_000).contains(&score));
                assert!(score >= last);
                last = score;
                curve += 12_500;
            }
        }
    }
}

#[test]
fn multiplier_is_the_clamped_logarithm() {
    assert_eq!(combo_multiplier(0), 500_000);
    assert_eq!(combo_multiplier(1), 500_000);
    assert_eq!(combo_multiplier(2), 500_000);
    assert_eq!(combo_multiplier(3), 792_481);
    assert_eq!(combo_multiplier(4), 1_000_000);
    assert_eq!(combo_multiplier(16), 2_000_000);
    assert_eq!(combo_multiplier(100), 3_321_928);
    assert_eq!(combo_multiplier(400), MAX_MULTIPLIER);
    assert_eq!(combo_multiplier(401), MAX_MULTIPLIER);
    assert_eq!(combo_multiplier(u32::MAX), MAX_MULTIPLIER);
    assert_eq!(MIN_MULTIPLIER, 500_000);
    assert_eq!(MAX_MULTIPLIER, 4_321_928);
}

#[test]
fn table_holds_logarithms_to_base_four() {
    assert_eq!(LOG4_TABLE.len(), 399);
    for combo in 2u32..=400 {
        let exact = (combo as f64).ln() / 4f64.ln() * 1e6;
        let entry = LOG4_TABLE[(combo - 2) as usize] as f64;
        assert!(entry <= exact + 1e-6, "combo {}", combo);
        assert!(exact - entry < 1.0 + 1e-6, "combo {}", combo);
        assert_eq!(combo_multiplier(combo), LOG4_TABLE[(combo - 2) as usize]);
    }
    for combo in 2u32..400 {
        assert!(combo_multiplier(combo) < combo_multiplier(combo + 1));
    }
    for combo in 2u32..=200 {
        assert_eq!(combo_multiplier(2 * combo), combo_multiplier(combo) + 500_000);
    }
}

#[test]
fn curve_is_known_at_the_ends() {
    assert_eq!(ScoreState::default().known_accuracy_curve(), Some(CURVE_UNIT));
    assert_eq!(judged(&[Perfect, Great, Perfect]).known_accuracy_curve(), Some(CURVE_UNIT));
    assert_eq!(judged(&[Miss]).known_accuracy_curve(), Some(0));
    assert_eq!(judged(&[Miss, Miss, Miss]).known_accuracy_curve(), Some(0));
    assert_eq!(judged(&[Perfect, Miss]).known_accuracy_curve(), None);
    assert_eq!(judged(&[Meh]).known_accuracy_curve(), None);
    assert_eq!(judged(&[Good, Good]).known_accuracy_curve(), None);
}

#[test]
fn full_run_scores_a_million() {
    let mut state = judged(&[Perfect, Great, Great, Perfect, Perfect]);
    state.set_total_objects(5);
    let curve = state.known_accuracy_curve().unwrap();
    assert_eq!(state.score(curve), 1_000_000);
    assert_eq!(state.rank(), ScoreRank::X);
}
