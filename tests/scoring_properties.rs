use matching_engine::scoring::{
    aggregate_orders, score_order, OrderScoreInput, ScoredOrderResult, ScoringAction, MAX_BPS,
};

fn input(rate_bps: u64, total_bps: u64, filled_bps: u64) -> OrderScoreInput {
    OrderScoreInput { rate_bps, total_bps, filled_bps }
}

fn scored(index: usize, score: u64, available_bps: u64) -> ScoredOrderResult {
    ScoredOrderResult { index, score, available_bps }
}

#[test]
fn borrow_scores_exact_values() {
    assert_eq!(score_order(&input(500, 10_000, 0), &ScoringAction::Borrow, 5_000), 9_600);
    assert_eq!(score_order(&input(800, 10_000, 0), &ScoringAction::Borrow, 5_000), 9_360);
}

#[test]
fn lend_scores_exact_values() {
    assert_eq!(score_order(&input(500, 10_000, 0), &ScoringAction::Lend, 5_000), 2_400);
    assert_eq!(score_order(&input(800, 10_000, 0), &ScoringAction::Lend, 5_000), 2_640);
}

#[test]
fn partial_coverage_scores_proportionally() {
    // fill fit = 2_500 * 10_000 / 10_000 = 2_500; (9_500 * 8 + 2_500 * 2) / 10
    assert_eq!(score_order(&input(500, 2_500, 0), &ScoringAction::Borrow, 10_000), 8_100);
    // fill fit = 3_333 * 10_000 / 10_000 rounds toward zero
    assert_eq!(score_order(&input(0, 3_333, 0), &ScoringAction::Borrow, 10_000), 8_666);
}

#[test]
fn fully_filled_max_rate_scores_zero_for_both_actions() {
    let order = input(MAX_BPS, 10_000, 10_000);
    assert_eq!(score_order(&order, &ScoringAction::Borrow, 5_000), 0);
    assert_eq!(score_order(&order, &ScoringAction::Lend, 5_000), 0);
}

#[test]
fn overfilled_order_has_nothing_available() {
    assert_eq!(score_order(&input(500, 1_000, 5_000), &ScoringAction::Lend, 5_000), 0);
}

#[test]
fn zero_intent_scores_zero_for_lend() {
    assert_eq!(score_order(&input(9_000, 10_000, 0), &ScoringAction::Lend, 0), 0);
}

#[test]
fn adjacent_rates_can_tie() {
    let a = score_order(&input(504, 10_000, 0), &ScoringAction::Borrow, 5_000);
    let b = score_order(&input(505, 10_000, 0), &ScoringAction::Borrow, 5_000);
    assert_eq!(a, 9_596);
    assert_eq!(a, b);
    let c = score_order(&input(506, 10_000, 0), &ScoringAction::Borrow, 5_000);
    assert!(a > c);
}

#[test]
fn lend_rate_above_max_exceeds_scale() {
    // (20_000 * 8 + 10_000 * 2) / 10
    assert_eq!(score_order(&input(20_000, 10_000, 0), &ScoringAction::Lend, 5_000), 18_000);
}

#[test]
fn huge_lend_rate_saturates() {
    let s = score_order(&input(u64::MAX, 10_000, 0), &ScoringAction::Lend, 5_000);
    assert_eq!(s, u64::MAX / 10);
}

#[test]
fn huge_available_saturates_fill_fit() {
    // full coverage: rate component 0, fill fit 10_000
    let s = score_order(&input(MAX_BPS, u64::MAX, 0), &ScoringAction::Borrow, u64::MAX);
    assert_eq!(s, 2_000);
    // fill fit = (u64::MAX, saturated) / u64::MAX = 1
    let s = score_order(&input(0, u64::MAX - 1, 0), &ScoringAction::Borrow, u64::MAX);
    assert_eq!(s, 8_000);
}

#[test]
fn aggregate_three_needed_sorted_descending() {
    let result = aggregate_orders(
        vec![scored(0, 9_000, 3_000), scored(1, 7_000, 3_000), scored(2, 8_000, 3_000)],
        8_000,
    );
    let scores: Vec<u64> = result.iter().map(|r| r.score).collect();
    assert_eq!(scores, vec![9_000, 8_000, 7_000]);
    let indexes: Vec<usize> = result.iter().map(|r| r.index).collect();
    assert_eq!(indexes, vec![0, 2, 1]);
}

#[test]
fn aggregate_stops_after_first_covering() {
    let result = aggregate_orders(
        vec![scored(0, 9_000, 5_000), scored(1, 8_000, 5_000), scored(2, 7_000, 5_000)],
        5_000,
    );
    assert_eq!(result, vec![scored(0, 9_000, 5_000)]);
}

#[test]
fn aggregate_ties_keep_input_order() {
    let result = aggregate_orders(
        vec![scored(0, 5_000, 100), scored(1, 6_000, 100), scored(2, 5_000, 100), scored(3, 5_000, 100)],
        10_000,
    );
    let indexes: Vec<usize> = result.iter().map(|r| r.index).collect();
    assert_eq!(indexes, vec![1, 0, 2, 3]);
}

#[test]
fn aggregate_includes_crossing_candidate_whole() {
    let result = aggregate_orders(vec![scored(0, 9_000, 3_000), scored(1, 8_000, 9_000)], 4_000);
    assert_eq!(result, vec![scored(0, 9_000, 3_000), scored(1, 8_000, 9_000)]);
}

#[test]
fn aggregate_best_effort_returns_all_sorted() {
    let result = aggregate_orders(
        vec![scored(0, 1_000, 10), scored(1, 3_000, 10), scored(2, 2_000, 10)],
        1_000,
    );
    let indexes: Vec<usize> = result.iter().map(|r| r.index).collect();
    assert_eq!(indexes, vec![1, 2, 0]);
}

#[test]
fn aggregate_saturating_total_still_stops() {
    let result = aggregate_orders(
        vec![scored(0, 9, u64::MAX), scored(1, 8, u64::MAX), scored(2, 7, 1)],
        u64::MAX,
    );
    assert_eq!(result.len(), 1);
}
