use database_test::entity::recommendation::{Recommendation, RecommendationScore};
use database_test::query::recommendation::{
    ComplexRange, ComplexRangeInput, QueryInput, RangeFormat, RecommendationQuery, SimpleRange,
    SimpleRangeInput,
};

fn rec(date: u32, up: u32, down: u32) -> Recommendation {
    Recommendation { date, up, down }
}

fn range(min: i32, max: i32) -> SimpleRangeInput {
    SimpleRangeInput { min, max }
}

fn count(min: i32, max: i32) -> ComplexRangeInput {
    ComplexRangeInput { format: RangeFormat::Count, range: range(min, max) }
}

fn pct(baseline: u32, min: i32, max: i32) -> ComplexRangeInput {
    ComplexRangeInput { format: RangeFormat::Pct { baseline }, range: range(min, max) }
}

fn query(inputs: Vec<QueryInput>) -> RecommendationQuery {
    let mut q = RecommendationQuery::new();
    q.build(inputs);
    q
}

fn two_days() -> Vec<Recommendation> {
    vec![rec(1, 10, 0), rec(2, 0, 10)]
}

#[test]
fn positive_max_sets_no_upper_bound() {
    let r = range(5, 20);
    assert!(r.verify_u32(10));
    assert!(r.verify_u32(20));
    assert!(r.verify_u32(25));
    assert!(r.verify_u32(u32::MAX));
    assert!(!r.verify_u32(4));
    assert!(r.verify_u32(5));
}

#[test]
fn zero_max_is_an_upper_bound() {
    let r = range(0, 0);
    assert!(r.verify_u32(0));
    assert!(!r.verify_u32(1));
}

#[test]
fn negative_max_admits_no_magnitude() {
    let r = range(-5, -1);
    assert!(!r.verify_u32(0));
    assert!(!r.verify_u32(1));
}

#[test]
fn negative_min_sets_no_lower_bound() {
    let r = range(-1, 1);
    assert!(r.verify_u32(0));
    assert!(r.verify_u32(7));
    let r = range(i32::MIN, 0);
    assert!(r.verify_u32(0));
    assert!(!r.verify_u32(1));
}

#[test]
fn signed_range_is_inclusive_on_both_sides() {
    let r = range(-3, 4);
    assert!(r.verify_i32(-3));
    assert!(r.verify_i32(4));
    assert!(r.verify_i32(0));
    assert!(!r.verify_i32(-4));
    assert!(!r.verify_i32(5));
    assert!(!range(1, 0).verify_i32(0));
}

#[test]
fn unset_ranges_accept_everything() {
    let simple = SimpleRange::none();
    assert!(simple.is_none());
    assert!(simple.verify_u32(0));
    assert!(simple.verify_u32(u32::MAX));
    assert!(simple.holds_date(0));
    let complex = ComplexRange::none();
    assert!(complex.is_none());
    assert!(complex.verify_u32(5, 0));
    assert!(complex.verify_i32(-5, 3));
}

#[test]
fn count_compares_the_raw_number() {
    assert!(count(5, 20).verify_u32(10, 20));
    assert!(!count(11, 20).verify_u32(10, 20));
    assert!(count(-5, 5).verify_i32(-5, 20));
    assert!(!count(-5, 5).verify_i32(6, 20));
}

#[test]
fn percentage_rounds_the_share_up() {
    // ceil(10 * 100 / 20) = 50
    assert!(pct(100, 50, 60).verify_u32(10, 20));
    assert!(!pct(100, 51, 60).verify_u32(10, 20));
    // ceil(1 * 100 / 3) = 34
    assert!(pct(100, 34, 0).verify_u32(1, 3) == false);
    assert!(pct(100, 34, 40).verify_u32(1, 3));
    assert!(!pct(100, 35, 40).verify_u32(1, 3));
    // ceil(2 * 100 / 3) = 67
    assert!(pct(100, 67, 70).verify_u32(2, 3));
    assert!(!pct(100, 68, 70).verify_u32(2, 3));
}

#[test]
fn percentage_of_an_empty_total_is_zero() {
    assert!(!pct(100, 40, 60).verify_u32(10, 0));
    assert!(pct(100, 0, 0).verify_u32(10, 0));
    assert!(pct(100, -1, 0).verify_u32(0, 0));
    assert!(pct(100, 0, 0).verify_i32(10, 0));
    assert!(!pct(100, 1, 5).verify_i32(10, 0));
}

#[test]
fn percentage_of_large_numbers_does_not_wrap() {
    // 4_000_000_000 * 4 / 4_000_000_000 = 4
    let p = pct(4, 4, 0);
    assert!(!p.verify_u32(4_000_000_000, 4_000_000_000));
    assert!(pct(4, 4, 9).verify_u32(4_000_000_000, 4_000_000_000));
    assert!(!pct(4, 5, 9).verify_u32(4_000_000_000, 4_000_000_000));
    // u32::MAX * u32::MAX / 1 is far above every bound
    assert!(pct(u32::MAX, i32::MAX, 1).verify_u32(u32::MAX, 1));
    assert!(!pct(u32::MAX, 0, 0).verify_u32(u32::MAX, 1));
}

#[test]
fn signed_percentage_rounds_towards_positive_infinity() {
    // ceil(10 * 100 / 20) = 50
    assert!(pct(100, 40, 60).verify_i32(10, 20));
    assert!(pct(100, 50, 50).verify_i32(10, 20));
    assert!(!pct(100, 51, 60).verify_i32(10, 20));
    assert!(!pct(100, 40, 49).verify_i32(10, 20));
    // ceil(-3 * 1 / 2) = -1
    assert!(pct(1, -1, -1).verify_i32(-3, 2));
    assert!(!pct(1, -2, -2).verify_i32(-3, 2));
    // ceil(1 / 3) = 1
    assert!(pct(1, 1, 1).verify_i32(1, 3));
}

#[test]
fn signed_percentage_needs_total_and_baseline_in_signed_range() {
    assert!(!pct(2_147_483_648, i32::MIN, i32::MAX).verify_i32(0, 1));
    assert!(!pct(1, i32::MIN, i32::MAX).verify_i32(0, 2_147_483_648));
    assert!(pct(2_147_483_647, i32::MIN, i32::MAX).verify_i32(0, 2_147_483_647));
    // 2^31-1 squared over 1 lies outside the signed 32-bit range
    assert!(!pct(2_147_483_647, i32::MIN, i32::MAX).verify_i32(2_147_483_647, 1));
}

#[test]
fn no_filter_sums_all_days() {
    let q = RecommendationQuery::new();
    assert_eq!(q.run(&two_days()), Some(RecommendationScore { up: 10, down: 10, sum: 0 }));
    assert_eq!(q.run(&vec![]), Some(RecommendationScore { up: 0, down: 0, sum: 0 }));
    assert_eq!(
        q.run(&vec![rec(1, 3, 9), rec(1, 1, 0)]),
        Some(RecommendationScore { up: 4, down: 9, sum: -5 })
    );
}

#[test]
fn up_count_filter_passes_ten_up_votes() {
    let q = query(vec![QueryInput::Up(count(5, 20))]);
    assert_eq!(q.run(&two_days()), Some(RecommendationScore { up: 10, down: 10, sum: 0 }));
}

#[test]
fn up_percentage_filter_passes_half_of_the_votes() {
    let q = query(vec![QueryInput::Up(pct(100, 40, 60))]);
    assert_eq!(q.run(&two_days()), Some(RecommendationScore { up: 10, down: 10, sum: 0 }));
}

#[test]
fn up_percentage_filter_fails_on_an_emptied_list() {
    let q = query(vec![QueryInput::Date(range(5, 9)), QueryInput::Up(pct(100, 40, 60))]);
    assert_eq!(q.run(&two_days()), None);
}

#[test]
fn date_window_drops_days_before_summing() {
    let q = query(vec![QueryInput::Date(range(2, 2))]);
    assert_eq!(q.run(&two_days()), Some(RecommendationScore { up: 0, down: 10, sum: -10 }));
    let q = query(vec![QueryInput::Date(range(1, 1))]);
    assert_eq!(q.run(&two_days()), Some(RecommendationScore { up: 10, down: 0, sum: 10 }));
    let q = query(vec![QueryInput::Date(range(1, 2))]);
    assert_eq!(q.run(&two_days()), Some(RecommendationScore { up: 10, down: 10, sum: 0 }));
}

#[test]
fn date_window_includes_both_bounds_and_nothing_beyond() {
    let days = vec![rec(1, 1, 0), rec(2, 2, 0), rec(3, 4, 0), rec(4, 8, 0)];
    let q = query(vec![QueryInput::Date(range(2, 3))]);
    assert_eq!(q.run(&days), Some(RecommendationScore { up: 6, down: 0, sum: 6 }));
    let q = query(vec![QueryInput::Date(range(-4, 2))]);
    assert_eq!(q.run(&days), Some(RecommendationScore { up: 3, down: 0, sum: 3 }));
}

#[test]
fn window_that_excludes_all_days_gives_zeros() {
    let q = query(vec![QueryInput::Date(range(5, 9))]);
    assert_eq!(q.run(&two_days()), Some(RecommendationScore { up: 0, down: 0, sum: 0 }));
    let q = query(vec![QueryInput::Date(range(9, 5))]);
    assert_eq!(q.run(&two_days()), Some(RecommendationScore { up: 0, down: 0, sum: 0 }));
}

#[test]
fn total_filter_checks_the_sum_of_both() {
    let q = query(vec![QueryInput::Total(range(20, 0))]);
    assert_eq!(q.run(&two_days()), None);
    let q = query(vec![QueryInput::Total(range(20, 1))]);
    assert!(q.run(&two_days()).is_some());
    let q = query(vec![QueryInput::Total(range(21, 1))]);
    assert_eq!(q.run(&two_days()), None);
}

#[test]
fn down_and_sum_filters_are_checked() {
    let q = query(vec![QueryInput::Down(count(11, 1))]);
    assert_eq!(q.run(&two_days()), None);
    let q = query(vec![QueryInput::Down(pct(100, 50, 1))]);
    assert!(q.run(&two_days()).is_some());
    let q = query(vec![QueryInput::Sum(count(0, 0))]);
    assert!(q.run(&two_days()).is_some());
    let q = query(vec![QueryInput::Sum(count(1, 5))]);
    assert_eq!(q.run(&two_days()), None);
    let q = query(vec![QueryInput::Sum(pct(100, 50, 50))]);
    assert_eq!(q.run(&vec![rec(1, 15, 5)]), Some(RecommendationScore { up: 15, down: 5, sum: 10 }));
}

#[test]
fn every_configured_filter_must_pass() {
    let q = query(vec![QueryInput::Up(count(5, 20)), QueryInput::Down(count(11, 20))]);
    assert_eq!(q.run(&two_days()), None);
    let q = query(vec![QueryInput::Up(count(5, 20)), QueryInput::Down(count(10, 20))]);
    assert!(q.run(&two_days()).is_some());
}

#[test]
fn first_input_of_a_kind_is_kept() {
    let q = query(vec![QueryInput::Up(count(11, 20)), QueryInput::Up(count(5, 20))]);
    assert_eq!(q.run(&two_days()), None);
    let mut q = query(vec![QueryInput::Up(count(5, 20))]);
    q.build(vec![QueryInput::Up(count(11, 20))]);
    assert!(q.run(&two_days()).is_some());
}

#[test]
fn totals_beyond_the_signed_range_give_no_score() {
    let q = RecommendationQuery::new();
    assert_eq!(q.run(&vec![rec(1, 2_147_483_648, 0)]), None);
    assert_eq!(q.run(&vec![rec(1, 0, 2_147_483_648)]), None);
    assert_eq!(q.run(&vec![rec(1, u32::MAX, 0), rec(2, 1, 0)]), None);
    assert_eq!(q.run(&vec![rec(1, 2_000_000_000, 0), rec(2, 2_000_000_000, 0)]), None);
    assert_eq!(
        q.run(&vec![rec(1, 2_147_483_647, 2_147_483_647)]),
        Some(RecommendationScore { up: 2_147_483_647, down: 2_147_483_647, sum: 0 })
    );
    assert_eq!(
        q.run(&vec![rec(1, 0, 2_147_483_647)]),
        Some(RecommendationScore { up: 0, down: 2_147_483_647, sum: -2_147_483_647 })
    );
}

#[test]
fn evaluate_scores_without_a_window() {
    let q = query(vec![QueryInput::Date(range(5, 9))]);
    assert_eq!(q.evaluate(&two_days()), Some(RecommendationScore { up: 10, down: 10, sum: 0 }));
}

#[test]
fn descriptor_codes_name_kind_and_format() {
    assert_eq!(QueryInput::from_liner(0, 0, 0, 1, 2), Some(QueryInput::Date(range(1, 2))));
    assert_eq!(QueryInput::from_liner(1, 0, 0, 1, 2), Some(QueryInput::Total(range(1, 2))));
    assert_eq!(QueryInput::from_liner(2, 1, 100, 1, 2), Some(QueryInput::Up(pct(100, 1, 2))));
    assert_eq!(QueryInput::from_liner(3, 2, 100, 1, 2), Some(QueryInput::Down(count(1, 2))));
    assert_eq!(QueryInput::from_liner(4, 2, 0, -1, 2), Some(QueryInput::Sum(count(-1, 2))));
    assert_eq!(QueryInput::from_liner(0, 9, 0, 1, 2), Some(QueryInput::Date(range(1, 2))));
}

#[test]
fn mismatched_descriptor_codes_stand_for_nothing() {
    assert_eq!(QueryInput::from_liner(0, 1, 0, 1, 2), None);
    assert_eq!(QueryInput::from_liner(1, 2, 0, 1, 2), None);
    assert_eq!(QueryInput::from_liner(2, 0, 0, 1, 2), None);
    assert_eq!(QueryInput::from_liner(4, 3, 0, 1, 2), None);
    assert_eq!(QueryInput::from_liner(5, 1, 0, 1, 2), None);
}
