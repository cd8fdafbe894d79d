use database_test::entity::game::Game;
use database_test::entity::recommendation::{Recommendation, RecommendationScore};
use database_test::query::game::{GameQuery, GameQueryResult};
use database_test::query::id::{FilterPolicy, IdFilterInput, QueryInput as IdQueryInput};
use database_test::query::recommendation::{
    ComplexRangeInput, QueryInput as RecommendationQueryInput, RangeFormat, SimpleRangeInput,
};

fn game(id: u32, tags: Option<Vec<u32>>, recommendations: Option<Vec<Recommendation>>) -> Game {
    Game { id, name: format!("game {}", id), tags, releaseDate: Some(2020), recommendations }
}

fn up_at_least(min: i32) -> RecommendationQueryInput {
    RecommendationQueryInput::Up(ComplexRangeInput {
        format: RangeFormat::Count,
        range: SimpleRangeInput { min, max: 1 },
    })
}

#[test]
fn empty_query_accepts_and_copies_the_game() {
    let query = GameQuery::new();
    let g = game(3, Some(vec![1, 4]), None);
    assert_eq!(
        query.run(&g),
        Some(GameQueryResult {
            id: 3,
            name: String::from("game 3"),
            tags: Some(vec![1, 4]),
            releaseDate: Some(2020),
            recommendations: None,
        })
    );
}

#[test]
fn accepted_game_with_votes_carries_its_score() {
    let query = GameQuery::new();
    let g = game(
        3,
        None,
        Some(vec![
            Recommendation { date: 1, up: 10, down: 0 },
            Recommendation { date: 2, up: 0, down: 4 },
        ]),
    );
    let result = query.run(&g).unwrap();
    assert_eq!(result.recommendations, Some(RecommendationScore { up: 10, down: 4, sum: 6 }));
    assert_eq!(result.tags, None);
    assert_eq!(result.id, 3);
}

#[test]
fn game_that_fails_the_id_filter_is_rejected() {
    let mut query = GameQuery::new();
    query.idQuery.build(vec![IdQueryInput::GameId(IdFilterInput {
        policy: FilterPolicy::Exclude,
        list: vec![3],
    })]);
    assert_eq!(query.run(&game(3, None, None)), None);
    assert!(query.run(&game(4, None, None)).is_some());
}

#[test]
fn game_with_votes_that_fail_a_range_is_rejected() {
    let mut query = GameQuery::new();
    query.recommendationQuery.build(vec![up_at_least(5)]);
    let few = game(1, None, Some(vec![Recommendation { date: 1, up: 4, down: 0 }]));
    let many = game(2, None, Some(vec![Recommendation { date: 1, up: 5, down: 0 }]));
    assert_eq!(query.run(&few), None);
    assert!(query.run(&many).is_some());
}

#[test]
fn game_without_votes_passes_any_vote_filter() {
    let mut query = GameQuery::new();
    query.recommendationQuery.build(vec![
        up_at_least(1_000),
        RecommendationQueryInput::Total(SimpleRangeInput { min: 1_000, max: 0 }),
        RecommendationQueryInput::Date(SimpleRangeInput { min: 5, max: 1 }),
    ]);
    let result = query.run(&game(1, Some(vec![2]), None)).unwrap();
    assert_eq!(result.recommendations, None);
    assert_eq!(result.tags, Some(vec![2]));
}

#[test]
fn game_with_an_empty_list_of_votes_is_scored() {
    let mut query = GameQuery::new();
    query.recommendationQuery.build(vec![up_at_least(1)]);
    assert_eq!(query.run(&game(1, None, Some(vec![]))), None);
    let query = GameQuery::new();
    assert_eq!(
        query.run(&game(1, None, Some(vec![]))).unwrap().recommendations,
        Some(RecommendationScore { up: 0, down: 0, sum: 0 })
    );
}

#[test]
fn game_without_votes_still_needs_the_id_filter() {
    let mut query = GameQuery::new();
    query.idQuery.build(vec![IdQueryInput::TagId(IdFilterInput {
        policy: FilterPolicy::Include,
        list: vec![4],
    })]);
    assert_eq!(query.run(&game(1, Some(vec![1]), None)), None);
    assert!(query.run(&game(1, Some(vec![4]), None)).is_some());
    assert!(query.run(&game(1, None, None)).is_some());
}
