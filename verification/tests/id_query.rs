use database_test::entity::game::Game;
use database_test::query::id::{FilterPolicy, IdFilter, IdFilterInput, IdQuery, QueryInput};

fn including(list: Vec<u32>) -> IdFilterInput {
    IdFilterInput { policy: FilterPolicy::Include, list }
}

fn excluding(list: Vec<u32>) -> IdFilterInput {
    IdFilterInput { policy: FilterPolicy::Exclude, list }
}

fn game(id: u32, tags: Option<Vec<u32>>) -> Game {
    Game { id, name: String::from("g"), tags, releaseDate: None, recommendations: None }
}

#[test]
fn new_filter_is_none_and_passes_everything() {
    let filter = IdFilter::new();
    assert!(filter.is_none());
    assert!(filter.verify_single(&7));
    assert!(filter.verify_list(&vec![1, 2]));
    assert!(filter.verify_list(&vec![]));
}

#[test]
fn filter_with_a_list_is_not_none() {
    let mut filter = IdFilter::new();
    filter.add_input(including(vec![]));
    assert!(!filter.is_none());
    let mut filter = IdFilter::new();
    filter.add_input(excluding(vec![1]));
    assert!(!filter.is_none());
}

#[test]
fn both_policies_on_a_single_id() {
    let mut filter = IdFilter::new();
    filter.add_input(including(vec![1, 2]));
    filter.add_input(excluding(vec![3]));
    assert!(filter.verify_single(&2));
    assert!(!filter.verify_single(&3));
    assert!(!filter.verify_single(&5));
}

#[test]
fn excluded_id_fails_even_if_included() {
    let mut filter = IdFilter::new();
    filter.add_input(including(vec![1, 2, 3]));
    filter.add_input(excluding(vec![3]));
    assert!(filter.verify_single(&2));
    assert!(!filter.verify_single(&3));
}

#[test]
fn id_absent_from_both_passes() {
    let mut filter = IdFilter::new();
    filter.add_input(excluding(vec![3]));
    assert!(filter.verify_single(&5));
    assert!(filter.verify_single(&2));
    assert!(!filter.verify_single(&3));
}

#[test]
fn lists_of_one_policy_are_united() {
    let mut filter = IdFilter::new();
    filter.add_input(including(vec![1]));
    filter.add_input(including(vec![2]));
    assert!(filter.verify_single(&1));
    assert!(filter.verify_single(&2));
    assert!(!filter.verify_single(&3));
    filter.add_input(excluding(vec![1]));
    filter.add_input(excluding(vec![2]));
    assert!(!filter.verify_single(&1));
    assert!(!filter.verify_single(&2));
}

#[test]
fn empty_include_list_admits_nothing() {
    let mut filter = IdFilter::new();
    filter.add_input(including(vec![]));
    assert!(!filter.verify_single(&1));
    assert!(!filter.verify_list(&vec![1]));
}

#[test]
fn tag_list_passes_by_intersection() {
    let tags = vec![1, 4];
    let mut filter = IdFilter::new();
    filter.add_input(including(vec![4]));
    assert!(filter.verify_list(&tags));
    let mut filter = IdFilter::new();
    filter.add_input(excluding(vec![4]));
    assert!(!filter.verify_list(&tags));
    let mut filter = IdFilter::new();
    filter.add_input(including(vec![5, 6]));
    assert!(!filter.verify_list(&tags));
    let mut filter = IdFilter::new();
    filter.add_input(excluding(vec![5, 6]));
    assert!(filter.verify_list(&tags));
}

#[test]
fn empty_tag_list_meets_no_include_set() {
    let mut filter = IdFilter::new();
    filter.add_input(including(vec![4]));
    assert!(!filter.verify_list(&vec![]));
    let mut filter = IdFilter::new();
    filter.add_input(excluding(vec![4]));
    assert!(filter.verify_list(&vec![]));
}

#[test]
fn query_checks_tags_of_a_game() {
    let mut query = IdQuery::new();
    query.build(vec![QueryInput::TagId(including(vec![4]))]);
    assert!(query.run(&game(1, Some(vec![1, 4]))));
    assert!(!query.run(&game(1, Some(vec![1, 2]))));

    let mut query = IdQuery::new();
    query.build(vec![QueryInput::TagId(excluding(vec![4]))]);
    assert!(!query.run(&game(1, Some(vec![1, 4]))));
}

#[test]
fn game_without_tags_passes_any_tag_filter() {
    let mut query = IdQuery::new();
    query.build(vec![QueryInput::TagId(including(vec![4]))]);
    assert!(query.run(&game(1, None)));
    let mut query = IdQuery::new();
    query.build(vec![QueryInput::TagId(excluding(vec![4])), QueryInput::TagId(including(vec![9]))]);
    assert!(query.run(&game(1, None)));
}

#[test]
fn query_checks_both_domains() {
    let mut query = IdQuery::new();
    query.build(vec![
        QueryInput::GameId(including(vec![1, 2])),
        QueryInput::GameId(excluding(vec![3])),
        QueryInput::TagId(including(vec![4])),
    ]);
    assert!(query.run(&game(2, Some(vec![4]))));
    assert!(!query.run(&game(3, Some(vec![4]))));
    assert!(!query.run(&game(5, Some(vec![4]))));
    assert!(!query.run(&game(2, Some(vec![7]))));
    assert!(query.run(&game(1, None)));
}

#[test]
fn empty_query_passes_every_game() {
    let query = IdQuery::new();
    assert!(query.run(&game(9, Some(vec![1]))));
    assert!(query.run(&game(0, None)));
}

#[test]
fn descriptor_codes_name_domain_and_policy() {
    assert_eq!(QueryInput::from_liner(0, 0, vec![1]), Some(QueryInput::GameId(including(vec![1]))));
    assert_eq!(QueryInput::from_liner(0, 1, vec![1]), Some(QueryInput::GameId(excluding(vec![1]))));
    assert_eq!(QueryInput::from_liner(1, 0, vec![2]), Some(QueryInput::TagId(including(vec![2]))));
    assert_eq!(QueryInput::from_liner(1, 1, vec![]), Some(QueryInput::TagId(excluding(vec![]))));
}

#[test]
fn unknown_descriptor_codes_stand_for_nothing() {
    assert_eq!(QueryInput::from_liner(2, 0, vec![1]), None);
    assert_eq!(QueryInput::from_liner(0, 2, vec![1]), None);
    assert_eq!(QueryInput::from_liner(7, 7, vec![]), None);
}
