use database_test::entity::tag::TagRegistry;

fn name(s: &str) -> String {
    String::from(s)
}

#[test]
fn first_names_get_dense_ids_in_order() {
    let mut registry = TagRegistry::new();
    assert_eq!(registry.get_id_by_tag(name("rpg")), 0);
    assert_eq!(registry.get_id_by_tag(name("indie")), 1);
    assert_eq!(registry.get_id_by_tag(name("puzzle")), 2);
    assert_eq!(registry.len(), 3);
}

#[test]
fn known_name_keeps_its_id() {
    let mut registry = TagRegistry::new();
    let first = registry.get_id_by_tag(name("rpg"));
    registry.get_id_by_tag(name("indie"));
    let again = registry.get_id_by_tag(name("rpg"));
    assert_eq!(first, again);
    assert_eq!(registry.len(), 2);
    assert_eq!(registry.get_id_by_tag(name("rpg")), 0);
    assert_eq!(registry.len(), 2);
}

#[test]
fn repeated_insertions_follow_first_sight() {
    let mut registry = TagRegistry::new();
    let seen = ["b", "a", "b", "c", "a", "d", "c"];
    let ids: Vec<u32> = seen.iter().map(|s| registry.get_id_by_tag(name(s))).collect();
    assert_eq!(ids, vec![0, 1, 0, 2, 1, 3, 2]);
    assert_eq!(registry.len(), 4);
}

#[test]
fn find_reports_known_and_unknown_names() {
    let mut registry = TagRegistry::new();
    registry.get_id_by_tag(name("x"));
    registry.get_id_by_tag(name("y"));
    assert_eq!(registry.find(&name("y")), Some(1));
    assert_eq!(registry.find(&name("z")), None);
    assert_eq!(registry.len(), 2);
}

#[test]
fn empty_name_is_a_name() {
    let mut registry = TagRegistry::new();
    assert_eq!(registry.get_id_by_tag(name("")), 0);
    assert_eq!(registry.get_id_by_tag(name("a")), 1);
    assert_eq!(registry.get_id_by_tag(name("")), 0);
}

#[test]
fn entries_list_each_name_under_its_id() {
    let mut registry = TagRegistry::new();
    registry.get_id_by_tag(name("rpg"));
    registry.get_id_by_tag(name("indie"));
    assert_eq!(registry.entries(), vec![(0, name("rpg")), (1, name("indie"))]);
    assert_eq!(TagRegistry::new().entries(), Vec::<(u32, String)>::new());
}

#[test]
fn entries_restore_the_same_ids() {
    let mut registry = TagRegistry::new();
    for s in ["rpg", "indie", "puzzle"] {
        registry.get_id_by_tag(name(s));
    }
    let mut restored = TagRegistry::from_entries(registry.entries()).unwrap();
    assert_eq!(restored.entries(), registry.entries());
    assert_eq!(restored.get_id_by_tag(name("indie")), 1);
    assert_eq!(restored.get_id_by_tag(name("new")), 3);
}

#[test]
fn entries_restore_in_any_order() {
    let entries = vec![(2, name("c")), (0, name("a")), (1, name("b"))];
    let restored = TagRegistry::from_entries(entries).unwrap();
    assert_eq!(restored.entries(), vec![(0, name("a")), (1, name("b")), (2, name("c"))]);
}

#[test]
fn no_entries_restore_an_empty_registry() {
    let restored = TagRegistry::from_entries(Vec::new()).unwrap();
    assert_eq!(restored.len(), 0);
}

#[test]
fn duplicate_id_is_refused() {
    let entries = vec![(0, name("a")), (0, name("b"))];
    assert!(TagRegistry::from_entries(entries).is_none());
}

#[test]
fn duplicate_name_is_refused() {
    let entries = vec![(0, name("a")), (1, name("a"))];
    assert!(TagRegistry::from_entries(entries).is_none());
}

#[test]
fn id_beyond_the_count_is_refused() {
    let entries = vec![(0, name("a")), (2, name("b"))];
    assert!(TagRegistry::from_entries(entries).is_none());
    assert!(TagRegistry::from_entries(vec![(5, name("a"))]).is_none());
}
