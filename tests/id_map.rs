use akin::id_map::IdMap;

#[test]
fn ids_are_handed_out_from_one() {
    let mut m = IdMap::new();
    assert_eq!(m.next_id(), 1);
    assert_eq!(m.get_or_allocate("rust::a"), 1);
    assert_eq!(m.get_or_allocate("rust::b"), 2);
    assert_eq!(m.get_or_allocate("rust::a"), 1);
    assert_eq!(m.len(), 2);
    assert_eq!(m.next_id(), 3);
}

#[test]
fn ids_and_names_invert() {
    let m = IdMap::from_names(vec!["x".to_string(), "y".to_string(), "z".to_string()]);
    assert_eq!(m.id_of("y"), Some(2));
    assert_eq!(m.name_of(3).map(|s| s.as_str()), Some("z"));
    assert_eq!(m.name_of(0), None);
    assert_eq!(m.name_of(4), None);
    assert_eq!(m.id_of("w"), None);
}
