use pg_search_storage::state::{SearchAlias, SearchStateError, SearchStateManager};

#[test]
fn default_query_round_trip() {
    let mut m: SearchStateManager<u32> = SearchStateManager::new();
    assert!(matches!(m.get_state_default(), Err(SearchStateError::NoQuery)));
    assert!(matches!(m.get_state(None), Err(SearchStateError::NoQuery)));
    assert!(m.set_state_default(7).is_ok());
    assert_eq!(*m.get_state_default().unwrap(), 7);
    assert_eq!(*m.get_state(None).unwrap(), 7);
}

#[test]
fn second_default_query_needs_alias() {
    let mut m: SearchStateManager<u32> = SearchStateManager::new();
    m.set_state_default(1).unwrap();
    assert!(matches!(m.set_state_default(2), Err(SearchStateError::AliasRequired)));
    assert_eq!(*m.get_state_default().unwrap(), 2);
}

#[test]
fn aliases_are_kept_apart() {
    let mut m: SearchStateManager<&str> = SearchStateManager::new();
    m.set_state_alias("a", SearchAlias::from("first")).unwrap();
    m.set_state_alias("b", SearchAlias::from("second")).unwrap();
    m.set_state_default("c").unwrap();
    assert_eq!(*m.get_state(Some(SearchAlias::from("first"))).unwrap(), "a");
    assert_eq!(*m.get_state_alias(SearchAlias::from("second")).unwrap(), "b");
    assert_eq!(*m.get_state(None).unwrap(), "c");
    match m.get_state(Some(SearchAlias::from("third"))) {
        Err(SearchStateError::AliasLookup(a)) => assert_eq!(a.as_str(), "third"),
        _ => panic!("expected an alias lookup error"),
    }
}

#[test]
fn empty_and_duplicate_aliases() {
    let mut m: SearchStateManager<u8> = SearchStateManager::new();
    assert!(matches!(m.set_state_alias(1, SearchAlias::from("")), Err(SearchStateError::EmptyAlias)));
    assert!(matches!(m.get_state_default(), Err(SearchStateError::NoQuery)));
    m.set_state_alias(1, SearchAlias::from("x")).unwrap();
    match m.set_state_alias(2, SearchAlias::from("x")) {
        Err(SearchStateError::DuplicateAlias(a)) => assert_eq!(a.as_str(), "x"),
        _ => panic!("expected a duplicate alias error"),
    }
    assert_eq!(*m.get_state_alias(SearchAlias::from("x")).unwrap(), 2);
}

#[test]
fn clear_forgets_everything() {
    let mut m: SearchStateManager<u8> = SearchStateManager::new();
    m.set_state_default(1).unwrap();
    m.set_state_alias(2, SearchAlias::from("y")).unwrap();
    m.clear();
    assert!(m.get_state_default().is_err());
    assert!(m.get_state_alias(SearchAlias::from("y")).is_err());
    assert!(m.set_state_default(3).is_ok());
}
