use shortcut_release_helper::repositories::RepoMap;

#[test]
fn values_are_kept_by_repository() {
    let mut map: RepoMap<u8> = RepoMap::new();
    assert_eq!(map.len(), 0);
    assert_eq!(map.get(&"dev".to_string()), None);
    map.insert("dev".to_string(), 1);
    map.insert("legacy".to_string(), 2);
    map.insert("dev".to_string(), 3);
    assert_eq!(map.len(), 2);
    assert_eq!(map.get(&"dev".to_string()), Some(&3));
    assert_eq!(map.get(&"legacy".to_string()), Some(&2));
    assert_eq!((map.name(0), *map.value(0)), ("dev", 3));
    assert_eq!((map.name(1), *map.value(1)), ("legacy", 2));
}

#[test]
fn values_are_added_by_repository() {
    let mut map: RepoMap<Vec<u8>> = RepoMap::new();
    map.push("dev".to_string(), 1);
    map.push("legacy".to_string(), 2);
    map.push("dev".to_string(), 3);
    assert_eq!(map.len(), 2);
    assert_eq!(map.get(&"dev".to_string()), Some(&vec![1, 3]));
    assert_eq!(map.get(&"legacy".to_string()), Some(&vec![2]));
}
