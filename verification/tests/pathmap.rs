use sozu_pki_connector::svc::certificates::pathmap::PathMap;
use sozu_pki_connector::svc::certificates::Metadata;

fn summary(path: &str, fingerprint: u8) -> Metadata {
    Metadata::new(path.to_string(), vec![fingerprint; 32], vec![path.to_string()], vec![])
}

fn paths(map: &PathMap<Metadata>) -> Vec<String> {
    let mut listed = Vec::new();
    let mut i = 0;
    while let Some((path, _)) = map.entry(i) {
        listed.push(path.clone());
        i += 1;
    }
    listed
}

#[test]
fn a_new_map_is_empty() {
    let map: PathMap<Metadata> = PathMap::new();
    assert_eq!(map.len(), 0);
    assert!(map.is_empty());
    assert!(map.entry(0).is_none());
    assert!(map.get(&"a".to_string()).is_none());
    assert!(!map.contains_key(&"a".to_string()));
}

#[test]
fn insert_files_new_paths_last() {
    let mut map = PathMap::new();
    assert!(map.insert("b".to_string(), summary("b", 1)).is_none());
    assert!(map.insert("a".to_string(), summary("a", 2)).is_none());
    assert!(map.insert("c".to_string(), summary("c", 3)).is_none());
    assert_eq!(map.len(), 3);
    assert!(!map.is_empty());
    assert_eq!(paths(&map), vec!["b".to_string(), "a".to_string(), "c".to_string()]);
    assert_eq!(map.get(&"a".to_string()).unwrap().fingerprint, vec![2u8; 32]);
    assert!(map.contains_key(&"c".to_string()));
    assert!(map.entry(3).is_none());
}

#[test]
fn insert_under_a_known_path_keeps_its_place_and_returns_the_old_value() {
    let mut map = PathMap::new();
    map.insert("b".to_string(), summary("b", 1));
    map.insert("a".to_string(), summary("a", 2));
    let previous = map.insert("b".to_string(), summary("b", 9));
    assert_eq!(previous.unwrap().fingerprint, vec![1u8; 32]);
    assert_eq!(map.len(), 2);
    assert_eq!(paths(&map), vec!["b".to_string(), "a".to_string()]);
    assert_eq!(map.get(&"b".to_string()).unwrap().fingerprint, vec![9u8; 32]);
    let (path, value) = map.entry(0).unwrap();
    assert_eq!(path, "b");
    assert_eq!(value.fingerprint, vec![9u8; 32]);
}

#[test]
fn remove_drops_one_path_and_keeps_the_order_of_the_rest() {
    let mut map = PathMap::new();
    map.insert("b".to_string(), summary("b", 1));
    map.insert("a".to_string(), summary("a", 2));
    map.insert("c".to_string(), summary("c", 3));
    let previous = map.remove(&"a".to_string());
    assert_eq!(previous.unwrap().fingerprint, vec![2u8; 32]);
    assert_eq!(paths(&map), vec!["b".to_string(), "c".to_string()]);
    assert!(map.get(&"a".to_string()).is_none());
    assert!(map.remove(&"a".to_string()).is_none());
    assert_eq!(map.len(), 2);
}
