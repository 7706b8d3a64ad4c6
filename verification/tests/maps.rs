use coce::maps::{StringMap, UrlMap};

#[test]
fn string_map_insert_replaces() {
    let mut m = StringMap::new();
    m.insert("a".into(), "1".into());
    m.insert("b".into(), "2".into());
    m.insert("a".into(), "3".into());
    assert_eq!(m.get(&"a".to_string()).map(|s| s.as_str()), Some("3"));
    assert_eq!(m.get(&"b".to_string()).map(|s| s.as_str()), Some("2"));
    assert!(m.get(&"c".to_string()).is_none());
    assert!(m.contains_key(&"b".to_string()));
    assert_eq!(m.keys(), vec!["a", "b"]);
}

#[test]
fn url_map_keeps_other_providers() {
    let mut u = UrlMap::new();
    u.insert_url("id1".into(), "gb".into(), "g".into());
    u.insert_url("id1".into(), "ol".into(), "o".into());
    u.insert_url("id2".into(), "gb".into(), "h".into());
    u.insert_url("id1".into(), "gb".into(), "g2".into());
    let per = u.get(&"id1".to_string()).unwrap();
    assert_eq!(per.get(&"gb".to_string()).unwrap(), "g2");
    assert_eq!(per.get(&"ol".to_string()).unwrap(), "o");
    assert_eq!(u.keys(), vec!["id1", "id2"]);
    assert!(u.get(&"id3".to_string()).is_none());
}

#[test]
fn restricted_to_requested_keys() {
    let mut m = StringMap::new();
    m.insert("a".into(), "1".into());
    m.insert("b".into(), "2".into());
    let r = m.restricted_to(&vec!["b".to_string(), "c".to_string(), "b".to_string()]);
    assert_eq!(r.keys(), vec!["b"]);
    assert_eq!(r.get(&"b".to_string()).unwrap(), "2");
}
