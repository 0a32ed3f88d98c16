use mercury::model::{matches_search, CollectionItem, HeaderMap, HttpMethod, RequestFile};

#[test]
fn method_parse_roundtrips_every_method() {
    for m in HttpMethod::all() {
        assert_eq!(HttpMethod::parse(m.as_str()), Some(m));
        assert_eq!(HttpMethod::parse(&m.as_str().to_lowercase()), Some(m));
    }
    assert_eq!(HttpMethod::parse("FETCH"), None);
}

#[test]
fn parse_trims_and_ignores_case() {
    assert_eq!(HttpMethod::parse("  pAtCh \n"), Some(HttpMethod::PATCH));
    assert_eq!(HttpMethod::default(), HttpMethod::GET);
}

#[test]
fn header_map_keeps_names_sorted_and_unique() {
    let mut h = HeaderMap::new();
    h.insert("Zeta".into(), "z".into());
    h.insert("Alpha".into(), "{{token}}".into());
    h.insert("Zeta".into(), "2".into());
    let names: Vec<&str> = h.entries().iter().map(|(k, _)| k.as_str()).collect();
    assert_eq!(names, vec!["Alpha", "Zeta"]);
    assert_eq!(h.get("Zeta").unwrap(), "2");
    assert!(!h.contains_key("zeta"));
    let copy = h.clone();
    assert_eq!(copy.len(), 2);
    assert!(RequestFile::default().headers.is_empty());
}

#[test]
fn search_matches_names_and_loaded_children() {
    let tree = CollectionItem::Folder {
        name: "Users".into(),
        path: "users".into(),
        children: Some(vec![CollectionItem::Request {
            name: "Login".into(),
            path: "users/login.json".into(),
            method: Some(HttpMethod::POST),
        }]),
    };
    assert!(matches_search(&tree, "log"));
    assert!(matches_search(&tree, "user"));
    assert!(!matches_search(&tree, "health"));
    let closed = CollectionItem::Folder { name: "Users".into(), path: "users".into(), children: None };
    assert!(!matches_search(&closed, "log"));
}
