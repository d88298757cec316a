use metco_client::Tags;

#[test]
fn insert_returns_the_previous_value() {
    let mut t = Tags::new();
    assert!(t.is_empty());
    assert_eq!(t.insert("a".into(), "1".into()), None);
    assert_eq!(t.insert("b".into(), "2".into()), None);
    assert_eq!(t.insert("a".into(), "3".into()), Some("1".to_string()));
    assert_eq!(t.len(), 2);
    assert_eq!(t.get("a").unwrap(), "3");
    assert_eq!(t.get("b").unwrap(), "2");
    assert!(t.get("c").is_none());
    assert!(t.contains_key("a"));
    assert!(!t.contains_key("c"));
    assert_eq!(t.key(0), "a");
    assert_eq!(t.key(1), "b");
}

#[test]
fn extend_sets_each_tag_in_order() {
    let mut a = Tags::new();
    a.insert("x".into(), "1".into());
    a.insert("y".into(), "2".into());
    let mut b = Tags::new();
    b.insert("y".into(), "3".into());
    b.insert("z".into(), "4".into());
    a.extend(b);
    assert_eq!(a.len(), 3);
    assert_eq!(a.get("x").unwrap(), "1");
    assert_eq!(a.get("y").unwrap(), "3");
    assert_eq!(a.get("z").unwrap(), "4");
    assert_eq!(a.key(2), "z");
}

#[test]
fn default_is_empty() {
    let t = Tags::default();
    assert_eq!(t.len(), 0);
    assert!(t.is_empty());
}
