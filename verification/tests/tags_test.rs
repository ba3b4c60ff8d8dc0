use walkers_editor::tags::Tags;

fn tags(pairs: &[(&str, &str)]) -> Tags {
    let mut t = Tags::new();
    for (k, v) in pairs {
        t.insert(k.to_string(), v.to_string());
    }
    t
}

fn pairs(t: &Tags) -> Vec<(String, String)> {
    (0..t.len()).map(|i| (t.key_at(i).clone(), t.value_at(i).clone())).collect()
}

#[test]
fn new_tags_are_empty() {
    let t = Tags::new();
    assert!(t.is_empty());
    assert_eq!(t.len(), 0);
    assert_eq!(t.get("name"), None);
    assert!(!t.contains_key("name"));
    assert!(Tags::default().is_empty());
}

#[test]
fn insert_appends_new_keys_in_order() {
    let mut t = Tags::new();
    assert_eq!(t.insert("highway".to_string(), "residential".to_string()), None);
    assert_eq!(t.insert("name".to_string(), "Main Street".to_string()), None);
    assert_eq!(t.len(), 2);
    assert!(!t.is_empty());
    assert_eq!(t.key_at(0), "highway");
    assert_eq!(t.value_at(0), "residential");
    assert_eq!(t.key_at(1), "name");
    assert_eq!(t.value_at(1), "Main Street");
    assert_eq!(t.get("name").map(String::as_str), Some("Main Street"));
    assert!(t.contains_key("highway"));
    assert!(!t.contains_key("high"));
    assert!(!t.contains_key("highway "));
}

#[test]
fn insert_on_a_known_key_replaces_in_place() {
    let mut t = tags(&[("a", "1"), ("b", "2"), ("c", "3")]);
    assert_eq!(t.insert("b".to_string(), "two".to_string()), Some("2".to_string()));
    assert_eq!(
        pairs(&t),
        vec![
            ("a".to_string(), "1".to_string()),
            ("b".to_string(), "two".to_string()),
            ("c".to_string(), "3".to_string())
        ]
    );
}

#[test]
fn remove_takes_the_pair_out() {
    let mut t = tags(&[("a", "1"), ("b", "2"), ("c", "3")]);
    assert_eq!(t.remove("b"), Some("2".to_string()));
    assert_eq!(t.remove("b"), None);
    assert_eq!(t.remove("zzz"), None);
    assert_eq!(pairs(&t), vec![("a".to_string(), "1".to_string()), ("c".to_string(), "3".to_string())]);
    assert_eq!(t.remove("a"), Some("1".to_string()));
    assert_eq!(t.remove("c"), Some("3".to_string()));
    assert!(t.is_empty());
}

#[test]
fn clone_keeps_pairs_and_order() {
    let t = tags(&[("x", "1"), ("y", ""), ("", "z")]);
    let c = t.clone();
    assert_eq!(pairs(&c), pairs(&t));
    assert_eq!(c.get("").map(String::as_str), Some("z"));
    assert_eq!(c.get("y").map(String::as_str), Some(""));
}

#[test]
fn keys_differ_by_case_and_by_unicode() {
    let t = tags(&[("Name", "a"), ("name", "b"), ("näme", "c")]);
    assert_eq!(t.len(), 3);
    assert_eq!(t.get("name").map(String::as_str), Some("b"));
    assert_eq!(t.get("Name").map(String::as_str), Some("a"));
    assert_eq!(t.get("näme").map(String::as_str), Some("c"));
    assert_eq!(t.get("NAME"), None);
}
