use conll_tools::features::FeatureMap;

fn s(x: &str) -> String {
    x.to_string()
}

#[test]
fn insert_then_get_gives_value() {
    let mut m = FeatureMap::new();
    assert!(m.is_empty());
    m.insert(s("NE"), Some(s("B-PER")));
    m.insert(s("flag"), None);
    assert!(!m.is_empty());
    assert_eq!(m.get(&s("NE")), Some(&Some(s("B-PER"))));
    assert_eq!(m.get(&s("flag")), Some(&None));
    assert_eq!(m.get(&s("other")), None);
    assert!(m.contains_key(&s("flag")));
}

#[test]
fn insert_replaces_earlier_value() {
    let mut m = FeatureMap::new();
    m.insert(s("k"), Some(s("1")));
    m.insert(s("k"), Some(s("2")));
    assert_eq!(m.get(&s("k")), Some(&Some(s("2"))));
    assert_eq!(m.entries().len(), 1);
}

#[test]
fn remove_then_get_gives_nothing() {
    let mut m = FeatureMap::new();
    m.insert(s("a"), Some(s("1")));
    m.insert(s("b"), None);
    m.remove(&s("a"));
    assert_eq!(m.get(&s("a")), None);
    assert_eq!(m.get(&s("b")), Some(&None));
    m.remove(&s("b"));
    assert!(m.is_empty());
    m.remove(&s("absent"));
    assert!(m.is_empty());
}

#[test]
fn copy_holds_the_same_bindings() {
    let mut m = FeatureMap::new();
    m.insert(s("a"), Some(s("1")));
    m.insert(s("b"), None);
    let c = m.copy();
    assert_eq!(c.entries(), m.entries());
}
