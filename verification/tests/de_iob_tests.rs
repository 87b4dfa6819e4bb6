use conll_tools::de_iob::{de_iob_token, rewrite_features, DeIobError};
use conll_tools::features::FeatureMap;
use conll_tools::token::ConllxToken;

fn s(x: &str) -> String {
    x.to_string()
}

fn map(pairs: &[(&str, Option<&str>)]) -> FeatureMap {
    let mut m = FeatureMap::new();
    for (k, v) in pairs {
        m.insert(s(k), v.map(s));
    }
    m
}

fn sorted(m: &FeatureMap) -> Vec<(String, Option<String>)> {
    let mut v = m.entries().clone();
    v.sort();
    v
}

#[test]
fn begin_tag_becomes_entity_and_chunk() {
    let m = map(&[("NE", Some("B-PER")), ("case", Some("nom"))]);
    let r = rewrite_features(&m).unwrap();
    assert_eq!(
        sorted(&r),
        vec![
            (s("case"), Some(s("nom"))),
            (s("ne"), Some(s("PER"))),
            (s("ne_chunk"), Some(s("B"))),
        ]
    );
}

#[test]
fn inside_tag_becomes_entity_and_chunk() {
    let m = map(&[("NE", Some("I-LOC"))]);
    let r = rewrite_features(&m).unwrap();
    assert_eq!(sorted(&r), vec![(s("ne"), Some(s("LOC"))), (s("ne_chunk"), Some(s("I")))]);
}

#[test]
fn outside_tag_is_dropped() {
    let m = map(&[("NE", Some("O")), ("x", None)]);
    let r = rewrite_features(&m).unwrap();
    assert_eq!(sorted(&r), vec![(s("x"), None)]);
}

#[test]
fn features_without_ne_are_kept() {
    let m = map(&[("a", Some("1"))]);
    let r = rewrite_features(&m).unwrap();
    assert_eq!(sorted(&r), vec![(s("a"), Some(s("1")))]);
}

#[test]
fn ne_without_value_is_an_error() {
    let m = map(&[("NE", None)]);
    assert!(matches!(rewrite_features(&m), Err(DeIobError::MissingTag)));
}

#[test]
fn unknown_prefix_is_an_error() {
    let m = map(&[("NE", Some("X-PER"))]);
    match rewrite_features(&m) {
        Err(DeIobError::UnknownPrefix(p)) => assert_eq!(p, "X-"),
        other => panic!("unexpected {:?}", other),
    }
    // Longer than "O" but starting with it.
    let m = map(&[("NE", Some("OX"))]);
    match rewrite_features(&m) {
        Err(DeIobError::UnknownPrefix(p)) => assert_eq!(p, "OX"),
        other => panic!("unexpected {:?}", other),
    }
    // A two-byte first character is the whole prefix.
    let m = map(&[("NE", Some("Ä-X"))]);
    match rewrite_features(&m) {
        Err(DeIobError::UnknownPrefix(p)) => assert_eq!(p, "Ä"),
        other => panic!("unexpected {:?}", other),
    }
    let m = map(&[("NE", Some(""))]);
    match rewrite_features(&m) {
        Err(DeIobError::UnknownPrefix(p)) => assert_eq!(p, ""),
        other => panic!("unexpected {:?}", other),
    }
}

#[test]
fn begin_tag_with_empty_entity() {
    let m = map(&[("NE", Some("B-"))]);
    let r = rewrite_features(&m).unwrap();
    assert_eq!(sorted(&r), vec![(s("ne"), Some(s(""))), (s("ne_chunk"), Some(s("B")))]);
}

#[test]
fn token_left_without_features_has_none() {
    let mut t = ConllxToken {
        form: s("Berlin"),
        cpos: None,
        pos: Some(s("NE")),
        features: Some(map(&[("NE", Some("O"))])),
    };
    de_iob_token(&mut t).unwrap();
    assert!(t.features.is_none());
    assert_eq!(t.form, "Berlin");
    assert_eq!(t.pos, Some(s("NE")));
}

#[test]
fn token_error_leaves_token_unchanged() {
    let mut t = ConllxToken {
        form: s("x"),
        cpos: None,
        pos: None,
        features: Some(map(&[("NE", None), ("a", Some("b"))])),
    };
    assert!(de_iob_token(&mut t).is_err());
    assert_eq!(sorted(t.features.as_ref().unwrap()), vec![(s("NE"), None), (s("a"), Some(s("b")))]);
}

#[test]
fn token_without_features_is_untouched() {
    let mut t = ConllxToken { form: s("x"), cpos: None, pos: None, features: None };
    de_iob_token(&mut t).unwrap();
    assert!(t.features.is_none());
}
