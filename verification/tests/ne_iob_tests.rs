use conll_tools::de_iob::rewrite_features;
use conll_tools::features::FeatureMap;
use conll_tools::ne_iob::{entity_has_separator, fixup_entity, iob_encode_token, NeIobError};

fn s(x: &str) -> String {
    x.to_string()
}

#[test]
fn first_entity_begins() {
    let mut e = s("ORG_1627129-LOC_1627129a");
    let mut last = None;
    fixup_entity(&mut e, &mut last);
    assert_eq!(e, "B-ORG");
    assert_eq!(last, Some(s("1627129")));
}

#[test]
fn same_identifier_continues() {
    let mut e = s("ORG_1627129");
    let mut last = Some(s("1627129"));
    fixup_entity(&mut e, &mut last);
    assert_eq!(e, "I-ORG");
    assert_eq!(last, Some(s("1627129")));
}

#[test]
fn other_identifier_begins_anew() {
    let mut e = s("PER_7");
    let mut last = Some(s("1627129"));
    fixup_entity(&mut e, &mut last);
    assert_eq!(e, "B-PER");
    assert_eq!(last, Some(s("7")));
}

#[test]
fn separator_is_looked_for_in_the_first_entity() {
    assert!(entity_has_separator("ORG_1-LOC_2"));
    assert!(entity_has_separator("A_"));
    assert!(!entity_has_separator("ORG-LOC_2"));
    assert!(!entity_has_separator(""));
}

fn misc(ne: Option<Option<&str>>) -> FeatureMap {
    let mut m = FeatureMap::new();
    if let Some(v) = ne {
        m.insert(s("NE"), v.map(s));
    }
    m.insert(s("SpaceAfter"), Some(s("No")));
    m
}

#[test]
fn sentence_is_tagged_token_by_token() {
    let mut tokens = vec![
        misc(Some(Some("PER_1"))),
        misc(Some(Some("PER_1"))),
        misc(None),
        misc(Some(Some("LOC_2-ORG_3"))),
        misc(Some(Some("LOC_4"))),
    ];
    let mut last = None;
    for t in tokens.iter_mut() {
        iob_encode_token(t, &mut last).unwrap();
    }
    let tags: Vec<String> = tokens
        .iter()
        .map(|t| t.get(&s("NE")).unwrap().clone().unwrap())
        .collect();
    assert_eq!(tags, vec!["B-PER", "I-PER", "O", "B-LOC", "B-LOC"]);
    assert_eq!(last, Some(s("4")));
    // Every tag can be rewritten back into entity and chunk features.
    for t in tokens.iter() {
        assert!(rewrite_features(t).is_ok());
    }
}

#[test]
fn outside_token_ends_the_entity() {
    let mut tokens = vec![misc(Some(Some("PER_1"))), misc(None), misc(Some(Some("PER_1")))];
    let mut last = None;
    for t in tokens.iter_mut() {
        iob_encode_token(t, &mut last).unwrap();
    }
    assert_eq!(tokens[2].get(&s("NE")), Some(&Some(s("B-PER"))));
}

#[test]
fn entity_without_value_is_an_error() {
    let mut t = misc(Some(None));
    let mut last = Some(s("1"));
    assert_eq!(iob_encode_token(&mut t, &mut last), Err(NeIobError::MissingEntity));
    assert_eq!(last, Some(s("1")));
    assert_eq!(t.get(&s("NE")), Some(&None));
}
