use conll_tools::features::FeatureMap;
use conll_tools::merge_ner::{get_entity, merge_sentence, EntityError, MergeError};
use conll_tools::token::{ConlluToken, Node};

fn s(x: &str) -> String {
    x.to_string()
}

fn token(form: &str, ne: Option<Option<&str>>) -> Node {
    let mut misc = FeatureMap::new();
    if let Some(v) = ne {
        misc.insert(s("NE"), v.map(s));
    }
    Node::Token(ConlluToken { form: s(form), misc })
}

#[test]
fn entity_of_nodes() {
    assert_eq!(get_entity(&token("a", Some(Some("B-PER")))).unwrap(), "B-PER");
    assert_eq!(get_entity(&Node::Root).unwrap_err(), EntityError::NotAToken);
    assert_eq!(get_entity(&token("a", None)).unwrap_err(), EntityError::MissingFeature);
    assert_eq!(get_entity(&token("a", Some(None))).unwrap_err(), EntityError::MissingValue);
}

#[test]
fn lines_of_aligned_sentences() {
    let gold = vec![Node::Root, token("Peter", Some(Some("B-PER"))), token("lacht", Some(Some("O")))];
    let pred = vec![Node::Root, token("Peter", Some(Some("B-LOC"))), token("lacht", Some(Some("O")))];
    let (lines, err) = merge_sentence(&gold, &pred);
    assert_eq!(lines, vec![s("Peter\tB-PER\tB-LOC"), s("lacht\tO\tO")]);
    assert_eq!(err, None);
}

#[test]
fn length_mismatch_gives_no_lines() {
    let gold = vec![Node::Root, token("a", Some(Some("O")))];
    let pred = vec![Node::Root];
    let (lines, err) = merge_sentence(&gold, &pred);
    assert!(lines.is_empty());
    assert_eq!(err, Some(MergeError::LengthMismatch));
}

#[test]
fn lines_stop_at_first_missing_entity() {
    let gold = vec![
        Node::Root,
        token("a", Some(Some("O"))),
        token("b", Some(Some("O"))),
        token("c", Some(Some("O"))),
    ];
    let pred = vec![Node::Root, token("a", Some(Some("O"))), token("b", None), token("c", Some(Some("O")))];
    let (lines, err) = merge_sentence(&gold, &pred);
    assert_eq!(lines, vec![s("a\tO\tO")]);
    assert_eq!(err, Some(MergeError::Predicted(EntityError::MissingFeature)));
    let gold2 = vec![Node::Root, token("a", Some(None))];
    let pred2 = vec![Node::Root, token("a", Some(Some("O")))];
    let (lines2, err2) = merge_sentence(&gold2, &pred2);
    assert!(lines2.is_empty());
    assert_eq!(err2, Some(MergeError::Gold(EntityError::MissingValue)));
}
