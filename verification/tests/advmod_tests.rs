use conll_tools::advmod::{qualifying_relation, replace_verb_amod_advmod, DepError, DepSentence, DepToken, HeadRel};

fn s(x: &str) -> String {
    x.to_string()
}

fn tok(upos: Option<&str>, head: Option<(usize, Option<&str>)>) -> DepToken {
    DepToken {
        upos: upos.map(s),
        head: head.map(|(h, r)| HeadRel { head: h, relation: r.map(s) }),
    }
}

fn relations(sent: &DepSentence) -> Vec<Option<String>> {
    sent.tokens().iter().map(|t| t.head.as_ref().unwrap().relation.clone()).collect()
}

fn example() -> DepSentence {
    // 1 schnell(ADJ) <-amod- 2 läuft(VERB); 3 gut(ADJ) <-amod- 4 Haus(NOUN)
    DepSentence::new(vec![
        tok(Some("ADJ"), Some((2, Some("amod")))),
        tok(Some("VERB"), Some((0, Some("root")))),
        tok(Some("ADJ"), Some((4, Some("amod")))),
        tok(Some("NOUN"), Some((2, Some("obj")))),
    ])
    .unwrap()
}

#[test]
fn amod_of_verb_becomes_advmod() {
    let mut sent = example();
    assert_eq!(qualifying_relation(&sent, 1), Ok(Some(2)));
    assert_eq!(qualifying_relation(&sent, 2), Ok(None));
    assert_eq!(qualifying_relation(&sent, 3), Ok(None));
    replace_verb_amod_advmod(&mut sent).unwrap();
    assert_eq!(
        relations(&sent),
        vec![Some(s("advmod")), Some(s("root")), Some(s("amod")), Some(s("obj"))]
    );
    assert_eq!(sent.tokens()[0].head.as_ref().unwrap().head, 2);
}

#[test]
fn relabelling_twice_changes_nothing_more() {
    let mut sent = example();
    replace_verb_amod_advmod(&mut sent).unwrap();
    let once = relations(&sent);
    replace_verb_amod_advmod(&mut sent).unwrap();
    assert_eq!(relations(&sent), once);
}

#[test]
fn heads_must_be_nodes() {
    assert!(DepSentence::new(vec![tok(None, Some((2, None)))]).is_none());
    assert!(DepSentence::new(vec![tok(None, Some((1, None)))]).is_some());
}

#[test]
fn errors_name_the_token() {
    let mut sent = DepSentence::new(vec![
        tok(Some("ADJ"), Some((2, Some("amod")))),
        tok(Some("VERB"), None),
        tok(Some("ADJ"), Some((2, Some("amod")))),
    ])
    .unwrap();
    assert_eq!(replace_verb_amod_advmod(&mut sent), Err(DepError::NoHead(2)));
    // The token before the failing one was relabelled, the one after was not.
    assert_eq!(sent.tokens()[0].head.as_ref().unwrap().relation, Some(s("advmod")));
    assert_eq!(sent.tokens()[2].head.as_ref().unwrap().relation, Some(s("amod")));

    let sent = DepSentence::new(vec![tok(Some("ADJ"), Some((0, None)))]).unwrap();
    assert_eq!(qualifying_relation(&sent, 1), Err(DepError::NoRelation(1)));

    let sent = DepSentence::new(vec![tok(Some("ADJ"), Some((2, Some("amod")))), tok(None, Some((0, Some("root"))))])
        .unwrap();
    assert_eq!(qualifying_relation(&sent, 1), Err(DepError::NoUpos(1)));
}

#[test]
fn root_head_does_not_qualify() {
    let sent = DepSentence::new(vec![tok(Some("ADJ"), Some((0, Some("amod"))))]).unwrap();
    assert_eq!(qualifying_relation(&sent, 1), Ok(None));
}
