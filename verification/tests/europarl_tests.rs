use conll_tools::europarl::{
    get_attribute, Attribute, CorpusEvent, EuroParlReader, EuroParlToken, ParseError, PendingSentence,
    SentenceStep,
};

fn s(x: &str) -> String {
    x.to_string()
}

fn start(name: &str, attrs: &[(&str, &str)]) -> CorpusEvent {
    CorpusEvent::StartElement {
        name: s(name),
        attributes: attrs.iter().map(|(n, v)| Attribute { name: s(n), value: s(v) }).collect(),
    }
}

fn end(name: &str) -> CorpusEvent {
    CorpusEvent::EndElement { name: s(name) }
}

fn text(t: &str) -> CorpusEvent {
    CorpusEvent::Characters(s(t))
}

/// Feeds events until the sentence ends; the tokens, or the error.
fn read(reader: &mut EuroParlReader, events: &mut std::vec::IntoIter<CorpusEvent>) -> Result<Option<Vec<EuroParlToken>>, ParseError> {
    let mut pending = PendingSentence::new();
    for e in events.by_ref() {
        match reader.handle_event(&mut pending, &e)? {
            SentenceStep::Continue => {},
            SentenceStep::SentenceEnd => break,
        }
    }
    Ok(pending.into_tokens())
}

fn features(t: &EuroParlToken) -> Vec<(String, Option<String>)> {
    let mut v = t.features.entries().clone();
    v.sort();
    v
}

#[test]
fn attributes_by_name() {
    let attrs = vec![Attribute { name: s("ID"), value: s("1") }, Attribute { name: s("ID"), value: s("2") }];
    assert_eq!(get_attribute(&attrs, "ID"), Some("1"));
    assert_eq!(get_attribute(&attrs, "id"), None);
}

#[test]
fn sentences_with_chapter_speaker_and_paragraph() {
    let events = vec![
        start("CHAPTER", &[("ID", "3")]),
        start("SPEAKER", &[("ID", "12"), ("NAME", "X")]),
        start("P", &[("id", "p1")]),
        start("s", &[]),
        start("w", &[]),
        text("Guten"),
        end("w"),
        text(" ignored "),
        start("w", &[]),
        text("Tag"),
        text("!"),
        end("w"),
        end("s"),
        end("P"),
        start("s", &[]),
        start("w", &[]),
        text("Ja"),
        end("w"),
        end("s"),
        CorpusEvent::EndDocument,
    ];
    let mut it = events.into_iter();
    let mut reader = EuroParlReader::new(s("de"));
    let first = read(&mut reader, &mut it).unwrap().unwrap();
    assert_eq!(first.len(), 2);
    assert_eq!(first[0].form, "Guten");
    assert_eq!(first[1].form, "Tag!");
    assert_eq!(
        features(&first[0]),
        vec![
            (s("chapter"), Some(s("3"))),
            (s("para"), Some(s("p1"))),
            (s("speaker"), Some(s("12"))),
            (s("subcorpus"), Some(s("de"))),
        ]
    );
    let second = read(&mut reader, &mut it).unwrap().unwrap();
    assert_eq!(second.len(), 1);
    assert_eq!(
        features(&second[0]),
        vec![(s("chapter"), Some(s("3"))), (s("speaker"), Some(s("12"))), (s("subcorpus"), Some(s("de")))]
    );
    // The end of the document ends the reading with no sentence.
    assert!(read(&mut reader, &mut it).unwrap().is_none());
}

#[test]
fn word_without_text_is_an_error() {
    let events = vec![start("s", &[]), start("w", &[]), end("w"), end("s")];
    let mut it = events.into_iter();
    let mut reader = EuroParlReader::new(s("en"));
    assert!(matches!(read(&mut reader, &mut it), Err(ParseError::EmptyTokenError)));
}

#[test]
fn other_events_change_nothing() {
    let mut reader = EuroParlReader::new(s("en"));
    let mut pending = PendingSentence::new();
    assert_eq!(reader.handle_event(&mut pending, &CorpusEvent::Other).unwrap(), SentenceStep::Continue);
    assert_eq!(reader.handle_event(&mut pending, &text("x")).unwrap(), SentenceStep::Continue);
    assert!(pending.form.is_empty());
    assert!(pending.into_tokens().is_none());
    assert!(reader.chap_id.is_none());
}

#[test]
fn closing_elements_forget_ids() {
    let mut reader = EuroParlReader::new(s("en"));
    let mut pending = PendingSentence::new();
    reader.handle_event(&mut pending, &start("CHAPTER", &[("ID", "1")])).unwrap();
    assert_eq!(reader.chap_id, Some(s("1")));
    reader.handle_event(&mut pending, &end("CHAPTER")).unwrap();
    assert_eq!(reader.chap_id, None);
    reader.handle_event(&mut pending, &start("CHAPTER", &[])).unwrap();
    assert_eq!(reader.chap_id, None);
}
