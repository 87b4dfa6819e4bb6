use conll_tools::tag_split::{split_tag, split_token_tags, SplitError};
use conll_tools::token::ConllxToken;

fn s(x: &str) -> String {
    x.to_string()
}

#[test]
fn split_at_first_separator() {
    assert_eq!(split_tag("NOUN-NN"), Some((s("NOUN"), s("NN"))));
    assert_eq!(split_tag("PUNCT-$("), Some((s("PUNCT"), s("$("))));
    assert_eq!(split_tag("A-B-C"), Some((s("A"), s("B-C"))));
    assert_eq!(split_tag("-X"), Some((s(""), s("X"))));
    assert_eq!(split_tag("NOUN"), None);
}

#[test]
fn token_tags_are_split() {
    let mut t = ConllxToken { form: s("Haus"), cpos: None, pos: Some(s("NOUN-NN")), features: None };
    split_token_tags(&mut t).unwrap();
    assert_eq!(t.cpos, Some(s("NOUN")));
    assert_eq!(t.pos, Some(s("NN")));
}

#[test]
fn tag_without_separator_is_an_error() {
    let mut t = ConllxToken { form: s("Haus"), cpos: Some(s("c")), pos: Some(s("NN")), features: None };
    assert_eq!(split_token_tags(&mut t), Err(SplitError::TagWithoutSeparator));
    assert_eq!(t.cpos, Some(s("c")));
    assert_eq!(t.pos, Some(s("NN")));
}

#[test]
fn token_without_tag_is_untouched() {
    let mut t = ConllxToken { form: s("Haus"), cpos: Some(s("c")), pos: None, features: None };
    split_token_tags(&mut t).unwrap();
    assert_eq!(t.cpos, Some(s("c")));
    assert_eq!(t.pos, None);
}
