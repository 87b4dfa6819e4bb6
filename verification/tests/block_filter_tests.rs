use conll_tools::block_filter::{contains_char, BlockFilter};

#[test]
fn replacement_characters_drop_blocks() {
    let f = BlockFilter::new(false, true).unwrap();
    assert_eq!(f.filter_line("bad \u{FFFD} block"), None);
    assert_eq!(f.filter_line("good <b>block</b>"), Some("good <b>block</b>".to_string()));
}

#[test]
fn without_options_everything_passes() {
    let f = BlockFilter::new(false, false).unwrap();
    assert_eq!(f.filter_line("x \u{FFFD} <br/>"), Some("x \u{FFFD} <br/>".to_string()));
}

#[test]
fn line_breaks_become_spaces() {
    let f = BlockFilter::new(true, false).unwrap();
    assert_eq!(f.filter_line("one<br>two<br/>three<br  />"), Some("one two three ".to_string()));
    assert_eq!(f.filter_line("a < b"), Some("a < b".to_string()));
}

#[test]
fn html_tags_drop_blocks() {
    let f = BlockFilter::new(true, true).unwrap();
    assert_eq!(f.filter_line("some <b>bold</b> text"), None);
    assert_eq!(f.filter_line("a <img src=x.png> b"), None);
    assert_eq!(f.filter_line("self <closing/> tag"), None);
    assert_eq!(f.filter_line("only closing </p"), None);
    assert_eq!(f.filter_line("x \u{FFFD}"), None);
    assert_eq!(f.filter_line("plain text"), Some("plain text".to_string()));
}

#[test]
fn finds_characters() {
    assert!(contains_char("ab\u{FFFD}", '\u{FFFD}'));
    assert!(!contains_char("", 'a'));
}
