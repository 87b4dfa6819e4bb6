use conll_tools::dedup::{dedup_lines, LineDeduper};

fn v(xs: &[&str]) -> Vec<String> {
    xs.iter().map(|x| x.to_string()).collect()
}

#[test]
fn repeated_lines_are_dropped() {
    assert_eq!(dedup_lines(&v(&["a", "b", "a", "c", "b", ""])), v(&["a", "b", "c", ""]));
    assert_eq!(dedup_lines(&v(&[])), v(&[]));
}

#[test]
fn deduplicating_twice_changes_nothing_more() {
    let once = dedup_lines(&v(&["x", "y", "x", "x", "z", "y"]));
    assert_eq!(dedup_lines(&once), once);
}

#[test]
fn deduper_tells_new_lines() {
    let mut d = LineDeduper::new();
    assert!(d.insert_line("a"));
    assert!(d.insert_line("b"));
    assert!(!d.insert_line("a"));
    assert!(d.insert_line("a "));
}
