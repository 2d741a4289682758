use lichen::ingestor::{is_whole_match, Ingestor};

#[test]
fn without_a_filter_every_file_is_read() {
    let ingestor = Ingestor::new();
    assert_eq!(ingestor.admits(Some("main.c")).unwrap(), true);
    assert_eq!(ingestor.admits(Some("")).unwrap(), true);
    assert_eq!(ingestor.admits(None).unwrap(), true);
}

#[test]
fn a_filter_has_to_match_the_whole_name() {
    let mut ingestor = Ingestor::new();
    assert!(ingestor.set_filter(r".*\.c").is_ok());
    assert_eq!(ingestor.admits(Some("main.c")).unwrap(), true);
    assert_eq!(ingestor.admits(Some(".c")).unwrap(), true);
    assert_eq!(ingestor.admits(Some("main.cpp")).unwrap(), false);
    assert_eq!(ingestor.admits(Some("main.h")).unwrap(), false);
    assert_eq!(ingestor.admits(Some("")).unwrap(), false);
}

#[test]
fn a_filter_is_anchored_at_both_ends() {
    let mut ingestor = Ingestor::new();
    assert!(ingestor.set_filter("a.c").is_ok());
    assert_eq!(ingestor.admits(Some("abc")).unwrap(), true);
    assert_eq!(ingestor.admits(Some("a.c")).unwrap(), true);
    assert_eq!(ingestor.admits(Some("xabc")).unwrap(), false);
    assert_eq!(ingestor.admits(Some("abcd")).unwrap(), false);
    assert_eq!(ingestor.admits(Some("a.c")).unwrap(), true);
}

#[test]
fn a_filter_counts_bytes_not_characters() {
    let mut ingestor = Ingestor::new();
    assert!(ingestor.set_filter("h.llo").is_ok());
    assert_eq!(ingestor.admits(Some("h\u{e9}llo")).unwrap(), true);
    assert_eq!(ingestor.admits(Some("h\u{e9}llo!")).unwrap(), false);
}

#[test]
fn a_file_without_a_name_is_read() {
    let mut ingestor = Ingestor::new();
    assert!(ingestor.set_filter("nothing").is_ok());
    assert_eq!(ingestor.admits(None).unwrap(), true);
    assert_eq!(ingestor.admits(Some("something")).unwrap(), false);
}

#[test]
fn a_pattern_that_does_not_compile_is_refused() {
    let mut ingestor = Ingestor::new();
    let error = ingestor.set_filter("(unclosed").unwrap_err();
    assert!(error.code < 0);
    assert!(!error.description.is_empty());
    assert_eq!(ingestor.admits(Some("anything")).unwrap(), true);
}

#[test]
fn a_refused_pattern_leaves_the_filter_as_it_was() {
    let mut ingestor = Ingestor::new();
    assert!(ingestor.set_filter("[ab]+").is_ok());
    assert!(ingestor.set_filter("[ab").is_err());
    assert_eq!(ingestor.admits(Some("abba")).unwrap(), true);
    assert_eq!(ingestor.admits(Some("abc")).unwrap(), false);
}

#[test]
fn a_new_filter_replaces_the_old_one() {
    let mut ingestor = Ingestor::new();
    assert!(ingestor.set_filter("a+").is_ok());
    assert!(ingestor.set_filter("b+").is_ok());
    assert_eq!(ingestor.admits(Some("aa")).unwrap(), false);
    assert_eq!(ingestor.admits(Some("bb")).unwrap(), true);
}

#[test]
fn a_match_is_whole_when_it_covers_every_byte() {
    assert!(is_whole_match(Some(5), 5));
    assert!(is_whole_match(Some(0), 0));
    assert!(!is_whole_match(Some(4), 5));
    assert!(!is_whole_match(Some(6), 5));
    assert!(!is_whole_match(None, 5));
    assert!(!is_whole_match(None, 0));
}

#[test]
fn a_match_that_the_engine_gives_up_on_is_an_error() {
    let mut ingestor = Ingestor::new();
    assert!(ingestor.set_filter("(a+)+b").is_ok());
    let name = "a".repeat(64);
    let error = ingestor.admits(Some(&name)).unwrap_err();
    assert!(error.code < 0);
    assert!(!error.description.is_empty());
}

#[test]
fn a_refused_pattern_is_reported_as_the_engine_reports_it() {
    let mut ingestor = Ingestor::new();
    let error = ingestor.set_filter("(unclosed").unwrap_err();
    let expected = onig::Regex::new("(unclosed").unwrap_err();
    assert_eq!(error.code, expected.code());
    assert_eq!(error.description, expected.description());
    assert_eq!(error.code, -117);
    assert_eq!(error.description, "end pattern with unmatched parenthesis");
    let other = ingestor.set_filter("a**{").map(|_| 0).unwrap_or_else(|e| e.code);
    assert_eq!(other, onig::Regex::new("a**{").map(|_| 0).unwrap_or_else(|e| e.code()));
}
