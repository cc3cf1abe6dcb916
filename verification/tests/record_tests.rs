use vocab_trainer::record::Entry;

#[test]
fn parse_single_phrase_preserves_whitespace() {
    let e = Entry::parse("cat / a small domesticated feline /").unwrap();
    assert_eq!(e.term, "cat");
    assert_eq!(e.phrases.len(), 1);
    assert_eq!(e.phrases[0].body, " a small domesticated feline ");
    assert_eq!(e.phrases[0].comment, "");
}

#[test]
fn parse_two_phrases_with_comments() {
    let e = Entry::parse("run / to move fast ;informal/ to manage ;business/").unwrap();
    assert_eq!(e.term, "run");
    assert_eq!(e.phrases.len(), 2);
    assert_eq!(e.phrases[0].body, " to move fast ");
    assert_eq!(e.phrases[0].comment, "informal");
    assert_eq!(e.phrases[1].body, " to manage ");
    assert_eq!(e.phrases[1].comment, "business");
    assert!(!e.phrases[0].comment.is_empty());
    assert!(!e.phrases[1].comment.is_empty());
}

#[test]
fn parse_empty_line_yields_nothing() {
    assert!(Entry::parse("").is_none());
}

#[test]
fn parse_comment_line_yields_nothing() {
    assert!(Entry::parse("; just a remark").is_none());
    assert!(Entry::parse(";").is_none());
}

#[test]
fn parse_term_keeps_internal_spaces() {
    let e = Entry::parse("ice cream / a frozen dessert /").unwrap();
    assert_eq!(e.term, "ice cream");
    assert_eq!(e.phrases.len(), 1);
    assert_eq!(e.phrases[0].body, " a frozen dessert ");
}

#[test]
fn parse_without_separator_gives_bare_term() {
    let e = Entry::parse("word").unwrap();
    assert_eq!(e.term, "word");
    assert!(e.phrases.is_empty());
}

#[test]
fn parse_drops_unclosed_phrase() {
    let e = Entry::parse("dog / an animal / loyal companion").unwrap();
    assert_eq!(e.term, "dog");
    assert_eq!(e.phrases.len(), 1);
    assert_eq!(e.phrases[0].body, " an animal ");
}

#[test]
fn parse_second_semicolon_is_literal_comment_content() {
    let e = Entry::parse("sum / total ;see: add; figures/").unwrap();
    assert_eq!(e.term, "sum");
    assert_eq!(e.phrases.len(), 1);
    assert_eq!(e.phrases[0].body, " total ");
    assert_eq!(e.phrases[0].comment, "see: add; figures");
}

#[test]
fn parse_empty_term_yields_nothing() {
    assert!(Entry::parse(" / x/").is_none());
    assert!(Entry::parse(" /").is_none());
}

#[test]
fn parse_slash_without_space_stays_in_term() {
    let e = Entry::parse("a/b").unwrap();
    assert_eq!(e.term, "a/b");
    assert!(e.phrases.is_empty());
}

#[test]
fn parse_empty_phrase() {
    let e = Entry::parse("dog //").unwrap();
    assert_eq!(e.term, "dog");
    assert_eq!(e.phrases.len(), 1);
    assert_eq!(e.phrases[0].body, "");
    assert_eq!(e.phrases[0].comment, "");
}

#[test]
fn parse_entries_skips_blank_and_comment_lines() {
    let lines = vec![
        String::from("dog / an animal /"),
        String::from(""),
        String::from("; a remark"),
        String::from("cat / a feline /"),
    ];
    let entries = vocab_trainer::record::parse_entries(&lines);
    assert_eq!(entries.len(), 2);
    assert_eq!(entries[0].term, "dog");
    assert_eq!(entries[1].term, "cat");
}
