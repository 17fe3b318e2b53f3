use fastfingers::lexicon_from_text;

#[test]
fn one_word_per_line() {
    assert_eq!(lexicon_from_text("the\nof\nand\n"), vec!["the", "of", "and"]);
}

#[test]
fn blank_lines_are_left_out() {
    assert_eq!(
        lexicon_from_text("a\n\nb\r\n  \t\nc"),
        vec!["a".to_string(), "b".to_string(), "c".to_string()]
    );
}

#[test]
fn empty_text_gives_no_words() {
    assert!(lexicon_from_text("").is_empty());
    assert!(lexicon_from_text("\n\r\n \n").is_empty());
}
