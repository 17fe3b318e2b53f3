use std::collections::VecDeque;

use fastfingers::{common_prefix, get_styled_string, get_styled_words, styled_word, Span, Style};

fn words(list: &[&str]) -> Vec<String> {
    list.iter().map(|w| w.to_string()).collect()
}

fn styled(text: &str, style: Style) -> Span {
    Span { text: text.to_string(), style: Some(style) }
}

fn plain(text: &str) -> Span {
    Span { text: text.to_string(), style: None }
}

#[test]
fn view_test_common_prefix() {
    let (prefix, suffix) = common_prefix("asdfgjk", "asfjkli");
    assert_eq!(prefix, "as");
    assert_eq!(suffix, "dfgjk");
}

#[test]
fn display_test_common_prefix() {
    let (prefix, suffix) = common_prefix("asdfgjk", "asfjkli");
    assert_eq!(prefix, "as");
    assert_eq!(suffix, "dfgjk");
}

#[test]
fn common_prefix_counts_characters_not_bytes() {
    let (prefix, suffix) = common_prefix("héllo", "hélp");
    assert_eq!(prefix, "hél");
    assert_eq!(suffix, "lo");
}

#[test]
fn common_prefix_edges() {
    assert_eq!(common_prefix("", "abc"), (String::new(), String::new()));
    assert_eq!(common_prefix("abc", ""), (String::new(), "abc".to_string()));
    assert_eq!(common_prefix("abc", "abc"), ("abc".to_string(), String::new()));
    assert_eq!(common_prefix("ab", "abcd"), ("ab".to_string(), String::new()));
}

fn pangram_rows() -> VecDeque<Vec<String>> {
    VecDeque::from(vec![words(&["sphinx", "of", "black"]), words(&["quartz", "judge"])])
}

fn pangram_expected() -> Vec<Span> {
    vec![
        styled("sphinx", Style::Correct),
        plain(" "),
        styled("of", Style::Correct),
        plain(" "),
        styled("bl", Style::Correct),
        styled("ack", Style::Incorrect),
        plain("\n"),
        styled("qu", Style::Correct),
        styled("artz", Style::Current),
        plain(" "),
        styled("judge", Style::Future),
    ]
}

#[test]
fn view_test_get_styled_string() {
    let history = words(&["sphinx", "off", "blk"]);
    let styled_string = get_styled_string(&pangram_rows(), &history, "qu");
    assert_eq!(styled_string, pangram_expected());
}

#[test]
fn display_test_get_styled_string() {
    let history = words(&["sphinx", "off", "blk"]);
    let styled_string = get_styled_string(&pangram_rows(), &history, "qu");
    assert_eq!(styled_string, pangram_expected());
}

#[test]
fn exact_entry_has_no_incorrect_run() {
    let history = words(&["quartz"]);
    let spans = styled_word("quartz", 0, &history, "");
    assert_eq!(spans, vec![styled("quartz", Style::Correct)]);
    assert!(spans.iter().all(|s| s.style != Some(Style::Incorrect)));
}

#[test]
fn short_entry_marks_missing_end_incorrect() {
    let history = words(&["bla"]);
    let spans = styled_word("black", 0, &history, "");
    assert_eq!(spans, vec![styled("bla", Style::Correct), styled("ck", Style::Incorrect)]);
}

#[test]
fn wrong_first_letter_is_all_incorrect() {
    let history = words(&["xyz"]);
    let spans = styled_word("abc", 0, &history, "");
    assert_eq!(spans, vec![styled("abc", Style::Incorrect)]);
}

#[test]
fn current_word_with_empty_entry_is_all_current() {
    let spans = styled_word("judge", 2, &words(&["a", "b"]), "");
    assert_eq!(spans, vec![styled("judge", Style::Current)]);
}

#[test]
fn styled_words_classify_by_position() {
    let list = words(&["ab", "cd", "ef"]);
    let result = get_styled_words(&list, &words(&["ab"]), "c");
    assert_eq!(
        result,
        vec![
            vec![styled("ab", Style::Correct)],
            vec![styled("c", Style::Correct), styled("d", Style::Current)],
            vec![styled("ef", Style::Future)],
        ]
    );
}

#[test]
fn empty_window_renders_nothing() {
    let rows: VecDeque<Vec<String>> = VecDeque::new();
    assert_eq!(get_styled_string(&rows, &[], ""), Vec::new());
}
