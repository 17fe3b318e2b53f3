use std::collections::VecDeque;
use vstd::prelude::*;

use crate::model::Model;
use crate::source::WordSource;
use crate::words::{concat, flatten_rows, lemma_concat_index, rows_view, texts_view};

verus! {

/// The length of the longest common prefix of `a` and `b`, counted from
/// position `i` on, where the first `i` characters are taken to agree.
pub open spec fn common_prefix_from(a: Seq<char>, b: Seq<char>, i: nat) -> nat
    decreases a.len() - i,
{
    if i < a.len() && i < b.len() && a[i as int] == b[i as int] {
        common_prefix_from(a, b, i + 1)
    } else {
        i
    }
}

/// The number of leading characters on which `a` and `b` agree.
pub open spec fn common_prefix_len(a: Seq<char>, b: Seq<char>) -> nat {
    common_prefix_from(a, b, 0)
}

/// Splits `s1` after the characters it shares with `s2` from the start:
/// returns that common prefix and the rest of `s1`.
pub fn common_prefix(s1: &str, s2: &str) -> (r: (String, String))
    ensures
        r.0@ == s1@.take(common_prefix_len(s1@, s2@) as int),
        r.1@ == s1@.skip(common_prefix_len(s1@, s2@) as int),
{
    let n1 = s1.unicode_len();
    let n2 = s2.unicode_len();
    let mut i: usize = 0;
    while i < n1 && i < n2 && s1.get_char(i) == s2.get_char(i)
        invariant
            n1 == s1@.len(),
            n2 == s2@.len(),
            i <= n1,
            i <= n2,
            common_prefix_from(s1@, s2@, i as nat) == common_prefix_len(s1@, s2@),
        decreases n1 - i,
    {
        i = i + 1;
    }
    let prefix = s1.substring_char(0, i).to_owned();
    let suffix = s1.substring_char(i, n1).to_owned();
    (prefix, suffix)
}

/// How a run of characters is shown: as typed correctly, as typed wrongly or
/// left out, as the rest of the word being typed, or as a word still ahead.
#[derive(Clone, Copy, Debug, PartialEq, Eq, Structural)]
pub enum Style {
    Correct,
    Incorrect,
    Current,
    Future,
}

/// A run of text with its style; separators between words and rows carry
/// no style.
#[derive(Clone, Debug, PartialEq, Eq)]
pub struct Span {
    pub text: String,
    pub style: Option<Style>,
}

impl View for Span {
    type V = (Seq<char>, Option<Style>);

    open spec fn view(&self) -> (Seq<char>, Option<Style>) {
        (self.text@, self.style)
    }
}

pub open spec fn spans_view(v: Seq<Span>) -> Seq<(Seq<char>, Option<Style>)> {
    v.map_values(|s: Span| s@)
}

/// A styled run of `text`, or nothing when `text` is empty.
pub open spec fn run(text: Seq<char>, style: Style) -> Seq<(Seq<char>, Option<Style>)> {
    if text.len() == 0 {
        seq![]
    } else {
        seq![(text, Some(style))]
    }
}

/// The runs that show the word `expected` at flattened position `pos`.
/// A word already committed is compared with its entry in `history`: the
/// shared prefix is correct, the rest of the word incorrect. The word being
/// typed is compared with `entry`: the shared prefix is correct, the rest is
/// current. A word further on is all future.
pub open spec fn word_spans(
    expected: Seq<char>,
    pos: int,
    history: Seq<Seq<char>>,
    entry: Seq<char>,
) -> Seq<(Seq<char>, Option<Style>)> {
    if pos < history.len() {
        let k = common_prefix_len(expected, history[pos]) as int;
        run(expected.take(k), Style::Correct) + run(expected.skip(k), Style::Incorrect)
    } else if pos == history.len() {
        let k = common_prefix_len(expected, entry) as int;
        run(expected.take(k), Style::Correct) + run(expected.skip(k), Style::Current)
    } else {
        run(expected, Style::Future)
    }
}

proof fn lemma_spans_push(v: Seq<Span>, s: Span)
    ensures
        spans_view(v.push(s)) == spans_view(v).push(s@),
{
    assert(spans_view(v.push(s)) =~= spans_view(v).push(s@));
}

fn copy_span(s: &Span) -> (r: Span)
    ensures
        r@ == s@,
{
    Span { text: s.text.clone(), style: s.style }
}

/// Appends to `spans` a run of `text` in `style`, unless `text` is empty.
fn push_run(spans: &mut Vec<Span>, text: String, style: Style)
    ensures
        spans_view(final(spans)@) == spans_view(old(spans)@) + run(text@, style),
{
    if text.as_str().unicode_len() == 0 {
        assert(spans_view(spans@) =~= spans_view(spans@) + run(text@, style));
    } else {
        let ghost before = spans@;
        let span = Span { text, style: Some(style) };
        spans.push(span);
        proof {
            lemma_spans_push(before, span);
            assert(spans_view(before).push(span@) =~= spans_view(before) + run(text@, style));
        }
    }
}

/// Appends copies of `more` to `spans`.
fn append_spans(spans: &mut Vec<Span>, more: &Vec<Span>)
    ensures
        spans_view(final(spans)@) == spans_view(old(spans)@) + spans_view(more@),
{
    let ghost start = spans@;
    let mut i: usize = 0;
    while i < more.len()
        invariant
            i <= more.len(),
            spans_view(spans@) == spans_view(start) + spans_view(more@.take(i as int)),
        decreases more.len() - i,
    {
        let ghost before = spans@;
        let s = copy_span(&more[i]);
        spans.push(s);
        proof {
            lemma_spans_push(before, s);
            assert(more@.take(i + 1) =~= more@.take(i as int).push(more@[i as int]));
            lemma_spans_push(more@.take(i as int), more@[i as int]);
        }
        i = i + 1;
    }
    assert(more@.take(i as int) =~= more@);
}

/// The styled runs of the word `expected` at flattened position `pos`.
pub fn styled_word(expected: &str, pos: usize, history: &[String], current_entry: &str) -> (r: Vec<
    Span,
>)
    ensures
        spans_view(r@) == word_spans(expected@, pos as int, texts_view(history@), current_entry@),
{
    let mut spans: Vec<Span> = Vec::new();
    proof {
        assert(spans_view(spans@) =~= seq![]);
    }
    if pos < history.len() {
        let (prefix, suffix) = common_prefix(expected, history[pos].as_str());
        push_run(&mut spans, prefix, Style::Correct);
        push_run(&mut spans, suffix, Style::Incorrect);
    } else if pos == history.len() {
        let (prefix, suffix) = common_prefix(expected, current_entry);
        push_run(&mut spans, prefix, Style::Correct);
        push_run(&mut spans, suffix, Style::Current);
    } else {
        push_run(&mut spans, expected.to_owned(), Style::Future);
    }
    spans
}

/// Styles every word of `words` against `history` and the entry being typed:
/// the word at position `i` gets `word_spans(words[i], i, ...)`.
pub fn get_styled_words(words: &[String], history: &[String], current_entry: &str) -> (r: Vec<
    Vec<Span>,
>)
    ensures
        r@.len() == words@.len(),
        forall|i: int|
            0 <= i < words@.len() ==> spans_view(#[trigger] r@[i]@) == word_spans(
                words@[i]@,
                i,
                texts_view(history@),
                current_entry@,
            ),
{
    let mut styled: Vec<Vec<Span>> = Vec::new();
    let mut pos: usize = 0;
    while pos < words.len()
        invariant
            pos <= words@.len(),
            styled@.len() == pos,
            forall|i: int|
                0 <= i < pos ==> spans_view(#[trigger] styled@[i]@) == word_spans(
                    words@[i]@,
                    i,
                    texts_view(history@),
                    current_entry@,
                ),
        decreases words.len() - pos,
    {
        let spans = styled_word(words[pos].as_str(), pos, history, current_entry);
        styled.push(spans);
        pos = pos + 1;
    }
    styled
}


/// The unstyled text between two words of a row.
pub open spec fn word_separator() -> (Seq<char>, Option<Style>) {
    (seq![' '], None)
}

/// The unstyled text between two rows.
pub open spec fn row_separator() -> (Seq<char>, Option<Style>) {
    (seq!['\n'], None)
}

/// The runs of one row whose first word stands at flattened position
/// `first`: its words' runs, with a word separator between neighbours.
pub open spec fn row_spans(
    row: Seq<Seq<char>>,
    first: int,
    history: Seq<Seq<char>>,
    entry: Seq<char>,
) -> Seq<(Seq<char>, Option<Style>)>
    decreases row.len(),
{
    if row.len() == 0 {
        seq![]
    } else {
        let n = row.len() - 1;
        row_spans(row.drop_last(), first, history, entry) + (if n > 0 {
            seq![word_separator()]
        } else {
            seq![]
        }) + word_spans(row.last(), first + n, history, entry)
    }
}

/// The runs of a whole window: each row's runs, with a row separator
/// between neighbouring rows.
pub open spec fn rendered(
    rows: Seq<Seq<Seq<char>>>,
    history: Seq<Seq<char>>,
    entry: Seq<char>,
) -> Seq<(Seq<char>, Option<Style>)>
    decreases rows.len(),
{
    if rows.len() == 0 {
        seq![]
    } else {
        let n = rows.len() - 1;
        rendered(rows.drop_last(), history, entry) + (if n > 0 {
            seq![row_separator()]
        } else {
            seq![]
        }) + row_spans(rows.last(), concat(rows.drop_last()).len() as int, history, entry)
    }
}

fn push_separator(spans: &mut Vec<Span>, text: &str, sep: Ghost<(Seq<char>, Option<Style>)>)
    requires
        sep@ == (text@, None::<Style>),
    ensures
        spans_view(final(spans)@) == spans_view(old(spans)@).push(sep@),
{
    let ghost before = spans@;
    let span = Span { text: text.to_owned(), style: None };
    spans.push(span);
    proof {
        lemma_spans_push(before, span);
    }
}

/// Lays out the styled words of `rows` against `history` and the entry being
/// typed, keeping the rows exactly as given: words of a row are separated by
/// a space, rows by a line break.
pub fn get_styled_string(rows: &VecDeque<Vec<String>>, history: &[String], current_entry: &str) -> (r:
    Vec<Span>)
    ensures
        spans_view(r@) == rendered(rows_view(rows@), texts_view(history@), current_entry@),
{
    let words = flatten_rows(rows);
    let styled = get_styled_words(words.as_slice(), history, current_entry);
    let nwords = words.len();
    let ghost all = rows_view(rows@);
    let ghost h = texts_view(history@);
    let ghost e = current_entry@;
    let mut out: Vec<Span> = Vec::new();
    let mut pos: usize = 0;
    let mut i: usize = 0;
    proof {
        assert(spans_view(out@) =~= seq![]);
        reveal_strlit(" ");
        reveal_strlit("\n");
    }
    while i < rows.len()
        invariant
            i <= rows@.len(),
            all == rows_view(rows@),
            texts_view(words@) == concat(all),
            nwords == words@.len(),
            styled@.len() == words@.len(),
            forall|k: int|
                0 <= k < words@.len() ==> spans_view(#[trigger] styled@[k]@) == word_spans(
                    words@[k]@,
                    k,
                    h,
                    e,
                ),
            h == texts_view(history@),
            e == current_entry@,
            pos == concat(all.take(i as int)).len(),
            spans_view(out@) == rendered(all.take(i as int), h, e),
            " "@ == seq![' '],
            "\n"@ == seq!['\n'],
        decreases rows.len() - i,
    {
        let ghost start = pos as int;
        let ghost head = spans_view(out@);
        if i > 0 {
            push_separator(&mut out, "\n", Ghost(row_separator()));
        }
        let ghost lead = spans_view(out@);
        let row = &rows[i];
        let mut j: usize = 0;
        proof {
            assert(row_spans(all[i as int].take(0), start, h, e) =~= seq![]);
            assert(lead =~= lead + row_spans(all[i as int].take(0), start, h, e));
        }
        while j < row.len()
            invariant
                i < rows@.len(),
                row == rows@[i as int],
                all == rows_view(rows@),
                all[i as int] == texts_view(row@),
                j <= row@.len(),
                texts_view(words@) == concat(all),
                nwords == words@.len(),
                styled@.len() == words@.len(),
                forall|k: int|
                    0 <= k < words@.len() ==> spans_view(#[trigger] styled@[k]@) == word_spans(
                        words@[k]@,
                        k,
                        h,
                        e,
                    ),
                start == concat(all.take(i as int)).len(),
                pos == start + j,
                spans_view(out@) == lead + row_spans(all[i as int].take(j as int), start, h, e),
                " "@ == seq![' '],
            decreases row.len() - j,
        {
            proof {
                lemma_concat_index(all, i as int, j as int);
                assert(texts_view(words@).len() == words@.len());
            }
            let ghost mid = spans_view(out@);
            if j > 0 {
                push_separator(&mut out, " ", Ghost(word_separator()));
            }
            let ghost sep_done = spans_view(out@);
            append_spans(&mut out, &styled[pos]);
            proof {
                let taken = all[i as int].take(j + 1);
                assert(taken.drop_last() =~= all[i as int].take(j as int));
                assert(taken.last() == all[i as int][j as int]);
                assert(words@[pos as int]@ == concat(all)[pos as int]);
                if j > 0 {
                    assert(sep_done == mid + seq![word_separator()]);
                } else {
                    assert(sep_done =~= mid + seq![]);
                }
                assert(spans_view(out@) =~= lead + row_spans(taken, start, h, e));
            }
            pos = pos + 1;
            j = j + 1;
        }
        proof {
            let upto = all.take(i + 1);
            assert(all[i as int].take(j as int) =~= all[i as int]);
            assert(upto.drop_last() =~= all.take(i as int));
            assert(upto.last() == all[i as int]);
            assert(concat(upto) == concat(all.take(i as int)) + all[i as int]);
            if i > 0 {
                assert(lead == head + seq![row_separator()]);
            } else {
                assert(lead =~= head + seq![]);
            }
            assert(spans_view(out@) =~= rendered(upto, h, e));
        }
        i = i + 1;
    }
    proof {
        assert(all.take(i as int) =~= all);
    }
    out
}


proof fn lemma_common_prefix_with_itself(a: Seq<char>, i: nat)
    requires
        i <= a.len(),
    ensures
        common_prefix_from(a, a, i) == a.len(),
    decreases a.len() - i,
{
    if i < a.len() {
        lemma_common_prefix_with_itself(a, i + 1);
    }
}

/// A committed word whose entry is exactly the expected word is shown as a
/// single correct run (no run at all for an empty word): none of its
/// characters is styled incorrect.
pub proof fn lemma_exact_entry_is_correct(
    expected: Seq<char>,
    pos: int,
    history: Seq<Seq<char>>,
    entry: Seq<char>,
)
    requires
        0 <= pos < history.len(),
        history[pos] == expected,
    ensures
        word_spans(expected, pos, history, entry) == run(expected, Style::Correct),
        forall|k: int|
            0 <= k < word_spans(expected, pos, history, entry).len() ==> (#[trigger] word_spans(
                expected,
                pos,
                history,
                entry,
            )[k]).1 == Some(Style::Correct),
{
    lemma_common_prefix_with_itself(expected, 0);
    assert(expected.take(expected.len() as int) =~= expected);
    assert(expected.skip(expected.len() as int) =~= seq![]);
    assert(word_spans(expected, pos, history, entry) =~= run(expected, Style::Correct));
}


/// The styled window of a session while `current_word` is being typed.
pub fn get_styled_display<S: WordSource>(model: &Model<S>, current_word: &str) -> (r: Vec<Span>)
    ensures
        spans_view(r@) == rendered(model.rows(), model.history(), current_word@),
{
    let rows = model.get_rows();
    let history = model.get_history();
    get_styled_string(rows, history.as_slice(), current_word)
}

} // verus!
