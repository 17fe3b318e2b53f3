use vstd::prelude::*;

use crate::controller::white_space;
use crate::words::{lemma_texts_push, texts_view};

verus! {

/// The lines of `t`: the text between line feeds, the last one possibly
/// empty.
pub open spec fn lines(t: Seq<char>) -> Seq<Seq<char>>
    decreases t.len(),
{
    if t.len() == 0 {
        seq![seq![]]
    } else {
        let before = lines(t.drop_last());
        if t.last() == '\n' {
            before.push(seq![])
        } else {
            before.update(before.len() - 1, before.last().push(t.last()))
        }
    }
}

/// A line without the carriage return that may end it.
pub open spec fn line_text(l: Seq<char>) -> Seq<char> {
    if l.len() > 0 && l.last() == '\r' {
        l.drop_last()
    } else {
        l
    }
}

/// Every character of `l` is white space; so is every empty line.
pub open spec fn blank(l: Seq<char>) -> bool {
    forall|i: int| 0 <= i < l.len() ==> white_space(#[trigger] l[i])
}

/// The words that `ls` gives: the text of each line that is not blank, in
/// order.
pub open spec fn words_of_lines(ls: Seq<Seq<char>>) -> Seq<Seq<char>>
    decreases ls.len(),
{
    if ls.len() == 0 {
        seq![]
    } else {
        let before = words_of_lines(ls.drop_last());
        let w = line_text(ls.last());
        if blank(w) {
            before
        } else {
            before.push(w)
        }
    }
}

/// The word list held in `t`: one word per line, blank lines left out.
pub open spec fn lexicon_of(t: Seq<char>) -> Seq<Seq<char>> {
    words_of_lines(lines(t))
}

/// Appends the text of `line` to `out` unless it is blank.
fn push_line(out: &mut Vec<String>, line: &str)
    ensures
        texts_view(final(out)@) == if blank(line_text(line@)) {
            texts_view(old(out)@)
        } else {
            texts_view(old(out)@).push(line_text(line@))
        },
{
    let n = line.unicode_len();
    let text = if n > 0 && line.get_char(n - 1) == '\r' {
        line.substring_char(0, n - 1)
    } else {
        line
    };
    assert(text@ == line_text(line@));
    let m = text.unicode_len();
    let mut i: usize = 0;
    while i < m
        invariant
            m == text@.len(),
            text@ == line_text(line@),
            out@ == old(out)@,
            i <= m,
            forall|k: int| 0 <= k < i ==> white_space(#[trigger] text@[k]),
        decreases m - i,
    {
        if !text.get_char(i).is_whitespace() {
            let ghost before = out@;
            let owned = text.to_owned();
            out.push(owned);
            proof {
                lemma_texts_push(before, owned);
                assert(!white_space(text@[i as int]));
                assert(!blank(line_text(line@)));
            }
            return;
        }
        i = i + 1;
    }
    assert(blank(line_text(line@)));
}

/// The word list held in `text`: one word per line (a carriage return
/// before the line feed is dropped), blank lines left out.
pub fn lexicon_from_text(text: &str) -> (r: Vec<String>)
    ensures
        texts_view(r@) == lexicon_of(text@),
{
    let n = text.unicode_len();
    let mut out: Vec<String> = Vec::new();
    let mut start: usize = 0;
    let mut i: usize = 0;
    let ghost mut done: Seq<Seq<char>> = seq![];
    proof {
        assert(text@.take(0) =~= seq![]);
        assert(text@.subrange(0, 0) =~= seq![]);
        assert(lines(text@.take(0)) =~= done.push(text@.subrange(0, 0)));
        assert(texts_view(out@) =~= seq![]);
    }
    while i < n
        invariant
            n == text@.len(),
            start <= i <= n,
            lines(text@.take(i as int)) == done.push(text@.subrange(start as int, i as int)),
            texts_view(out@) == words_of_lines(done),
        decreases n - i,
    {
        let c = text.get_char(i);
        let ghost cur = text@.subrange(start as int, i as int);
        proof {
            let t = text@.take(i + 1);
            assert(t.drop_last() =~= text@.take(i as int));
            assert(t.last() == c);
        }
        if c == '\n' {
            let line = text.substring_char(start, i);
            push_line(&mut out, line);
            proof {
                let grown = done.push(cur);
                assert(grown.drop_last() =~= done);
                assert(text@.subrange(i + 1, i + 1) =~= seq![]);
                assert(lines(text@.take(i + 1)) =~= grown.push(text@.subrange(i + 1, i + 1)));
                done = grown;
            }
            start = i + 1;
        } else {
            proof {
                assert(text@.subrange(start as int, i + 1) =~= cur.push(c));
                assert(lines(text@.take(i + 1)) =~= done.push(text@.subrange(start as int, i + 1)));
            }
        }
        i = i + 1;
    }
    let line = text.substring_char(start, n);
    push_line(&mut out, line);
    proof {
        let all = done.push(text@.subrange(start as int, n as int));
        assert(text@.take(n as int) =~= text@);
        assert(all.drop_last() =~= done);
    }
    out
}

} // verus!
