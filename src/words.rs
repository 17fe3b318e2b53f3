use std::collections::VecDeque;
use vstd::prelude::*;

verus! {

/// The characters of each string.
pub open spec fn texts_view(v: Seq<String>) -> Seq<Seq<char>> {
    v.map_values(|s: String| s@)
}

/// `w` is one of the words of `lexicon`.
pub open spec fn in_lexicon(w: Seq<char>, lexicon: Seq<Seq<char>>) -> bool {
    exists|j: int| 0 <= j < lexicon.len() && #[trigger] lexicon[j] == w
}

/// The characters of each word of each row.
pub open spec fn rows_view(rows: Seq<Vec<String>>) -> Seq<Seq<Seq<char>>> {
    rows.map_values(|r: Vec<String>| texts_view(r@))
}

/// The words of all rows, in order.
pub open spec fn concat(rows: Seq<Seq<Seq<char>>>) -> Seq<Seq<char>>
    decreases rows.len(),
{
    if rows.len() == 0 {
        seq![]
    } else {
        concat(rows.drop_last()) + rows.last()
    }
}

pub proof fn lemma_texts_push(v: Seq<String>, s: String)
    ensures
        texts_view(v.push(s)) == texts_view(v).push(s@),
{
    assert(texts_view(v.push(s)) =~= texts_view(v).push(s@));
}

/// The words of the first `k` rows come first among the words of all rows.
pub proof fn lemma_concat_prefix(rows: Seq<Seq<Seq<char>>>, k: int)
    requires
        0 <= k <= rows.len(),
    ensures
        concat(rows.take(k)).len() <= concat(rows).len(),
        concat(rows).take(concat(rows.take(k)).len() as int) == concat(rows.take(k)),
    decreases rows.len(),
{
    if k == rows.len() {
        assert(rows.take(k) =~= rows);
        assert(concat(rows).take(concat(rows).len() as int) =~= concat(rows));
    } else {
        let front = rows.drop_last();
        assert(front.take(k) =~= rows.take(k));
        lemma_concat_prefix(front, k);
        let n = concat(rows.take(k)).len() as int;
        assert(concat(rows).take(n) =~= concat(front).take(n));
    }
}

/// Where the word at column `j` of row `i` stands among the words of all rows.
pub proof fn lemma_concat_index(rows: Seq<Seq<Seq<char>>>, i: int, j: int)
    requires
        0 <= i < rows.len(),
        0 <= j < rows[i].len(),
    ensures
        concat(rows.take(i)).len() + j < concat(rows).len(),
        concat(rows)[concat(rows.take(i)).len() + j] == rows[i][j],
{
    lemma_concat_prefix(rows, i + 1);
    let upto = rows.take(i + 1);
    assert(upto.drop_last() =~= rows.take(i));
    assert(concat(upto) == concat(rows.take(i)) + rows[i]);
    let n = concat(upto).len() as int;
    assert(concat(rows).take(n)[concat(rows.take(i)).len() + j] == concat(rows)[concat(
        rows.take(i),
    ).len() + j]);
}

/// The words of all rows are the first row's words, then those of the rest.
pub proof fn lemma_concat_first(rows: Seq<Seq<Seq<char>>>)
    requires
        rows.len() >= 1,
    ensures
        concat(rows) == rows[0] + concat(rows.drop_first()),
    decreases rows.len(),
{
    if rows.len() == 1 {
        assert(rows.drop_last() =~= seq![]);
        assert(rows.drop_first() =~= seq![]);
        assert(concat(rows) =~= rows[0] + concat(rows.drop_first()));
    } else {
        let front = rows.drop_last();
        lemma_concat_first(front);
        assert(front.drop_first() =~= rows.drop_first().drop_last());
        assert(rows.drop_first().last() == rows.last());
        assert(concat(rows) =~= rows[0] + concat(rows.drop_first()));
    }
}

/// `s` ends with `t`.
pub open spec fn ends_with<A>(s: Seq<A>, t: Seq<A>) -> bool {
    t.len() <= s.len() && s.skip(s.len() - t.len()) == t
}

pub proof fn lemma_ends_with_extend<A>(s: Seq<A>, a: Seq<A>, b: Seq<A>, c: Seq<A>)
    requires
        ends_with(s, a + b),
    ensures
        ends_with(s + c, b + c),
{
    let n = s.len() - b.len();
    assert(s.skip(s.len() - (a + b).len()).skip(a.len() as int) =~= s.skip(n));
    assert((a + b).skip(a.len() as int) =~= b);
    assert((s + c).skip((s + c).len() - (b + c).len()) =~= s.skip(n) + c);
}

/// All words of `rows`, row after row.
pub fn flatten_rows(rows: &VecDeque<Vec<String>>) -> (r: Vec<String>)
    ensures
        texts_view(r@) == concat(rows_view(rows@)),
{
    let mut words: Vec<String> = Vec::new();
    let mut i: usize = 0;
    assert(texts_view(words@) =~= seq![]);
    while i < rows.len()
        invariant
            i <= rows@.len(),
            texts_view(words@) == concat(rows_view(rows@).take(i as int)),
        decreases rows.len() - i,
    {
        let row = &rows[i];
        let ghost done = concat(rows_view(rows@).take(i as int));
        let mut j: usize = 0;
        while j < row.len()
            invariant
                i < rows@.len(),
                row == rows@[i as int],
                j <= row@.len(),
                texts_view(words@) == done + texts_view(row@).take(j as int),
            decreases row.len() - j,
        {
            let ghost before = words@;
            let w = row[j].clone();
            words.push(w);
            proof {
                lemma_texts_push(before, w);
                assert(texts_view(row@).take(j + 1) =~= texts_view(row@).take(j as int).push(
                    row@[j as int]@,
                ));
            }
            j = j + 1;
        }
        proof {
            let all = rows_view(rows@);
            assert(texts_view(row@).take(j as int) =~= texts_view(row@));
            assert(all.take(i + 1).drop_last() =~= all.take(i as int));
            assert(all.take(i + 1).last() == all[i as int]);
        }
        i = i + 1;
    }
    assert(rows_view(rows@).take(i as int) =~= rows_view(rows@));
    words
}


/// Whether `a` and `b` hold the same characters.
pub fn same_text(a: &str, b: &str) -> (r: bool)
    ensures
        r == (a@ == b@),
{
    let n = a.unicode_len();
    if n != b.unicode_len() {
        return false;
    }
    let mut i: usize = 0;
    while i < n
        invariant
            n == a@.len(),
            n == b@.len(),
            i <= n,
            a@.take(i as int) == b@.take(i as int),
        decreases n - i,
    {
        if a.get_char(i) != b.get_char(i) {
            return false;
        }
        assert(a@.take(i + 1) =~= a@.take(i as int).push(a@[i as int]));
        assert(b@.take(i + 1) =~= b@.take(i as int).push(b@[i as int]));
        i = i + 1;
    }
    assert(a@.take(n as int) =~= a@);
    assert(b@.take(n as int) =~= b@);
    true
}


/// A copy of every string of `v`.
pub fn copy_texts(v: &[String]) -> (r: Vec<String>)
    ensures
        texts_view(r@) == texts_view(v@),
{
    let mut out: Vec<String> = Vec::new();
    let mut i: usize = 0;
    while i < v.len()
        invariant
            i <= v@.len(),
            texts_view(out@) == texts_view(v@).take(i as int),
        decreases v.len() - i,
    {
        let ghost before = out@;
        let s = v[i].clone();
        out.push(s);
        proof {
            lemma_texts_push(before, s);
            assert(texts_view(v@).take(i + 1) =~= texts_view(v@).take(i as int).push(v@[i as int]@));
        }
        i = i + 1;
    }
    assert(texts_view(v@).take(i as int) =~= texts_view(v@));
    out
}

} // verus!
