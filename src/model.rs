use std::collections::VecDeque;
use vstd::prelude::*;

use crate::source::{lemma_yielded_concat, lemma_yielded_none, lemma_yielded_push, yielded, WordSource};
use crate::words::{
    concat, ends_with, flatten_rows, lemma_concat_first, lemma_concat_prefix, lemma_ends_with_extend,
    lemma_texts_push, rows_view, texts_view,
};

verus! {

/// The width of a row, in characters, when no other width is configured.
pub const PANEL_WIDTH: usize = 60;

/// The number of rows in the window when no other count is configured.
pub const PANEL_ROWS: usize = 2;

/// The number of characters in the words of `row`.
pub open spec fn letters(row: Seq<Seq<char>>) -> int
    decreases row.len(),
{
    if row.len() == 0 {
        0
    } else {
        letters(row.drop_last()) + row.last().len()
    }
}

/// The width of `row` when shown: its characters and one separator between
/// neighbouring words.
pub open spec fn row_width(row: Seq<Seq<char>>) -> int {
    if row.len() == 0 {
        0
    } else {
        letters(row) + row.len() - 1
    }
}

pub open spec fn fits(row: Seq<Seq<char>>, width: int) -> bool {
    row_width(row) <= width
}

/// A row as the packer leaves it, when `next` is the word that follows it in
/// the stream: it holds at least one word, it fits the width unless it is a
/// single word, and it would not fit with `next` appended.
pub open spec fn packed(row: Seq<Seq<char>>, next: Seq<char>, width: int) -> bool {
    &&& row.len() >= 1
    &&& fits(row, width) || row.len() == 1
    &&& !fits(row.push(next), width)
}

/// The word that follows row `i` of `rows` in the stream: the first word of
/// the next row, or the lookahead word after the last row.
pub open spec fn word_after(rows: Seq<Seq<Seq<char>>>, i: int, lookahead: Seq<char>) -> Seq<char> {
    if i + 1 < rows.len() {
        rows[i + 1][0]
    } else {
        lookahead
    }
}

/// Every row of `rows` is packed against the word that follows it.
pub open spec fn window_packed(rows: Seq<Seq<Seq<char>>>, lookahead: Seq<char>, width: int) -> bool {
    forall|i: int| 0 <= i < rows.len() ==> #[trigger] packed(rows[i], word_after(rows, i, lookahead), width)
}

proof fn lemma_row_width_push(row: Seq<Seq<char>>, w: Seq<char>)
    requires
        row.len() >= 1,
    ensures
        row_width(row.push(w)) == row_width(row) + 1 + w.len(),
{
    assert(row.push(w).drop_last() =~= row);
}

proof fn lemma_window_push(
    rows: Seq<Seq<Seq<char>>>,
    lookahead: Seq<char>,
    row: Seq<Seq<char>>,
    next: Seq<char>,
    width: int,
)
    requires
        window_packed(rows, lookahead, width),
        row[0] == lookahead,
        packed(row, next, width),
    ensures
        window_packed(rows.push(row), next, width),
{
    let grown = rows.push(row);
    assert forall|i: int| 0 <= i < grown.len() implies #[trigger] packed(
        grown[i],
        word_after(grown, i, next),
        width,
    ) by {
        if i < rows.len() {
            assert(packed(rows[i], word_after(rows, i, lookahead), width));
            assert(word_after(grown, i, next) == word_after(rows, i, lookahead));
        }
    }
}

proof fn lemma_window_drop_first(rows: Seq<Seq<Seq<char>>>, lookahead: Seq<char>, width: int)
    requires
        rows.len() >= 1,
        window_packed(rows, lookahead, width),
    ensures
        window_packed(rows.drop_first(), lookahead, width),
{
    let rest = rows.drop_first();
    assert forall|i: int| 0 <= i < rest.len() implies #[trigger] packed(
        rest[i],
        word_after(rest, i, lookahead),
        width,
    ) by {
        assert(packed(rows[i + 1], word_after(rows, i + 1, lookahead), width));
        assert(word_after(rest, i, lookahead) == word_after(rows, i + 1, lookahead));
    }
}

/// The typing session: a window of rows packed from a word source, with one
/// word of lookahead, and the entries committed for the front row.
pub struct Model<S: WordSource> {
    rows: VecDeque<Vec<String>>,
    history: Vec<String>,
    source: S,
    lookahead: String,
    width: usize,
    row_count: usize,
    drawn: Ghost<Seq<Seq<char>>>,
}

impl<S: WordSource> Model<S> {
    /// The rows of the window, front row first.
    pub closed spec fn rows(&self) -> Seq<Seq<Seq<char>>> {
        rows_view(self.rows@)
    }

    /// The entries committed for the front row.
    pub closed spec fn history(&self) -> Seq<Seq<char>> {
        texts_view(self.history@)
    }

    /// The word taken from the source that no row holds yet.
    pub closed spec fn lookahead(&self) -> Seq<char> {
        self.lookahead@
    }

    /// The width budget of a row.
    pub closed spec fn width(&self) -> int {
        self.width as int
    }

    /// The configured number of rows.
    pub closed spec fn row_count(&self) -> int {
        self.row_count as int
    }

    /// Every word taken from the source so far, in order; the last is the
    /// lookahead word.
    pub closed spec fn drawn(&self) -> Seq<Seq<char>> {
        self.drawn@
    }

    /// The state of the word source, as it stands after yielding `drawn()`.
    pub closed spec fn source_state(&self) -> S {
        self.source
    }

    pub closed spec fn source_ready(&self) -> bool {
        self.source.ready()
    }

    /// The window holds the configured number of rows, each packed against
    /// the word that follows it; its words and then the lookahead word are
    /// the latest words taken from the source; and fewer entries are
    /// committed than the front row has words.
    pub open spec fn wf(&self) -> bool {
        &&& self.source_ready()
        &&& self.row_count() >= 1
        &&& self.rows().len() == self.row_count()
        &&& window_packed(self.rows(), self.lookahead(), self.width())
        &&& self.history().len() < self.rows()[0].len()
        &&& ends_with(self.drawn(), concat(self.rows()).push(self.lookahead()))
    }

    /// What one call of `register(entry)` does to a session: the entry is
    /// appended to the history; when the history then has as many entries as
    /// the front row has words, the front row is dropped, a newly packed row
    /// whose first word was the lookahead is appended, and the history is
    /// emptied.
    pub open spec fn registered(before: &Self, entry: Seq<char>, after: &Self) -> bool {
        let h = before.history().push(entry);
        &&& after.width() == before.width()
        &&& after.row_count() == before.row_count()
        &&& if h.len() < before.rows()[0].len() {
            &&& after.history() == h
            &&& after.rows() == before.rows()
            &&& after.lookahead() == before.lookahead()
            &&& after.drawn() == before.drawn()
            &&& after.source_state() == before.source_state()
        } else {
            let row = after.rows().last();
            &&& after.history() == Seq::<Seq<char>>::empty()
            &&& after.rows() == before.rows().drop_first().push(row)
            &&& row[0] == before.lookahead()
            &&& packed(row, after.lookahead(), after.width())
            &&& after.drawn() == before.drawn() + row.drop_first() + seq![after.lookahead()]
            &&& yielded(
                before.source_state(),
                row.drop_first().push(after.lookahead()),
                after.source_state(),
            )
        }
    }

    /// A session over `source` with `PANEL_ROWS` rows of width `PANEL_WIDTH`.
    pub fn new(source: S) -> (m: Self)
        requires
            source.ready(),
        ensures
            m.wf(),
            m.history().len() == 0,
            m.row_count() == PANEL_ROWS,
            m.width() == PANEL_WIDTH,
            m.drawn() == concat(m.rows()).push(m.lookahead()),
            yielded(source, m.drawn(), m.source_state()),
    {
        Self::with_layout(source, PANEL_ROWS, PANEL_WIDTH)
    }

    /// A session over `source` with `row_count` rows of width `width`; the
    /// rows are packed from the start of the stream.
    pub fn with_layout(source: S, row_count: usize, width: usize) -> (m: Self)
        requires
            source.ready(),
            row_count >= 1,
        ensures
            m.wf(),
            m.history().len() == 0,
            m.row_count() == row_count,
            m.width() == width,
            m.drawn() == concat(m.rows()).push(m.lookahead()),
            yielded(source, m.drawn(), m.source_state()),
    {
        let ghost origin = source;
        let mut source = source;
        let first = source.next_word();
        proof {
            lemma_yielded_none(origin);
            lemma_yielded_push(origin, Seq::empty(), origin, first@, source);
            assert(Seq::<Seq<char>>::empty().push(first@) =~= seq![first@]);
        }
        let ghost first_view = first@;
        let mut model = Model {
            rows: VecDeque::new(),
            history: Vec::new(),
            source,
            lookahead: first,
            width,
            row_count,
            drawn: Ghost(Seq::empty().push(first_view)),
        };
        proof {
            assert(model.history() =~= seq![]);
            assert(model.rows() =~= seq![]);
            assert(concat(model.rows()).push(model.lookahead()) =~= model.drawn());
        }
        while model.rows.len() < row_count
            invariant
                model.source_ready(),
                model.rows@.len() <= row_count,
                model.row_count == row_count,
                model.width == width,
                model.history@.len() == 0,
                window_packed(model.rows(), model.lookahead(), model.width()),
                model.drawn() == concat(model.rows()).push(model.lookahead()),
                yielded(origin, model.drawn(), model.source),
            decreases row_count - model.rows@.len(),
        {
            let ghost before = model.rows@;
            let ghost old_drawn = model.drawn();
            let ghost old_lookahead = model.lookahead();
            let ghost old_source = model.source;
            let row = model.make_row();
            let ghost row_view = texts_view(row@);
            model.rows.push_back(row);
            proof {
                assert(rows_view(before.push(row)) =~= rows_view(before).push(row_view));
                lemma_window_push(rows_view(before), old_lookahead, row_view, model.lookahead(), width as int);
                let grown = model.rows();
                assert(grown.drop_last() =~= rows_view(before));
                assert(row_view =~= seq![old_lookahead] + row_view.drop_first());
                assert(model.drawn() =~= concat(grown).push(model.lookahead()));
                let fresh = row_view.drop_first().push(model.lookahead());
                lemma_yielded_concat(origin, old_drawn, old_source, fresh, model.source);
                assert(old_drawn + fresh =~= model.drawn());
            }
        }
        proof {
            assert(packed(model.rows()[0], word_after(model.rows(), 0, model.lookahead()), model.width()));
            assert(model.history().len() == 0);
            let d = model.drawn();
            assert(d.skip(0) =~= d);
        }
        model
    }

    /// Takes the lookahead word and draws the next one from the source.
    fn take_word(&mut self) -> (w: String)
        requires
            old(self).source_ready(),
        ensures
            final(self).source_ready(),
            w@ == old(self).lookahead(),
            final(self).drawn() == old(self).drawn().push(final(self).lookahead()),
            S::yields(&old(self).source, final(self).lookahead(), &final(self).source),
            final(self).rows == old(self).rows,
            final(self).history == old(self).history,
            final(self).width == old(self).width,
            final(self).row_count == old(self).row_count,
    {
        let mut w = self.source.next_word();
        std::mem::swap(&mut w, &mut self.lookahead);
        self.drawn = Ghost(self.drawn@.push(self.lookahead@));
        w
    }

    /// Packs the next row: it starts with the lookahead word and takes
    /// further words while the row still fits the width with them.
    fn make_row(&mut self) -> (row: Vec<String>)
        requires
            old(self).source_ready(),
        ensures
            final(self).source_ready(),
            texts_view(row@)[0] == old(self).lookahead(),
            packed(texts_view(row@), final(self).lookahead(), final(self).width()),
            final(self).drawn() == old(self).drawn() + texts_view(row@).drop_first() + seq![
                final(self).lookahead(),
            ],
            yielded(
                old(self).source,
                texts_view(row@).drop_first().push(final(self).lookahead()),
                final(self).source,
            ),
            final(self).rows == old(self).rows,
            final(self).history == old(self).history,
            final(self).width == old(self).width,
            final(self).row_count == old(self).row_count,
    {
        let width = self.width;
        let first = self.take_word();
        let mut used: usize = first.as_str().unicode_len();
        let mut row: Vec<String> = Vec::new();
        let ghost start = old(self).drawn();
        row.push(first);
        let mut next_len: usize = self.lookahead.as_str().unicode_len();
        proof {
            let v = texts_view(row@);
            assert(v.drop_last() =~= seq![]);
            assert(letters(v.drop_last()) == 0);
            assert(letters(v) == v[0].len());
            assert(v.drop_first() =~= seq![]);
            assert(start + v.drop_first() + seq![self.lookahead()] =~= self.drawn());
            lemma_yielded_none(old(self).source);
            lemma_yielded_push(old(self).source, Seq::empty(), old(self).source, self.lookahead(), self.source);
            assert(Seq::<Seq<char>>::empty().push(self.lookahead()) =~= v.drop_first().push(self.lookahead()));
        }
        while used < width && next_len <= width - used - 1
            invariant
                self.source_ready(),
                self.width == width,
                self.rows == old(self).rows,
                self.history == old(self).history,
                self.row_count == old(self).row_count,
                row@.len() >= 1,
                texts_view(row@)[0] == old(self).lookahead(),
                row_width(texts_view(row@)) == used,
                fits(texts_view(row@), width as int) || row@.len() == 1,
                next_len == self.lookahead().len(),
                self.drawn() == start + texts_view(row@).drop_first() + seq![self.lookahead()],
                yielded(old(self).source, texts_view(row@).drop_first().push(self.lookahead()), self.source),
            decreases width - used,
        {
            let ghost before = row@;
            let ghost source_before = self.source;
            let w = self.take_word();
            used = used + 1 + next_len;
            row.push(w);
            next_len = self.lookahead.as_str().unicode_len();
            proof {
                lemma_texts_push(before, w);
                lemma_row_width_push(texts_view(before), w@);
                let v = texts_view(row@);
                assert(v.drop_first() =~= texts_view(before).drop_first().push(w@));
                assert(self.drawn() =~= start + v.drop_first() + seq![self.lookahead()]);
                lemma_yielded_push(
                    old(self).source,
                    texts_view(before).drop_first().push(w@),
                    source_before,
                    self.lookahead(),
                    self.source,
                );
                assert(texts_view(before).drop_first().push(w@) =~= v.drop_first());
            }
        }
        proof {
            lemma_row_width_push(texts_view(row@), self.lookahead());
        }
        row
    }

    /// Drops the front row and appends a newly packed one.
    fn advance(&mut self)
        requires
            old(self).source_ready(),
            old(self).rows@.len() >= 1,
        ensures
            final(self).source_ready(),
            final(self).rows() == old(self).rows().drop_first().push(final(self).rows().last()),
            final(self).rows().last()[0] == old(self).lookahead(),
            packed(final(self).rows().last(), final(self).lookahead(), final(self).width()),
            final(self).drawn() == old(self).drawn() + final(self).rows().last().drop_first()
                + seq![final(self).lookahead()],
            yielded(
                old(self).source,
                final(self).rows().last().drop_first().push(final(self).lookahead()),
                final(self).source,
            ),
            final(self).history == old(self).history,
            final(self).width == old(self).width,
            final(self).row_count == old(self).row_count,
    {
        let row = self.make_row();
        let ghost row_view = texts_view(row@);
        let ghost before = self.rows@;
        self.rows.push_back(row);
        self.rows.pop_front();
        proof {
            assert(self.rows@ =~= before.drop_first().push(row));
            assert(rows_view(before.drop_first().push(row)) =~= rows_view(before).drop_first().push(row_view));
        }
    }

    /// Commits `entry` as the typed version of the current word; once every
    /// word of the front row has an entry, the window moves on by one row
    /// and the history starts afresh.
    pub fn register(&mut self, entry: &str)
        requires
            old(self).wf(),
        ensures
            final(self).wf(),
            Self::registered(old(self), entry@, final(self)),
    {
        let ghost before = self.history@;
        let owned = entry.to_owned();
        self.history.push(owned);
        proof {
            lemma_texts_push(before, owned);
        }
        if self.history.len() == self.rows[0].len() {
            let ghost rows_before = self.rows();
            let ghost lookahead_before = self.lookahead();
            let ghost drawn_before = self.drawn();
            self.advance();
            self.history.clear();
            proof {
                assert(self.history() =~= Seq::<Seq<char>>::empty());
                lemma_window_drop_first(rows_before, lookahead_before, self.width());
                lemma_window_push(
                    rows_before.drop_first(),
                    lookahead_before,
                    self.rows().last(),
                    self.lookahead(),
                    self.width(),
                );
                assert(packed(self.rows()[0], word_after(self.rows(), 0, self.lookahead()), self.width()));
                let row = self.rows().last();
                let rest = concat(rows_before.drop_first());
                lemma_concat_first(rows_before);
                assert(self.rows().drop_last() =~= rows_before.drop_first());
                assert(concat(self.rows()) == rest + row);
                assert(concat(rows_before).push(lookahead_before) =~= rows_before[0] + (rest + seq![
                    lookahead_before,
                ]));
                lemma_ends_with_extend(
                    drawn_before,
                    rows_before[0],
                    rest + seq![lookahead_before],
                    row.drop_first() + seq![self.lookahead()],
                );
                assert(row =~= seq![lookahead_before] + row.drop_first());
                assert(drawn_before + (row.drop_first() + seq![self.lookahead()]) =~= self.drawn());
                assert(rest + seq![lookahead_before] + (row.drop_first() + seq![self.lookahead()])
                    =~= concat(self.rows()).push(self.lookahead()));
            }
        }
    }

    /// The entries committed for the front row.
    pub fn get_history(&self) -> (r: &Vec<String>)
        ensures
            texts_view(r@) == self.history(),
    {
        &self.history
    }

    /// The rows of the window, front row first.
    pub fn get_rows(&self) -> (r: &VecDeque<Vec<String>>)
        ensures
            rows_view(r@) == self.rows(),
    {
        &self.rows
    }

    /// Every word of the window, row after row.
    pub fn get_words(&self) -> (r: Vec<String>)
        ensures
            texts_view(r@) == concat(self.rows()),
    {
        flatten_rows(&self.rows)
    }

    /// The word being typed: the word of the window at the position given
    /// by the number of committed entries.
    pub fn get_current_word(&self) -> (r: Option<String>)
        ensures
            self.history().len() < concat(self.rows()).len() ==> (r matches Some(w) && w@ == concat(
                self.rows(),
            )[self.history().len() as int]),
            self.history().len() >= concat(self.rows()).len() ==> r is None,
            self.wf() ==> r is Some,
    {
        let words = self.get_words();
        let i = self.history.len();
        proof {
            if self.wf() {
                lemma_concat_prefix(self.rows(), 1);
                let first = self.rows().take(1);
                assert(first.drop_last() =~= seq![]);
                assert(concat(first.drop_last()) == Seq::<Seq<char>>::empty());
                assert(concat(first) =~= self.rows()[0]);
                assert(packed(self.rows()[0], word_after(self.rows(), 0, self.lookahead()), self.width()));
            }
        }
        if i < words.len() {
            Some(words[i].clone())
        } else {
            None
        }
    }
}

/// Collects what a session needs before it starts.
pub struct ModelBuilder<S: WordSource> {
    word_stream: Option<S>,
    rows: usize,
    width: usize,
}

impl<S: WordSource> ModelBuilder<S> {
    pub closed spec fn stream(&self) -> Option<S> {
        self.word_stream
    }

    pub closed spec fn rows(&self) -> int {
        self.rows as int
    }

    pub closed spec fn width(&self) -> int {
        self.width as int
    }

    /// A builder with no word stream yet, `PANEL_ROWS` rows and a width of
    /// `PANEL_WIDTH`.
    pub fn new() -> (b: Self)
        ensures
            b.stream() is None,
            b.rows() == PANEL_ROWS,
            b.width() == PANEL_WIDTH,
    {
        ModelBuilder { word_stream: None, rows: PANEL_ROWS, width: PANEL_WIDTH }
    }

    pub fn with_word_stream(self, word_stream: S) -> (b: Self)
        ensures
            b.stream() == Some(word_stream),
            b.rows() == self.rows(),
            b.width() == self.width(),
    {
        let mut b = self;
        b.word_stream = Some(word_stream);
        b
    }

    pub fn with_rows(self, rows: usize) -> (b: Self)
        ensures
            b.stream() == self.stream(),
            b.rows() == rows,
            b.width() == self.width(),
    {
        let mut b = self;
        b.rows = rows;
        b
    }

    pub fn with_width(self, width: usize) -> (b: Self)
        ensures
            b.stream() == self.stream(),
            b.rows() == self.rows(),
            b.width() == width,
    {
        let mut b = self;
        b.width = width;
        b
    }

    /// The session over the given stream, with the given layout.
    pub fn build(self) -> (m: Model<S>)
        requires
            self.stream() matches Some(s) && s.ready(),
            self.rows() >= 1,
        ensures
            m.wf(),
            m.history().len() == 0,
            m.row_count() == self.rows(),
            m.width() == self.width(),
            m.drawn() == concat(m.rows()).push(m.lookahead()),
            yielded(self.stream()->0, m.drawn(), m.source_state()),
    {
        let stream = self.word_stream.unwrap();
        Model::with_layout(stream, self.rows, self.width)
    }
}


/// Every row of a well-formed session fits the width, unless the row is a
/// single word that is wider by itself.
pub proof fn lemma_rows_fit<S: WordSource>(m: &Model<S>)
    requires
        m.wf(),
    ensures
        forall|i: int|
            0 <= i < m.rows().len() ==> fits(#[trigger] m.rows()[i], m.width()) || (m.rows()[i].len()
                == 1 && m.rows()[i][0].len() > m.width()),
{
    assert forall|i: int| 0 <= i < m.rows().len() implies fits(#[trigger] m.rows()[i], m.width())
        || (m.rows()[i].len() == 1 && m.rows()[i][0].len() > m.width()) by {
        let row = m.rows()[i];
        assert(packed(row, word_after(m.rows(), i, m.lookahead()), m.width()));
        if row.len() == 1 {
            assert(row.drop_last() =~= seq![]);
            assert(letters(row.drop_last()) == 0);
        }
    }
}

/// A registration never leaves more entries than the front row has words:
/// there are always fewer, and when an entry brings them level with the
/// front row, the history is emptied and the front row replaced.
pub proof fn lemma_register_bounds_history<S: WordSource>(
    before: &Model<S>,
    entry: Seq<char>,
    after: &Model<S>,
)
    requires
        before.wf(),
        Model::<S>::registered(before, entry, after),
    ensures
        after.history().len() < after.rows()[0].len(),
        before.history().len() + 1 == before.rows()[0].len() ==> {
            &&& after.history().len() == 0
            &&& after.rows() == before.rows().drop_first().push(after.rows().last())
        },
{
    let rows = before.rows();
    if before.history().len() + 1 == rows[0].len() {
        if rows.len() >= 2 {
            assert(packed(rows[1], word_after(rows, 1, before.lookahead()), before.width()));
            assert(after.rows()[0] == rows[1]);
        } else {
            assert(after.rows()[0] == after.rows().last());
        }
    }
}

/// Any run of registrations, whether or not they advance the window, keeps
/// the window at the configured number of rows.
pub proof fn lemma_window_size_kept<S: WordSource>(states: Seq<Model<S>>, entries: Seq<Seq<char>>)
    requires
        states.len() == entries.len() + 1,
        states[0].wf(),
        forall|i: int|
            0 <= i < entries.len() ==> Model::<S>::registered(
                &#[trigger] states[i],
                entries[i],
                &states[i + 1],
            ),
    ensures
        forall|i: int|
            0 <= i < states.len() ==> (#[trigger] states[i]).rows().len() == states[0].row_count()
                && states[i].row_count() == states[0].row_count(),
    decreases entries.len(),
{
    if entries.len() > 0 {
        let n = entries.len() - 1;
        let front = states.drop_last();
        assert forall|i: int| 0 <= i < n implies Model::<S>::registered(
            &#[trigger] front[i],
            entries.drop_last()[i],
            &front[i + 1],
        ) by {
            assert(Model::<S>::registered(&states[i], entries[i], &states[i + 1]));
        }
        lemma_window_size_kept(front, entries.drop_last());
        assert(front[n] == states[n]);
        assert(Model::<S>::registered(&states[n], entries[n], &states[n + 1]));
        assert forall|i: int| 0 <= i < states.len() implies (#[trigger] states[i]).rows().len()
            == states[0].row_count() && states[i].row_count() == states[0].row_count() by {
            if i < states.len() - 1 {
                assert(front[i] == states[i]);
            }
        }
    }
}

} // verus!
