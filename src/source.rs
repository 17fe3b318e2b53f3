use vstd::prelude::*;

use crate::sampling::{choose_multiple, picked_at};
use crate::words::{in_lexicon, texts_view};

verus! {

/// How many words a sampled source draws from its lexicon at a time.
pub const SAMPLE_SIZE: usize = 100;

/// An endless supply of words.
pub trait WordSource {
    /// Holds while the source can hand out another word.
    spec fn ready(&self) -> bool;

    /// A source in state `before` may hand out `w` and move to `after`.
    spec fn yields(before: &Self, w: Seq<char>, after: &Self) -> bool;

    /// The next word of the stream.
    fn next_word(&mut self) -> (w: String)
        requires
            old(self).ready(),
        ensures
            final(self).ready(),
            Self::yields(old(self), w@, final(self)),
    ;
}

/// `states` runs through the source states while `words` are handed out:
/// from `states[k]` the source hands out `words[k]` and moves to
/// `states[k + 1]`.
pub open spec fn yield_chain<S: WordSource>(states: Seq<S>, words: Seq<Seq<char>>) -> bool {
    &&& states.len() == words.len() + 1
    &&& forall|k: int| 0 <= k < words.len() ==> S::yields(&states[k], #[trigger] words[k], &states[k + 1])
}

/// A source in state `before` may hand out `words`, one after another, and
/// end in state `after`.
pub open spec fn yielded<S: WordSource>(before: S, words: Seq<Seq<char>>, after: S) -> bool {
    exists|states: Seq<S>|
        #[trigger] yield_chain(states, words) && states[0] == before && states.last() == after
}

pub proof fn lemma_yielded_none<S: WordSource>(a: S)
    ensures
        yielded(a, Seq::empty(), a),
{
    assert(yield_chain(seq![a], Seq::<Seq<char>>::empty()));
}

pub proof fn lemma_yielded_push<S: WordSource>(
    a: S,
    words: Seq<Seq<char>>,
    b: S,
    w: Seq<char>,
    c: S,
)
    requires
        yielded(a, words, b),
        S::yields(&b, w, &c),
    ensures
        yielded(a, words.push(w), c),
{
    let states = choose|states: Seq<S>|
        #[trigger] yield_chain(states, words) && states[0] == a && states.last() == b;
    let more = states.push(c);
    let longer = words.push(w);
    assert forall|k: int| 0 <= k < longer.len() implies S::yields(
        &more[k],
        #[trigger] longer[k],
        &more[k + 1],
    ) by {
        if k < words.len() {
            assert(longer[k] == words[k]);
            assert(S::yields(&states[k], words[k], &states[k + 1]));
        }
    }
    assert(yield_chain(more, longer));
}

pub proof fn lemma_yielded_concat<S: WordSource>(
    a: S,
    xs: Seq<Seq<char>>,
    b: S,
    ys: Seq<Seq<char>>,
    c: S,
)
    requires
        yielded(a, xs, b),
        yielded(b, ys, c),
    ensures
        yielded(a, xs + ys, c),
{
    let s1 = choose|states: Seq<S>|
        #[trigger] yield_chain(states, xs) && states[0] == a && states.last() == b;
    let s2 = choose|states: Seq<S>|
        #[trigger] yield_chain(states, ys) && states[0] == b && states.last() == c;
    let all = s1 + s2.drop_first();
    let words = xs + ys;
    assert forall|k: int| 0 <= k < words.len() implies S::yields(
        &all[k],
        #[trigger] words[k],
        &all[k + 1],
    ) by {
        if k < xs.len() {
            assert(words[k] == xs[k]);
            assert(S::yields(&s1[k], xs[k], &s1[k + 1]));
            if k + 1 == xs.len() {
                assert(all[k + 1] == s2[0]);
            }
        } else {
            let j = k - xs.len();
            assert(words[k] == ys[j]);
            assert(S::yields(&s2[j], ys[j], &s2[j + 1]));
            if j == 0 {
                assert(all[k] == s1.last());
            }
        }
    }
    assert(yield_chain(all, words));
}

/// The words of a lexicon, over and over in the same order.
pub struct CycleWords {
    lexicon: Vec<String>,
    next: usize,
}

impl CycleWords {
    /// The words of this source, in the order of one round.
    pub closed spec fn lexicon(&self) -> Seq<Seq<char>> {
        crate::words::texts_view(self.lexicon@)
    }

    /// The position of the word handed out next.
    pub closed spec fn position(&self) -> int {
        self.next as int
    }

    pub fn new(lexicon: Vec<String>) -> (r: CycleWords)
        requires
            lexicon@.len() > 0,
        ensures
            r.ready(),
            r.lexicon() == crate::words::texts_view(lexicon@),
            r.position() == 0,
    {
        CycleWords { lexicon, next: 0 }
    }
}

impl WordSource for CycleWords {
    closed spec fn ready(&self) -> bool {
        self.next < self.lexicon@.len()
    }

    /// The word at the current position, after which the position moves on
    /// by one, back to the start after the last word.
    open spec fn yields(before: &Self, w: Seq<char>, after: &Self) -> bool {
        &&& after.lexicon() == before.lexicon()
        &&& w == before.lexicon()[before.position()]
        &&& after.position() == if before.position() + 1 < before.lexicon().len() {
            before.position() + 1
        } else {
            0
        }
    }

    fn next_word(&mut self) -> (w: String) {
        let w = self.lexicon[self.next].clone();
        if self.next < self.lexicon.len() - 1 {
            self.next = self.next + 1;
        } else {
            self.next = 0;
        }
        w
    }
}

/// Words drawn at random from a lexicon, a batch at a time; a batch holds
/// no position of the lexicon twice.
pub struct SampledWords {
    lexicon: Vec<String>,
    batch: Vec<String>,
    next: usize,
}

impl SampledWords {
    /// The words this source draws from.
    pub closed spec fn lexicon(&self) -> Seq<Seq<char>> {
        crate::words::texts_view(self.lexicon@)
    }

    pub fn new(lexicon: Vec<String>) -> (r: SampledWords)
        requires
            lexicon@.len() > 0,
        ensures
            r.ready(),
            r.lexicon() == crate::words::texts_view(lexicon@),
    {
        SampledWords { lexicon, batch: Vec::new(), next: 0 }
    }
}

impl WordSource for SampledWords {
    closed spec fn ready(&self) -> bool {
        &&& self.lexicon@.len() > 0
        &&& self.next <= self.batch@.len()
        &&& forall|i: int|
            0 <= i < self.batch@.len() ==> in_lexicon(#[trigger] self.batch@[i]@, self.lexicon())
    }

    /// Some word of the lexicon; the lexicon stays as it is.
    open spec fn yields(before: &Self, w: Seq<char>, after: &Self) -> bool {
        &&& after.lexicon() == before.lexicon()
        &&& in_lexicon(w, before.lexicon())
    }

    fn next_word(&mut self) -> (w: String) {
        if self.next >= self.batch.len() {
            let batch = choose_multiple(self.lexicon.as_slice(), SAMPLE_SIZE);
            proof {
                let at = choose|at: Seq<int>|
                    picked_at(texts_view(batch@), texts_view(self.lexicon@), at);
                assert forall|i: int| 0 <= i < batch@.len() implies in_lexicon(
                    #[trigger] batch@[i]@,
                    self.lexicon(),
                ) by {
                    assert(texts_view(batch@)[i] == batch@[i]@);
                    assert(self.lexicon()[at[i]] == batch@[i]@);
                }
            }
            self.batch = batch;
            self.next = 0;
        }
        let w = self.batch[self.next].clone();
        self.next = self.next + 1;
        w
    }
}

} // verus!
