use std::collections::VecDeque;
use vstd::prelude::*;

use crate::sampling::{choose_multiple, choose_one, picked_at};
use crate::words::{copy_texts, in_lexicon, lemma_texts_push, texts_view};

verus! {

/// How many rows of `width` words a queue is filled with.
pub const NUM_ROWS: usize = 2;

/// A queue of words sampled at random from a lexicon.
#[derive(Debug)]
pub struct WordQueue {
    width: usize,
    lexicon: Vec<String>,
    queue: VecDeque<String>,
}

impl WordQueue {
    pub closed spec fn width_spec(&self) -> int {
        self.width as int
    }

    pub closed spec fn lexicon(&self) -> Seq<Seq<char>> {
        texts_view(self.lexicon@)
    }

    pub closed spec fn queue(&self) -> Seq<Seq<char>> {
        texts_view(self.queue@)
    }

    /// An empty queue with an empty lexicon and a width of zero.
    pub fn new() -> (q: WordQueue)
        ensures
            q.width_spec() == 0,
            q.lexicon().len() == 0,
            q.queue().len() == 0,
    {
        WordQueue { width: 0, lexicon: Vec::new(), queue: VecDeque::new() }
    }

    /// Replaces the lexicon; the queue is left as it is.
    pub fn set_lexicon(&mut self, lexicon: &[String])
        ensures
            final(self).lexicon() == texts_view(lexicon@),
            final(self).queue() == old(self).queue(),
            final(self).width_spec() == old(self).width_spec(),
    {
        self.lexicon = copy_texts(lexicon);
    }

    /// Sets the width and refills the queue with `NUM_ROWS * width` words of
    /// the lexicon (all of them, if it has fewer), taken at distinct
    /// positions in random order.
    pub fn set_width(&mut self, width: usize)
        requires
            width <= usize::MAX / NUM_ROWS,
        ensures
            final(self).width_spec() == width,
            final(self).lexicon() == old(self).lexicon(),
            final(self).queue().len() == if NUM_ROWS * width < old(self).lexicon().len() {
                NUM_ROWS * width
            } else {
                old(self).lexicon().len() as int
            },
            exists|at: Seq<int>| #[trigger] picked_at(final(self).queue(), final(self).lexicon(), at),
    {
        self.width = width;
        self.populate();
    }

    pub fn width(&self) -> (r: usize)
        ensures
            r == self.width_spec(),
    {
        self.width
    }

    fn populate(&mut self)
        requires
            old(self).width <= usize::MAX / NUM_ROWS,
        ensures
            final(self).width == old(self).width,
            final(self).lexicon == old(self).lexicon,
            final(self).queue().len() == if NUM_ROWS * old(self).width < old(self).lexicon().len() {
                NUM_ROWS * old(self).width
            } else {
                old(self).lexicon().len() as int
            },
            exists|at: Seq<int>| #[trigger] picked_at(final(self).queue(), final(self).lexicon(), at),
    {
        let picked = choose_multiple(self.lexicon.as_slice(), self.width * NUM_ROWS);
        let mut queue: VecDeque<String> = VecDeque::new();
        let mut i: usize = 0;
        assert(texts_view(queue@) =~= texts_view(picked@).take(0));
        while i < picked.len()
            invariant
                i <= picked@.len(),
                texts_view(queue@) == texts_view(picked@).take(i as int),
            decreases picked.len() - i,
        {
            let w = picked[i].clone();
            let ghost before = queue@;
            queue.push_back(w);
            proof {
                lemma_texts_push(before, w);
                assert(texts_view(picked@).take(i + 1) =~= texts_view(picked@).take(i as int).push(
                    picked@[i as int]@,
                ));
            }
            i = i + 1;
        }
        assert(texts_view(picked@).take(i as int) =~= texts_view(picked@));
        self.queue = queue;
        proof {
            let at = choose|at: Seq<int>| picked_at(texts_view(picked@), texts_view(self.lexicon@), at);
            assert(picked_at(self.queue(), self.lexicon(), at));
        }
    }

    /// Moves the queue on by `width` words: each step appends a word drawn
    /// at random from the lexicon and drops the front word.
    pub fn advance(&mut self)
        requires
            old(self).width_spec() == 0 || old(self).lexicon().len() > 0,
        ensures
            final(self).width_spec() == old(self).width_spec(),
            final(self).lexicon() == old(self).lexicon(),
            final(self).queue().len() == old(self).queue().len(),
            exists|fresh: Seq<Seq<char>>|
                #![trigger fresh.len()]
                fresh.len() == old(self).width_spec() && (forall|i: int|
                    0 <= i < fresh.len() ==> in_lexicon(#[trigger] fresh[i], old(self).lexicon()))
                    && final(self).queue() == (old(self).queue() + fresh).skip(fresh.len() as int),
    {
        let ghost start = self.queue();
        let ghost fresh: Seq<Seq<char>> = seq![];
        let mut k: usize = 0;
        assert((start + fresh).skip(0) =~= start);
        while k < self.width
            invariant
                self.width == old(self).width,
                self.lexicon == old(self).lexicon,
                old(self).width_spec() == 0 || old(self).lexicon().len() > 0,
                k <= self.width,
                fresh.len() == k,
                forall|i: int| 0 <= i < fresh.len() ==> in_lexicon(#[trigger] fresh[i], self.lexicon()),
                self.queue() == (start + fresh).skip(k as int),
            decreases self.width - k,
        {
            let sample = choose_one(self.lexicon.as_slice());
            let word = sample.unwrap();
            let ghost before = self.queue@;
            proof {
                let j = choose|j: int| 0 <= j < self.lexicon@.len() && word@ == self.lexicon@[j]@;
                assert(self.lexicon()[j] == word@);
            }
            self.queue.push_back(word);
            self.queue.pop_front();
            proof {
                let grown = fresh.push(word@);
                lemma_texts_push(before, word);
                assert(self.queue@ =~= before.push(word).drop_first());
                assert(texts_view(before.push(word).drop_first()) =~= texts_view(before.push(word)).drop_first());
                assert(in_lexicon(word@, self.lexicon()));
                assert(forall|i: int| 0 <= i < fresh.len() ==> grown[i] == fresh[i]);
                assert(self.queue() =~= (start + grown).skip(k + 1));
                fresh = grown;
            }
            k = k + 1;
        }
    }

    pub fn len(&self) -> (r: usize)
        ensures
            r == self.queue().len(),
    {
        self.queue.len()
    }

    pub fn get(&self, i: usize) -> (r: &String)
        requires
            i < self.queue().len(),
        ensures
            r@ == self.queue()[i as int],
    {
        &self.queue[i]
    }
}

} // verus!
