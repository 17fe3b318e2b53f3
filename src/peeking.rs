use std::iter::Peekable;
use vstd::prelude::*;

verus! {

#[verifier::external_type_specification]
#[verifier::external_body]
#[verifier::reject_recursive_types(I)]
pub struct ExPeekable<I: Iterator>(Peekable<I>);

/// Relies on `Peekable::peek`: the item that the next call of `next` will
/// return, if any, without advancing; nothing is assumed of its value.
pub assume_specification<I: Iterator>[ Peekable::<I>::peek ](iter: &mut Peekable<I>) -> Option<
    &I::Item,
>;

/// Relies on `Peekable`'s `Iterator::next`: the next item, or `None` once
/// the items have run out; nothing is assumed of its value.
pub assume_specification<I: Iterator>[ <Peekable<I> as Iterator>::next ](iter: &mut Peekable<I>) -> Option<
    I::Item,
>;

/// One call of `f` on the accumulator `from`, with some item and its
/// successor, may return `to`.
pub open spec fn stepped<I: Iterator, B, F: Fn(B, (&I::Item, Option<&I::Item>)) -> Result<B, B>>(
    f: F,
    from: B,
    to: Result<B, B>,
) -> bool {
    exists|item: &I::Item, next: Option<&I::Item>| #[trigger] f.ensures((from, (item, next)), to)
}

/// `accs` are the accumulators of a fold with `f` that starts from `init`,
/// each after the first returned with `Ok` by a call on the one before, and
/// `r` is how the fold ended: `Ok` with the last accumulator, or the `Err`
/// that a call on the last accumulator returned.
pub open spec fn folded_from<I: Iterator, B, F: Fn(B, (&I::Item, Option<&I::Item>)) -> Result<B, B>>(
    f: F,
    init: B,
    accs: Seq<B>,
    r: Result<B, B>,
) -> bool {
    &&& accs.len() >= 1
    &&& accs[0] == init
    &&& forall|k: int|
        0 <= k < accs.len() - 1 ==> #[trigger] stepped::<I, B, F>(f, accs[k], Ok(accs[k + 1]))
    &&& match r {
        Ok(b) => b == accs.last(),
        Err(b) => stepped::<I, B, F>(f, accs.last(), Err(b)),
    }
}

/// Folds the items of `iter` into `init` with `f`, which sees each item
/// together with the one after it (if any) and answers `Ok` to go on or
/// `Err` to stop. The item after the one that stopped the fold is left in
/// `iter`. Returns `Err` with the accumulator that `f` stopped on, or `Ok`
/// once the items run out; the fold also ends with `Ok` after `usize::MAX`
/// items, a count no iterator reaches in practice.
pub fn peeking_fold_while<I, B, F>(iter: &mut Peekable<I>, init: B, f: F) -> (r: Result<B, B>) where
    I: Iterator,
    F: Fn(B, (&I::Item, Option<&I::Item>)) -> Result<B, B>,

    requires
        forall|acc: B, item: &I::Item, next: Option<&I::Item>| f.requires((acc, (item, next))),
    ensures
        exists|accs: Seq<B>| #[trigger] folded_from::<I, B, F>(f, init, accs, r),
{
    let mut acc = init;
    let mut count: usize = 0;
    let ghost mut accs: Seq<B> = seq![init];
    while count < usize::MAX
        invariant
            forall|a: B, item: &I::Item, next: Option<&I::Item>| f.requires((a, (item, next))),
            folded_from::<I, B, F>(f, init, accs, Ok(acc)),
        decreases usize::MAX - count,
    {
        match iter.next() {
            Some(x) => {
                let ghost before = acc;
                let peeked = iter.peek();
                let step = f(acc, (&x, peeked));
                proof {
                    assert(f.ensures((before, (&x, peeked)), step));
                    assert(stepped::<I, B, F>(f, before, step));
                }
                match step {
                    Ok(b) => {
                        proof {
                            let grown = accs.push(b);
                            assert forall|k: int| 0 <= k < grown.len() - 1 implies #[trigger] stepped::<
                                I,
                                B,
                                F,
                            >(f, grown[k], Ok(grown[k + 1])) by {
                                if k < accs.len() - 1 {
                                    assert(stepped::<I, B, F>(f, accs[k], Ok(accs[k + 1])));
                                }
                            }
                            accs = grown;
                        }
                        acc = b;
                    },
                    Err(b) => {
                        proof {
                            assert(accs.last() == before);
                            assert(folded_from::<I, B, F>(f, init, accs, Err(b)));
                        }
                        return Err(b);
                    },
                }
            },
            None => {
                return Ok(acc);
            },
        }
        count = count + 1;
    }
    Ok(acc)
}

/// `peeking_fold_while` as a method of peekable iterators.
pub trait PeekingFoldWhileTrait<I: Iterator> {
    fn peeking_fold_while<B, F>(&mut self, init: B, f: F) -> (r: Result<B, B>) where
        F: Fn(B, (&I::Item, Option<&I::Item>)) -> Result<B, B>,

        requires
            forall|acc: B, item: &I::Item, next: Option<&I::Item>| f.requires((acc, (item, next))),
        ensures
            exists|accs: Seq<B>| #[trigger] folded_from::<I, B, F>(f, init, accs, r),
    ;
}

impl<I: Iterator> PeekingFoldWhileTrait<I> for Peekable<I> {
    fn peeking_fold_while<B, F>(&mut self, init: B, f: F) -> (r: Result<B, B>) where
        F: Fn(B, (&I::Item, Option<&I::Item>)) -> Result<B, B>,
     {
        peeking_fold_while(self, init, f)
    }
}

} // verus!
