use rand::seq::SliceRandom;
use vstd::prelude::*;

use crate::words::texts_view;

verus! {

/// `picked` holds the entries of `lexicon` at the positions `at`, which are
/// distinct.
pub open spec fn picked_at(picked: Seq<Seq<char>>, lexicon: Seq<Seq<char>>, at: Seq<int>) -> bool {
    &&& at.len() == picked.len()
    &&& forall|i: int| 0 <= i < picked.len() ==> 0 <= #[trigger] at[i] < lexicon.len()
    &&& forall|i: int| 0 <= i < picked.len() ==> #[trigger] picked[i] == lexicon[at[i]]
    &&& forall|i: int, k: int| 0 <= i < k < picked.len() ==> #[trigger] at[i] != #[trigger] at[k]
}

/// Relies on rand's `SliceRandom::choose_multiple` with the thread-local
/// generator: it picks `min(amount, lexicon.len())` entries of the slice at
/// distinct positions, in random order.
#[verifier::external_body]
pub(crate) fn choose_multiple(lexicon: &[String], amount: usize) -> (r: Vec<String>)
    ensures
        r@.len() == if amount < lexicon@.len() {
            amount as int
        } else {
            lexicon@.len() as int
        },
        exists|at: Seq<int>| #[trigger]
            picked_at(texts_view(r@), texts_view(lexicon@), at),
{
    lexicon.choose_multiple(&mut rand::thread_rng(), amount).cloned().collect()
}

/// Relies on rand's `SliceRandom::choose` with the thread-local generator:
/// `None` for an empty slice, else one of its entries.
#[verifier::external_body]
pub(crate) fn choose_one(lexicon: &[String]) -> (r: Option<String>)
    ensures
        r is None <==> lexicon@.len() == 0,
        r matches Some(w) ==> exists|j: int| 0 <= j < lexicon@.len() && w@ == lexicon@[j]@,
{
    lexicon.choose(&mut rand::thread_rng()).cloned()
}

} // verus!
