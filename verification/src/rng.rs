use vstd::prelude::*;

use rand::Rng;
use rand::seq::SliceRandom;

use crate::pair::Pair;

verus! {

/// Relies on rand::Rng::gen_range over `0..n`: the sample lies in that
/// range. The call panics only on an empty range, which `n > 0` rules out.
/// Nothing more is assumed of the sample: it depends on the thread's rng.
#[verifier::external_body]
pub(crate) fn random_index(n: usize) -> (r: usize)
    requires
        n > 0,
    ensures
        r < n,
{
    rand::thread_rng().gen_range(0..n)
}

/// Relies on rand::seq::SliceRandom::shuffle: it permutes the slice in
/// place, so the queue afterwards holds the same multiset of pairs in some
/// order that depends on the thread's rng.
#[verifier::external_body]
pub(crate) fn shuffle_pairs(pairs: &mut Vec<Pair>)
    ensures
        final(pairs)@.len() == old(pairs)@.len(),
        final(pairs)@.to_multiset() == old(pairs)@.to_multiset(),
{
    pairs.shuffle(&mut rand::thread_rng());
}

} // verus!
