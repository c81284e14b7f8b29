use vstd::prelude::*;

verus! {

use vstd::std_specs::cmp::PartialEqSpec;

/// An unordered pair of two item handles (their ids) to be compared.
///
/// `left` and `right` keep the order they were constructed with, so a caller
/// can present them as given, but equality and the hash key ignore that
/// order: `Pair::new(a, b)` equals `Pair::new(b, a)`.
#[derive(Clone, Copy, Debug)]
pub struct Pair {
    pub left: usize,
    pub right: usize,
}

/// Order-insensitive pair equality: the two pairs hold the same two ids.
pub open spec fn pair_eq(a: Pair, b: Pair) -> bool {
    (a.left == b.left && a.right == b.right) || (a.left == b.right && a.right == b.left)
}

impl Pair {
    /// Constructs the pair as given; it is the caller's duty (the strategy's)
    /// never to pair an item with itself.
    pub fn new(left: usize, right: usize) -> (r: Self)
        ensures
            r.left == left,
            r.right == right,
    {
        Pair { left, right }
    }

    /// The pair of ids, order-normalized as (larger, smaller), so that both
    /// orderings of the same two ids share one key.
    pub open spec fn spec_hash_key(&self) -> (usize, usize) {
        if self.left >= self.right {
            (self.left, self.right)
        } else {
            (self.right, self.left)
        }
    }

    /// The key a hash of the pair would be computed from: the two ids,
    /// order-normalized.
    pub fn hash_key(&self) -> (r: (usize, usize))
        ensures
            r == self.spec_hash_key(),
    {
        if self.left >= self.right {
            (self.left, self.right)
        } else {
            (self.right, self.left)
        }
    }
}

impl PartialEq for Pair {
    fn eq(&self, other: &Self) -> bool {
        (self.left == other.left && self.right == other.right) || (self.left == other.right
            && self.right == other.left)
    }
}

impl vstd::std_specs::cmp::PartialEqSpecImpl for Pair {
    open spec fn obeys_eq_spec() -> bool {
        true
    }

    open spec fn eq_spec(&self, other: &Self) -> bool {
        pair_eq(*self, *other)
    }
}

/// A pair is unordered: swapping the two handles gives an equal pair, and
/// both orderings share the same hash key.
pub proof fn lemma_pair_unordered(a: usize, b: usize)
    ensures
        (Pair { left: a, right: b }).eq_spec(&(Pair { left: b, right: a })),
        (Pair { left: a, right: b }).spec_hash_key() == (Pair {
            left: b,
            right: a,
        }).spec_hash_key(),
{
}

} // verus!
