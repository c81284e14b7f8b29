use vstd::prelude::*;

verus! {

use vstd::std_specs::cmp::PartialEqSpec;
use vstd::std_specs::cmp::PartialOrdSpec;

/// A user value wrapped with a unique identity and a mutable score.
///
/// Identity and equality are decided by `id` alone; ordering is decided by
/// `score` alone. The identity is assigned at construction by whoever owns
/// the id counter and is never changed afterwards.
#[derive(Clone, Debug)]
pub struct Item<T> {
    id: usize,
    score: usize,
    value: T,
}

impl<T> Item<T> {
    pub closed spec fn spec_id(&self) -> usize {
        self.id
    }

    pub closed spec fn spec_score(&self) -> usize {
        self.score
    }

    pub closed spec fn spec_value(&self) -> T {
        self.value
    }

    /// Wraps `value` under the identity `id`; the score starts at zero.
    pub fn new(value: T, id: usize) -> (r: Self)
        ensures
            r.spec_id() == id,
            r.spec_score() == 0,
            r.spec_value() == value,
    {
        Item { id, score: 0, value }
    }

    pub fn id(&self) -> (r: usize)
        ensures
            r == self.spec_id(),
    {
        self.id
    }

    pub fn value(&self) -> (r: &T)
        ensures
            *r == self.spec_value(),
    {
        &self.value
    }

    pub fn score(&self) -> (r: usize)
        ensures
            r == self.spec_score(),
    {
        self.score
    }

    pub fn set_score(&mut self, score: usize)
        ensures
            final(self).spec_id() == old(self).spec_id(),
            final(self).spec_value() == old(self).spec_value(),
            final(self).spec_score() == score,
    {
        self.score = score;
    }

    /// Records one win: the score grows by exactly one; identity and value
    /// are untouched.
    pub fn add_one_point(&mut self)
        requires
            old(self).spec_score() < usize::MAX,
        ensures
            final(self).spec_id() == old(self).spec_id(),
            final(self).spec_value() == old(self).spec_value(),
            final(self).spec_score() == old(self).spec_score() + 1,
    {
        self.score = self.score + 1;
    }
}

impl<T> PartialEq for Item<T> {
    fn eq(&self, other: &Self) -> bool {
        self.id == other.id
    }
}

impl<T> vstd::std_specs::cmp::PartialEqSpecImpl for Item<T> {
    open spec fn obeys_eq_spec() -> bool {
        true
    }

    open spec fn eq_spec(&self, other: &Self) -> bool {
        self.spec_id() == other.spec_id()
    }
}

impl<T> PartialOrd for Item<T> {
    fn partial_cmp(&self, other: &Self) -> Option<core::cmp::Ordering> {
        if self.score < other.score {
            Some(core::cmp::Ordering::Less)
        } else if self.score == other.score {
            Some(core::cmp::Ordering::Equal)
        } else {
            Some(core::cmp::Ordering::Greater)
        }
    }
}

impl<T> vstd::std_specs::cmp::PartialOrdSpecImpl for Item<T> {
    open spec fn obeys_partial_cmp_spec() -> bool {
        true
    }

    open spec fn partial_cmp_spec(&self, other: &Self) -> Option<core::cmp::Ordering> {
        if self.spec_score() < other.spec_score() {
            Some(core::cmp::Ordering::Less)
        } else if self.spec_score() == other.spec_score() {
            Some(core::cmp::Ordering::Equal)
        } else {
            Some(core::cmp::Ordering::Greater)
        }
    }
}

/// One scoring step: the score grows by exactly one; identity and value are
/// untouched. This is what `add_one_point` does to an item.
pub open spec fn scored_once<T>(before: Item<T>, after: Item<T>) -> bool {
    &&& after.spec_id() == before.spec_id()
    &&& after.spec_value() == before.spec_value()
    &&& after.spec_score() == before.spec_score() + 1
}

/// Scoring accumulates: a chain of k single-point steps raises the score by
/// exactly k from wherever it started, and touches neither id nor value.
pub proof fn lemma_scoring_accumulates<T>(trace: Seq<Item<T>>)
    requires
        trace.len() >= 1,
        forall|i: int| 0 <= i < trace.len() - 1 ==> #[trigger] scored_once(trace[i], trace[i + 1]),
    ensures
        trace.last().spec_score() == trace.first().spec_score() + trace.len() - 1,
        trace.last().spec_id() == trace.first().spec_id(),
        trace.last().spec_value() == trace.first().spec_value(),
    decreases trace.len(),
{
    if trace.len() > 1 {
        let shorter = trace.drop_last();
        assert forall|i: int| 0 <= i < shorter.len() - 1 implies #[trigger] scored_once(
            shorter[i],
            shorter[i + 1],
        ) by {
            assert(scored_once(trace[i], trace[i + 1]));
        };
        lemma_scoring_accumulates(shorter);
        let j = trace.len() - 2;
        assert(scored_once(trace[j], trace[j + 1]));
        assert(shorter.last() == trace[j]);
        assert(shorter.first() == trace.first());
    }
}

/// Items are identified by `id` alone and ordered by `score` alone: two items
/// with different ids are never equal, whatever their values, and comparison
/// never looks at the value either.
pub proof fn lemma_item_identity_and_order<T>(a: Item<T>, b: Item<T>)
    ensures
        a.eq_spec(&b) <==> a.spec_id() == b.spec_id(),
        a.partial_cmp_spec(&b) == Some(core::cmp::Ordering::Equal) <==> a.spec_score()
            == b.spec_score(),
        a.partial_cmp_spec(&b) == Some(core::cmp::Ordering::Less) <==> a.spec_score()
            < b.spec_score(),
        a.partial_cmp_spec(&b) == Some(core::cmp::Ordering::Greater) <==> a.spec_score()
            > b.spec_score(),
{
}

} // verus!
