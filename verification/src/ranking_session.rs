use vstd::prelude::*;

use core::marker::PhantomData;

use crate::item::Item;
use crate::pair::Pair;
use crate::strategies::each_against_random_n_strategy::EachAgainstRandomNStrategy;
use crate::strategies::each_with_each_strategy::EachWithEachStrategy;
use crate::strategies::each_with_each_strategy::each_with_each_pairs;
use crate::strategy::Strategy;
use crate::strategy::distinct_ids;
use crate::strategy::no_duplicate_pairs;
use crate::strategy::pairs_wf;

verus! {

/// Phase marker: no strategy applied yet, the session only holds its items.
pub struct NoStrategy;

/// Phase marker: a strategy has been applied, the pair queue is consumable.
pub struct WithStrategy;

/// A two-phase comparison session. In the unconfigured phase it holds the
/// wrapped items alone; applying a strategy once moves it to the configured
/// phase, where the queue of pairs is served front to back by `next`. The
/// phase is part of the type, so a strategy cannot be applied twice and the
/// queue cannot be read before one is applied.
///
/// Items live in the session's own arena; a pair refers to its two items by
/// id, and the caller scores the winner of a comparison through
/// `add_one_point` with that id.
pub struct RankingSession<T, State = NoStrategy> {
    items: Vec<Item<T>>,
    pairs: Vec<Pair>,
    cursor: usize,
    total_pairs: usize,
    state: PhantomData<State>,
}

impl<T, State> RankingSession<T, State> {
    pub closed spec fn spec_items(&self) -> Seq<Item<T>> {
        self.items@
    }

    pub closed spec fn spec_pairs(&self) -> Seq<Pair> {
        self.pairs@
    }

    /// How many pairs have been served already.
    pub closed spec fn spec_cursor(&self) -> int {
        self.cursor as int
    }

    pub closed spec fn spec_total_pairs(&self) -> int {
        self.total_pairs as int
    }

    /// The ids of the session's items, in item order.
    pub open spec fn ids(&self) -> Seq<usize> {
        self.spec_items().map_values(|it: Item<T>| it.spec_id())
    }

    /// The session's invariant: ids are unique, the fixed total matches the
    /// queue, served pairs never outnumber the queue, and every queued pair
    /// joins two distinct items of the session.
    pub open spec fn wf(&self) -> bool {
        &&& distinct_ids(self.ids())
        &&& self.spec_total_pairs() == self.spec_pairs().len()
        &&& 0 <= self.spec_cursor() <= self.spec_pairs().len()
        &&& pairs_wf(self.spec_pairs(), self.ids())
        &&& no_duplicate_pairs(self.spec_pairs())
    }

    /// No strategy has been applied: no pairs, nothing served.
    pub open spec fn unconfigured(&self) -> bool {
        self.spec_pairs().len() == 0 && self.spec_cursor() == 0
    }

    pub fn items(&self) -> (r: &Vec<Item<T>>)
        ensures
            r@ == self.spec_items(),
    {
        &self.items
    }

    pub fn items_count(&self) -> (r: usize)
        ensures
            r == self.spec_items().len(),
    {
        self.items.len()
    }

    /// Scores one win for the item with this id, if the session holds it:
    /// that item's score grows by one and every other item is untouched.
    pub fn add_one_point(&mut self, id: usize) -> (found: bool)
        requires
            old(self).wf(),
            forall|i: int|
                0 <= i < old(self).spec_items().len() && (#[trigger] old(self).spec_items()[i]).spec_id()
                    == id ==> old(self).spec_items()[i].spec_score() < usize::MAX,
        ensures
            final(self).wf(),
            final(self).spec_pairs() == old(self).spec_pairs(),
            final(self).spec_cursor() == old(self).spec_cursor(),
            final(self).spec_total_pairs() == old(self).spec_total_pairs(),
            final(self).spec_items().len() == old(self).spec_items().len(),
            found == old(self).ids().contains(id),
            forall|i: int|
                0 <= i < old(self).spec_items().len() ==> {
                    let before = old(self).spec_items()[i];
                    let after = #[trigger] final(self).spec_items()[i];
                    &&& after.spec_id() == before.spec_id()
                    &&& after.spec_value() == before.spec_value()
                    &&& after.spec_score() == if before.spec_id() == id {
                        before.spec_score() + 1
                    } else {
                        before.spec_score() as int
                    }
                },
    {
        let n = self.items.len();
        let mut i: usize = 0;
        while i < n
            invariant
                i <= n,
                n == self.spec_items().len(),
                old(self).wf(),
                *self == *old(self),
                forall|k: int|
                    0 <= k < i ==> (#[trigger] self.spec_items()[k]).spec_id() != id,
                forall|k: int|
                    0 <= k < n && (#[trigger] self.spec_items()[k]).spec_id() == id
                        ==> self.spec_items()[k].spec_score() < usize::MAX,
            decreases n - i,
        {
            if self.items[i].id() == id {
                let ghost old_items = self.items@;
                let mut it = self.items.remove(i);
                it.add_one_point();
                self.items.insert(i, it);
                proof {
                    old_items.remove_ensures(i as int);
                    assert(self.items@ =~= old_items.update(i as int, it));
                    assert(self.ids() =~= old(self).ids());
                    assert(old(self).ids()[i as int] == id);
                    assert(old(self).ids().contains(id));
                    assert forall|k: int|
                        0 <= k < old_items.len() && k != i implies (
                    #[trigger] old_items[k]).spec_id() != id by {
                        assert(old(self).ids().len() == old_items.len());
                        assert(old(self).ids()[k] == old_items[k].spec_id());
                        crate::strategy::lemma_distinct_ids_at(old(self).ids(), i as int, k);
                    };
                    assert forall|k: int| 0 <= k < old_items.len() implies (
                    #[trigger] self.items@[k]).spec_id() == old_items[k].spec_id()
                        && self.items@[k].spec_value() == old_items[k].spec_value() by {
                        if k != i {
                            assert(self.items@[k] == old_items[k]);
                        }
                    };
                }
                return true;
            }
            i = i + 1;
        }
        proof {
            if old(self).ids().contains(id) {
                let k = choose|k: int|
                    0 <= k < old(self).ids().len() && old(self).ids()[k] == id;
                assert(old(self).spec_items()[k].spec_id() == id);
            }
        }
        false
    }

    /// The (score, id) of every item, sorted by score descending. Ties keep
    /// no particular order; breaking them is the caller's affair.
    pub fn leaderboard(&self) -> (r: Vec<(usize, usize)>)
        ensures
            r@.len() == self.spec_items().len(),
            r@.to_multiset() == self.spec_items().map_values(
                |it: Item<T>| (it.spec_score(), it.spec_id()),
            ).to_multiset(),
            forall|x: int, y: int|
                0 <= x < y < r@.len() ==> (#[trigger] r@[x]).0 >= (#[trigger] r@[y]).0,
    {
        broadcast use vstd::seq_lib::group_to_multiset_ensures;
        broadcast use vstd::multiset::group_multiset_axioms;

        let ghost full = self.spec_items().map_values(
            |it: Item<T>| (it.spec_score(), it.spec_id()),
        );
        let n = self.items.len();
        let mut entries: Vec<(usize, usize)> = Vec::new();
        let mut i: usize = 0;
        while i < n
            invariant
                i <= n,
                n == self.spec_items().len(),
                full == self.spec_items().map_values(
                    |it: Item<T>| (it.spec_score(), it.spec_id()),
                ),
                entries@ == full.take(i as int),
            decreases n - i,
        {
            let score = self.items[i].score();
            let id = self.items[i].id();
            entries.push((score, id));
            proof {
                assert(entries@ =~= full.take(i + 1));
            }
            i = i + 1;
        }
        proof {
            assert(full.take(n as int) =~= full);
        }
        let mut sorted: Vec<(usize, usize)> = Vec::new();
        while entries.len() > 0
            invariant
                sorted@.to_multiset().add(entries@.to_multiset()) == full.to_multiset(),
                sorted@.len() + entries@.len() == full.len(),
                forall|x: int, y: int|
                    0 <= x < y < sorted@.len() ==> (#[trigger] sorted@[x]).0
                        >= (#[trigger] sorted@[y]).0,
                forall|x: int, y: int|
                    0 <= x < sorted@.len() && 0 <= y < entries@.len() ==> (
                    #[trigger] sorted@[x]).0 >= (#[trigger] entries@[y]).0,
            decreases entries@.len(),
        {
            let mut best: usize = 0;
            let mut m: usize = 1;
            while m < entries.len()
                invariant
                    entries@.len() > 0,
                    best < entries@.len(),
                    m <= entries@.len(),
                    forall|k: int|
                        0 <= k < m ==> (#[trigger] entries@[k]).0 <= entries@[best as int].0,
                decreases entries@.len() - m,
            {
                if entries[m].0 > entries[best].0 {
                    best = m;
                }
                m = m + 1;
            }
            let ghost old_entries = entries@;
            let ghost old_sorted = sorted@;
            let e = entries.remove(best);
            sorted.push(e);
            proof {
                old_entries.remove_ensures(best as int);
                old_entries.to_multiset_ensures();
                old_sorted.to_multiset_ensures();
                assert(old_entries.contains(e));
                assert(old_entries.to_multiset().count(e) > 0);
                assert(sorted@.to_multiset() =~= old_sorted.to_multiset().insert(e));
                assert(entries@.to_multiset() =~= old_entries.to_multiset().remove(e));
                assert(sorted@.to_multiset().add(entries@.to_multiset()) =~= old_sorted.to_multiset().add(
                    old_entries.to_multiset(),
                ));
                assert forall|x: int, y: int|
                    0 <= x < sorted@.len() && 0 <= y < entries@.len() implies (
                #[trigger] sorted@[x]).0 >= (#[trigger] entries@[y]).0 by {
                    let y0 = if y < best {
                        y
                    } else {
                        y + 1
                    };
                    assert(entries@[y] == old_entries[y0]);
                    assert(old_entries[y0].0 <= e.0);
                    if x < old_sorted.len() {
                        assert(sorted@[x] == old_sorted[x]);
                    } else {
                        assert(sorted@[x] == e);
                    }
                };
            }
        }
        sorted
    }
}

impl<T> RankingSession<T, NoStrategy> {
    /// Wraps each value in a fresh item: ids are `first_id`, `first_id + 1`,
    /// ... in value order, scores start at zero, and no pairs exist yet.
    pub fn new(values: Vec<T>, first_id: usize) -> (r: RankingSession<T, NoStrategy>)
        requires
            first_id + values@.len() <= usize::MAX,
        ensures
            r.wf(),
            r.unconfigured(),
            r.spec_items().len() == values@.len(),
            forall|i: int|
                0 <= i < values@.len() ==> {
                    let it = #[trigger] r.spec_items()[i];
                    &&& it.spec_id() == first_id + i
                    &&& it.spec_score() == 0
                    &&& it.spec_value() == values@[i]
                },
    {
        let ghost vals = values@;
        let n = values.len();
        let mut values = values;
        let mut items: Vec<Item<T>> = Vec::new();
        let mut i: usize = 0;
        while i < n
            invariant
                i <= n,
                n == vals.len(),
                first_id + n <= usize::MAX,
                values@ == vals.skip(i as int),
                items@.len() == i,
                forall|k: int|
                    0 <= k < i ==> {
                        let it = #[trigger] items@[k];
                        &&& it.spec_id() == first_id + k
                        &&& it.spec_score() == 0
                        &&& it.spec_value() == vals[k]
                    },
            decreases n - i,
        {
            let v = values.remove(0);
            proof {
                assert(vals.skip(i as int)[0] == vals[i as int]);
                assert(vals.skip(i as int).remove(0) =~= vals.skip(i + 1));
            }
            items.push(Item::new(v, first_id + i));
            i = i + 1;
        }
        let r = RankingSession {
            items,
            pairs: Vec::new(),
            cursor: 0,
            total_pairs: 0,
            state: PhantomData,
        };
        proof {
            assert forall|x: int, y: int| 0 <= x < y < r.ids().len() implies r.ids()[x]
                != r.ids()[y] by {
                assert(r.ids()[x] == first_id + x);
                assert(r.ids()[y] == first_id + y);
            };
        }
        r
    }

    /// Applies the strategy once over the session's items, fixing the pair
    /// queue and its total; the session moves to the configured phase.
    pub fn with_strategy<S: Strategy>(self, strategy: S) -> (r: RankingSession<T, WithStrategy>)
        requires
            self.wf(),
            self.unconfigured(),
            strategy.compatible(self.ids()),
        ensures
            r.wf(),
            r.spec_items() == self.spec_items(),
            r.spec_cursor() == 0,
            r.spec_total_pairs() == r.spec_pairs().len(),
            strategy.allows(self.ids(), r.spec_pairs()),
    {
        let ghost gids = self.ids();
        let mut ids: Vec<usize> = Vec::new();
        let n = self.items.len();
        let mut i: usize = 0;
        while i < n
            invariant
                i <= n,
                n == self.spec_items().len(),
                gids == self.ids(),
                ids@ == gids.take(i as int),
            decreases n - i,
        {
            let id = self.items[i].id();
            ids.push(id);
            proof {
                assert(ids@ =~= gids.take(i + 1));
            }
            i = i + 1;
        }
        proof {
            assert(gids.take(n as int) =~= gids);
        }
        let pairs = strategy.comparison_pairs(&ids);
        let total_pairs = pairs.len();
        RankingSession { items: self.items, pairs, cursor: 0, total_pairs, state: PhantomData }
    }

    /// Applies the each-with-each strategy: all distinct unordered pairs,
    /// in generation order unless `shuffle` permutes them.
    pub fn with_each_with_each_strategy(self, shuffle: bool) -> (r: RankingSession<
        T,
        WithStrategy,
    >)
        requires
            self.wf(),
            self.unconfigured(),
        ensures
            r.wf(),
            r.spec_items() == self.spec_items(),
            r.spec_cursor() == 0,
            r.spec_total_pairs() == r.spec_pairs().len(),
            r.spec_pairs().len() == self.spec_items().len() * (self.spec_items().len() - 1) / 2,
            r.spec_pairs().to_multiset() == each_with_each_pairs(self.ids()).to_multiset(),
            !shuffle ==> r.spec_pairs() == each_with_each_pairs(self.ids()),
    {
        self.with_strategy(EachWithEachStrategy::new(shuffle))
    }

    /// Applies the each-against-random-n strategy: `n_random` pairs per item
    /// with random other items, no unordered pair twice.
    pub fn with_each_against_random_n_strategy(self, shuffle: bool, n_random: usize) -> (r:
        RankingSession<T, WithStrategy>)
        requires
            self.wf(),
            self.unconfigured(),
            self.spec_items().len() == 0 || 2 * n_random <= self.spec_items().len() - 1,
        ensures
            r.wf(),
            r.spec_items() == self.spec_items(),
            r.spec_cursor() == 0,
            r.spec_total_pairs() == r.spec_pairs().len(),
            r.spec_pairs().len() == self.spec_items().len() * n_random,
    {
        self.with_strategy(EachAgainstRandomNStrategy::new(shuffle, n_random))
    }
}

impl<T> RankingSession<T, WithStrategy> {
    /// How many pairs the applied strategy produced; fixed at configuration.
    pub fn total_pairs(&self) -> (r: usize)
        ensures
            r == self.spec_total_pairs(),
    {
        self.total_pairs
    }

    /// How many pairs have been served so far: total minus remaining.
    pub fn current_pair_index(&self) -> (r: usize)
        ensures
            r == self.spec_cursor(),
    {
        self.cursor
    }

    /// Serves the next pair of the queue, or nothing once the queue is
    /// exhausted; asking again after exhaustion keeps returning nothing.
    pub fn next(&mut self) -> (r: Option<Pair>)
        requires
            old(self).wf(),
        ensures
            final(self).wf(),
            final(self).spec_items() == old(self).spec_items(),
            final(self).spec_pairs() == old(self).spec_pairs(),
            final(self).spec_total_pairs() == old(self).spec_total_pairs(),
            old(self).spec_cursor() < old(self).spec_pairs().len() ==> {
                &&& r == Some(old(self).spec_pairs()[old(self).spec_cursor()])
                &&& final(self).spec_cursor() == old(self).spec_cursor() + 1
            },
            old(self).spec_cursor() >= old(self).spec_pairs().len() ==> {
                &&& r is None
                &&& final(self).spec_cursor() == old(self).spec_cursor()
            },
    {
        if self.cursor < self.pairs.len() {
            let p = self.pairs[self.cursor];
            self.cursor = self.cursor + 1;
            Some(p)
        } else {
            None
        }
    }
}

} // verus!
