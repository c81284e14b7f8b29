use vstd::prelude::*;

use crate::ranking_session::NoStrategy;
use crate::ranking_session::RankingSession;

verus! {

/// The ids a fresh session gets: `start`, `start + 1`, ... for `n` items.
pub open spec fn id_range(start: usize, n: nat) -> Seq<usize> {
    Seq::new(n, |i: int| (start + i) as usize)
}

/// A factory holding the immutable list of raw values and producing fresh,
/// independent sessions over them. It owns the id counter: each session
/// wraps the values in new items whose ids the service has never handed out
/// before, so no two sessions of one service share item identity or scores.
pub struct RankingService<T> {
    items: Vec<T>,
    next_id: usize,
}

impl<T: Clone> RankingService<T> {
    pub closed spec fn spec_items(&self) -> Seq<T> {
        self.items@
    }

    /// The next id the service will hand out.
    pub closed spec fn spec_next_id(&self) -> usize {
        self.next_id
    }

    /// Stores the raw values as given; no session exists yet.
    pub fn new(items: Vec<T>) -> (r: Self)
        ensures
            r.spec_items() == items@,
            r.spec_next_id() == 0,
    {
        RankingService { items, next_id: 0 }
    }

    /// A fresh unconfigured session over clones of the stored values. Its
    /// item ids are the next run of ids this service has to give, so the id
    /// sets of two sessions of one service never meet; scores start at zero.
    pub fn new_session(&mut self) -> (r: RankingSession<T, NoStrategy>)
        requires
            old(self).spec_next_id() + old(self).spec_items().len() <= usize::MAX,
        ensures
            final(self).spec_items() == old(self).spec_items(),
            final(self).spec_next_id() == old(self).spec_next_id() + old(
                self,
            ).spec_items().len(),
            r.wf(),
            r.unconfigured(),
            r.spec_items().len() == old(self).spec_items().len(),
            r.ids() == id_range(
                old(self).spec_next_id(),
                old(self).spec_items().len() as nat,
            ),
            forall|i: int|
                0 <= i < old(self).spec_items().len() ==> {
                    let it = #[trigger] r.spec_items()[i];
                    &&& it.spec_score() == 0
                    &&& cloned::<T>(old(self).spec_items()[i], it.spec_value())
                },
    {
        let n = self.items.len();
        let start = self.next_id;
        let values = self.items.clone();
        let session = RankingSession::new(values, start);
        self.next_id = start + n;
        proof {
            assert(session.ids() =~= id_range(start, n as nat));
        }
        session
    }

    /// The raw values as given at construction, not the wrapped items.
    pub fn items(&self) -> (r: &Vec<T>)
        ensures
            r@ == self.spec_items(),
    {
        &self.items
    }
}

/// Sessions whose id ranges follow one another — as two sessions made one
/// after the other from one service do — have disjoint id sets, whatever
/// values they wrap.
pub proof fn lemma_sessions_have_disjoint_ids<T>(
    a: RankingSession<T, NoStrategy>,
    b: RankingSession<T, NoStrategy>,
    a_start: usize,
    b_start: usize,
)
    requires
        a.ids() == id_range(a_start, a.spec_items().len() as nat),
        b.ids() == id_range(b_start, b.spec_items().len() as nat),
        a_start + a.spec_items().len() <= b_start,
        b_start + b.spec_items().len() <= usize::MAX,
    ensures
        forall|x: int, y: int|
            #![trigger a.ids()[x], b.ids()[y]]
            0 <= x < a.ids().len() && 0 <= y < b.ids().len() ==> a.ids()[x] != b.ids()[y],
{
    assert forall|x: int, y: int|
        #![trigger a.ids()[x], b.ids()[y]]
        0 <= x < a.ids().len() && 0 <= y < b.ids().len() implies a.ids()[x] != b.ids()[y] by {
        assert(a.ids()[x] == a_start + x);
        assert(b.ids()[y] == b_start + y);
    };
}

} // verus!
