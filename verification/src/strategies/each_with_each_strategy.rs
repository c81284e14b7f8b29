use vstd::prelude::*;

use crate::pair::Pair;
use crate::pair::pair_eq;
use crate::rng::shuffle_pairs;
use crate::strategy::Strategy;
use crate::strategy::distinct_ids;
use crate::strategy::lemma_permutation_keeps_validity;
use crate::strategy::no_duplicate_pairs;
use crate::strategy::pair_wf;
use crate::strategy::pairs_wf;

verus! {

/// The pairs that join `ids[i]` with every later id, in index order:
/// (ids[i], ids[j]) for j in i+1..len.
pub open spec fn row_pairs(ids: Seq<usize>, i: int) -> Seq<Pair>
    recommends
        0 <= i < ids.len(),
{
    Seq::new((ids.len() - i - 1) as nat, |k: int| Pair { left: ids[i], right: ids[i + 1 + k] })
}

/// The pairs generated by the outer indices below `i`, in generation order.
pub open spec fn pairs_upto(ids: Seq<usize>, i: int) -> Seq<Pair>
    decreases i,
{
    if i <= 0 {
        Seq::empty()
    } else {
        pairs_upto(ids, i - 1) + row_pairs(ids, i - 1)
    }
}

/// Every unordered pair of distinct indices exactly once, in generation
/// order: i outer, j inner, i < j.
pub open spec fn each_with_each_pairs(ids: Seq<usize>) -> Seq<Pair> {
    pairs_upto(ids, ids.len() as int)
}

/// `p` joins the ids at positions `a < b`.
pub open spec fn pair_at(ids: Seq<usize>, p: Pair, a: int, b: int) -> bool {
    &&& 0 <= a < b < ids.len()
    &&& p.left == ids[a]
    &&& p.right == ids[b]
}

/// `p` joins two ids whose positions are in order, the first below `bound`.
pub open spec fn indexed_below(ids: Seq<usize>, p: Pair, bound: int) -> bool {
    exists|a: int, b: int| pair_at(ids, p, a, b) && a < bound
}

/// The queue holds the pair of the ids at positions `a` and `b`, left from
/// position `a`.
pub open spec fn covers(pairs: Seq<Pair>, ids: Seq<usize>, a: int, b: int) -> bool {
    exists|k: int|
        0 <= k < pairs.len() && #[trigger] pairs[k] == (Pair { left: ids[a], right: ids[b] })
}

proof fn lemma_upto_len(ids: Seq<usize>, i: int)
    requires
        0 <= i <= ids.len(),
    ensures
        2 * pairs_upto(ids, i).len() == (2 * ids.len() - i - 1) * i,
    decreases i,
{
    if i > 0 {
        lemma_upto_len(ids, i - 1);
        let n = ids.len() as int;
        assert(2 * pairs_upto(ids, i).len() == (2 * n - i - 1) * i) by (nonlinear_arith)
            requires
                2 * pairs_upto(ids, i - 1).len() == (2 * n - (i - 1) - 1) * (i - 1),
                pairs_upto(ids, i).len() == pairs_upto(ids, i - 1).len() + (n - i),
        {
        }
    } else {
        assert(pairs_upto(ids, 0) =~= Seq::<Pair>::empty());
    }
}

proof fn lemma_upto_indexed(ids: Seq<usize>, i: int)
    requires
        0 <= i <= ids.len(),
    ensures
        forall|k: int|
            0 <= k < pairs_upto(ids, i).len() ==> indexed_below(
                ids,
                #[trigger] pairs_upto(ids, i)[k],
                i,
            ),
    decreases i,
{
    if i > 0 {
        lemma_upto_indexed(ids, i - 1);
        let prev = pairs_upto(ids, i - 1);
        let row = row_pairs(ids, i - 1);
        let cur = pairs_upto(ids, i);
        assert forall|k: int| 0 <= k < cur.len() implies indexed_below(
            ids,
            #[trigger] cur[k],
            i,
        ) by {
            if k < prev.len() {
                assert(cur[k] == prev[k]);
                assert(indexed_below(ids, prev[k], i - 1));
                let (a, b) = choose|a: int, b: int| pair_at(ids, prev[k], a, b) && a < i - 1;
                assert(pair_at(ids, cur[k], a, b) && a < i);
            } else {
                let b = k - prev.len() + i;
                assert(cur[k] == row[k - prev.len()]);
                assert(pair_at(ids, cur[k], i - 1, b) && i - 1 < i);
            }
        }
    }
}

proof fn lemma_upto_covers(ids: Seq<usize>, i: int)
    requires
        0 <= i <= ids.len(),
    ensures
        forall|a: int, b: int|
            0 <= a < i && a < b < ids.len() ==> #[trigger] covers(pairs_upto(ids, i), ids, a, b),
    decreases i,
{
    if i > 0 {
        lemma_upto_covers(ids, i - 1);
        let prev = pairs_upto(ids, i - 1);
        let row = row_pairs(ids, i - 1);
        let cur = pairs_upto(ids, i);
        assert forall|a: int, b: int| 0 <= a < i && a < b < ids.len() implies #[trigger] covers(
            cur,
            ids,
            a,
            b,
        ) by {
            if a < i - 1 {
                assert(covers(prev, ids, a, b));
                let k = choose|k: int|
                    0 <= k < prev.len() && #[trigger] prev[k] == (Pair {
                        left: ids[a],
                        right: ids[b],
                    });
                assert(cur[k] == prev[k]);
            } else {
                let k = prev.len() + (b - i);
                assert(cur[k] == row[b - i]);
                assert(row[b - i] == (Pair { left: ids[a], right: ids[b] }));
            }
        }
    }
}

proof fn lemma_upto_no_duplicates(ids: Seq<usize>, i: int)
    requires
        distinct_ids(ids),
        0 <= i <= ids.len(),
    ensures
        no_duplicate_pairs(pairs_upto(ids, i)),
    decreases i,
{
    if i > 0 {
        lemma_upto_no_duplicates(ids, i - 1);
        lemma_upto_indexed(ids, i - 1);
        let prev = pairs_upto(ids, i - 1);
        let row = row_pairs(ids, i - 1);
        let cur = pairs_upto(ids, i);
        assert forall|k1: int, k2: int| 0 <= k1 < k2 < cur.len() implies !pair_eq(
            cur[k1],
            cur[k2],
        ) by {
            if k2 < prev.len() {
                assert(cur[k1] == prev[k1] && cur[k2] == prev[k2]);
            } else if k1 >= prev.len() {
                let b1 = k1 - prev.len() + i;
                let b2 = k2 - prev.len() + i;
                assert(cur[k1] == row[k1 - prev.len()] && cur[k2] == row[k2 - prev.len()]);
                assert(cur[k1].left == ids[i - 1] && cur[k1].right == ids[b1]);
                assert(cur[k2].left == ids[i - 1] && cur[k2].right == ids[b2]);
                assert(ids[b1] != ids[b2]);
                assert(ids[i - 1] != ids[b2]);
            } else {
                assert(cur[k1] == prev[k1]);
                assert(indexed_below(ids, prev[k1], i - 1));
                let (a, b) = choose|a: int, b: int| pair_at(ids, prev[k1], a, b) && a < i - 1;
                let b2 = k2 - prev.len() + i;
                assert(cur[k2] == row[k2 - prev.len()]);
                assert(cur[k2].left == ids[i - 1] && cur[k2].right == ids[b2]);
                assert(ids[a] != ids[i - 1]);
                assert(ids[a] != ids[b2]);
            }
        }
    }
}

/// For n items the full enumeration holds exactly n*(n-1)/2 pairs: the pair
/// of every two distinct positions appears, no unordered pair appears twice,
/// and no pair joins an item with itself.
pub proof fn lemma_each_with_each_pairs_properties(ids: Seq<usize>)
    requires
        distinct_ids(ids),
    ensures
        each_with_each_pairs(ids).len() == ids.len() * (ids.len() - 1) / 2,
        2 * each_with_each_pairs(ids).len() == ids.len() * (ids.len() - 1),
        pairs_wf(each_with_each_pairs(ids), ids),
        no_duplicate_pairs(each_with_each_pairs(ids)),
        forall|a: int, b: int|
            0 <= a < b < ids.len() ==> #[trigger] covers(each_with_each_pairs(ids), ids, a, b),
{
    let n = ids.len() as int;
    let all = each_with_each_pairs(ids);
    lemma_upto_len(ids, n);
    lemma_upto_indexed(ids, n);
    lemma_upto_covers(ids, n);
    lemma_upto_no_duplicates(ids, n);
    assert(2 * all.len() == (2 * n - n - 1) * n);
    assert(all.len() == n * (n - 1) / 2) by (nonlinear_arith)
        requires
            2 * all.len() == (2 * n - n - 1) * n,
            n >= 0,
    {
    }
    assert forall|k: int| 0 <= k < all.len() implies pair_wf(#[trigger] all[k], ids) by {
        assert(indexed_below(ids, all[k], n));
        let (a, b) = choose|a: int, b: int| pair_at(ids, all[k], a, b) && a < n;
        assert(ids[a] == all[k].left);
        assert(ids[b] == all[k].right);
        assert(ids.contains(all[k].left));
        assert(ids.contains(all[k].right));
    };
}

/// Produces every unordered pair of distinct items exactly once, generated
/// in index order (i outer, j inner); if `shuffle` is set, the queue is
/// randomly permuted afterwards.
pub struct EachWithEachStrategy {
    pub shuffle: bool,
}

impl EachWithEachStrategy {
    pub fn new(shuffle: bool) -> (r: Self)
        ensures
            r.shuffle == shuffle,
    {
        EachWithEachStrategy { shuffle }
    }
}

impl Strategy for EachWithEachStrategy {
    open spec fn compatible(&self, ids: Seq<usize>) -> bool {
        distinct_ids(ids)
    }

    open spec fn allows(&self, ids: Seq<usize>, pairs: Seq<Pair>) -> bool {
        &&& pairs.len() == ids.len() * (ids.len() - 1) / 2
        &&& pairs.to_multiset() == each_with_each_pairs(ids).to_multiset()
        &&& !self.shuffle ==> pairs == each_with_each_pairs(ids)
    }

    fn comparison_pairs(&self, ids: &Vec<usize>) -> (pairs: Vec<Pair>) {
        let n = ids.len();
        let mut queue: Vec<Pair> = Vec::new();
        let mut i: usize = 0;
        while i < n
            invariant
                n == ids@.len(),
                distinct_ids(ids@),
                i <= n,
                queue@ == pairs_upto(ids@, i as int),
            decreases n - i,
        {
            let ghost row = row_pairs(ids@, i as int);
            let mut j: usize = i + 1;
            proof {
                assert(queue@ =~= pairs_upto(ids@, i as int) + row.take(0));
            }
            while j < n
                invariant
                    n == ids@.len(),
                    distinct_ids(ids@),
                    i < n,
                    i + 1 <= j <= n,
                    row == row_pairs(ids@, i as int),
                    queue@ == pairs_upto(ids@, i as int) + row.take(j - i - 1),
                decreases n - j,
            {
                queue.push(Pair::new(ids[i], ids[j]));
                proof {
                    assert(row[j - i - 1] == (Pair {
                        left: ids@[i as int],
                        right: ids@[j as int],
                    }));
                    assert(queue@ =~= pairs_upto(ids@, i as int) + row.take(j - i));
                }
                j = j + 1;
            }
            proof {
                assert(row.take(n - i - 1) =~= row);
                assert(queue@ =~= pairs_upto(ids@, i + 1));
            }
            i = i + 1;
        }
        proof {
            lemma_each_with_each_pairs_properties(ids@);
        }
        if self.shuffle {
            let ghost before = queue@;
            shuffle_pairs(&mut queue);
            proof {
                lemma_permutation_keeps_validity(before, queue@, ids@);
            }
        }
        queue
    }
}

} // verus!
