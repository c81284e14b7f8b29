use vstd::prelude::*;

use crate::pair::Pair;
use crate::pair::pair_eq;

verus! {

/// No two of the ids are the same.
pub open spec fn distinct_ids(ids: Seq<usize>) -> bool {
    forall|i: int, j: int| 0 <= i < j < ids.len() ==> ids[i] != ids[j]
}

/// The pair draws both of its handles from `ids` and never pairs an item
/// with itself.
pub open spec fn pair_wf(p: Pair, ids: Seq<usize>) -> bool {
    &&& ids.contains(p.left)
    &&& ids.contains(p.right)
    &&& p.left != p.right
}

/// Every pair of the queue is well-formed over `ids`.
pub open spec fn pairs_wf(pairs: Seq<Pair>, ids: Seq<usize>) -> bool {
    forall|k: int| 0 <= k < pairs.len() ==> pair_wf(#[trigger] pairs[k], ids)
}

/// No unordered pair occurs twice in the queue.
pub open spec fn no_duplicate_pairs(pairs: Seq<Pair>) -> bool {
    forall|i: int, j: int| 0 <= i < j < pairs.len() ==> !pair_eq(pairs[i], pairs[j])
}

/// Two different positions of a distinct id sequence hold different ids.
pub proof fn lemma_distinct_ids_at(ids: Seq<usize>, x: int, y: int)
    requires
        distinct_ids(ids),
        0 <= x < ids.len(),
        0 <= y < ids.len(),
        x != y,
    ensures
        ids[x] != ids[y],
{
}

/// Reordering a queue (shuffling it) keeps every pair well-formed and keeps
/// unordered pairs from repeating: both properties only depend on which
/// pairs the queue holds, not on where they stand.
pub proof fn lemma_permutation_keeps_validity(a: Seq<Pair>, b: Seq<Pair>, ids: Seq<usize>)
    requires
        a.to_multiset() == b.to_multiset(),
        pairs_wf(a, ids),
        no_duplicate_pairs(a),
    ensures
        pairs_wf(b, ids),
        no_duplicate_pairs(b),
{
    broadcast use vstd::seq_lib::group_to_multiset_ensures;

    assert(a.no_duplicates()) by {
        assert forall|p: int, q: int|
            0 <= p < a.len() && 0 <= q < a.len() && p != q implies a[p] != a[q] by {
            if a[p] == a[q] {
                if p < q {
                    assert(pair_eq(a[p], a[q]));
                } else {
                    assert(pair_eq(a[q], a[p]));
                }
            }
        }
    };
    a.lemma_multiset_has_no_duplicates();
    b.lemma_multiset_has_no_duplicates_conv();
    assert forall|k: int| 0 <= k < b.len() implies pair_wf(#[trigger] b[k], ids) by {
        assert(b.contains(b[k]));
        assert(a.to_multiset().count(b[k]) > 0);
        assert(a.contains(b[k]));
        let ka = choose|ka: int| 0 <= ka < a.len() && a[ka] == b[k];
        assert(pair_wf(a[ka], ids));
    };
    assert forall|i: int, j: int| 0 <= i < j < b.len() implies !pair_eq(b[i], b[j]) by {
        if pair_eq(b[i], b[j]) {
            assert(b[i] != b[j]);
            assert(b.contains(b[i]));
            assert(b.contains(b[j]));
            assert(a.to_multiset().count(b[i]) > 0);
            assert(a.to_multiset().count(b[j]) > 0);
            assert(a.contains(b[i]));
            assert(a.contains(b[j]));
            let ka = choose|ka: int| 0 <= ka < a.len() && a[ka] == b[i];
            let kb = choose|kb: int| 0 <= kb < a.len() && a[kb] == b[j];
            if ka < kb {
                assert(pair_eq(a[ka], a[kb]));
            } else {
                assert(pair_eq(a[kb], a[ka]));
            }
        }
    };
}

/// A pair-generation strategy: given the ordered ids of the full item set it
/// produces the queue of pairs to present.
///
/// `compatible` says which inputs the strategy is configured for, and
/// `allows` which queues it may hand back for them; whatever the strategy,
/// the queue only holds well-formed pairs, no self-pair among them, and no
/// unordered pair twice.
pub trait Strategy: Sized {
    spec fn compatible(&self, ids: Seq<usize>) -> bool;

    spec fn allows(&self, ids: Seq<usize>, pairs: Seq<Pair>) -> bool;

    fn comparison_pairs(&self, ids: &Vec<usize>) -> (pairs: Vec<Pair>)
        requires
            self.compatible(ids@),
        ensures
            self.allows(ids@, pairs@),
            pairs_wf(pairs@, ids@),
            no_duplicate_pairs(pairs@),
    ;
}

} // verus!
