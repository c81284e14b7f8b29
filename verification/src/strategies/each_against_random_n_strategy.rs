use vstd::prelude::*;

use crate::pair::Pair;
use crate::pair::pair_eq;
use crate::rng::random_index;
use crate::rng::shuffle_pairs;
use crate::strategies::each_with_each_strategy::EachWithEachStrategy;
use crate::strategy::Strategy;
use crate::strategy::distinct_ids;
use crate::strategy::lemma_permutation_keeps_validity;
use crate::strategy::no_duplicate_pairs;
use crate::strategy::pair_wf;
use crate::strategy::pairs_wf;

verus! {

/// No pair of the first queue equals (as an unordered pair) a pair of the
/// second.
pub open spec fn pools_disjoint(a: Seq<Pair>, b: Seq<Pair>) -> bool {
    forall|x: int, y: int|
        0 <= x < a.len() && 0 <= y < b.len() ==> !pair_eq(#[trigger] a[x], #[trigger] b[y])
}

/// The position of the first pool entry that equals `p` as an unordered
/// pair, if the pool holds one.
fn find_pair(pool: &Vec<Pair>, p: Pair) -> (r: Option<usize>)
    ensures
        r is Some ==> r->0 < pool@.len() && pair_eq(pool@[r->0 as int], p),
        r is None ==> forall|k: int| 0 <= k < pool@.len() ==> !pair_eq(#[trigger] pool@[k], p),
{
    let mut k: usize = 0;
    while k < pool.len()
        invariant
            k <= pool@.len(),
            forall|m: int| 0 <= m < k ==> !pair_eq(#[trigger] pool@[m], p),
        decreases pool@.len() - k,
    {
        let q = pool[k];
        if q == p {
            return Some(k);
        }
        k = k + 1;
    }
    None
}

/// For each item in index order, joins it with `n_random` random other
/// items, skipping a drawn partner when the unordered pair is already taken;
/// if `shuffle` is set, the queue is randomly permuted afterwards.
///
/// Each slot is filled from the pool of pairs not yet taken, so the queue
/// can never repeat an unordered pair. A drawn partner that repeats one is
/// rejected and redrawn, a bounded number of times; after that the slot
/// falls back to the first pair still missing, which keeps the generation
/// loop terminating where endless rejection sampling would not.
pub struct EachAgainstRandomNStrategy {
    pub shuffle: bool,
    pub n_random: usize,
}

impl EachAgainstRandomNStrategy {
    pub fn new(shuffle: bool, n_random: usize) -> (r: Self)
        ensures
            r.shuffle == shuffle,
            r.n_random == n_random,
    {
        EachAgainstRandomNStrategy { shuffle, n_random }
    }
}

impl Strategy for EachAgainstRandomNStrategy {
    open spec fn compatible(&self, ids: Seq<usize>) -> bool {
        &&& distinct_ids(ids)
        &&& ids.len() == 0 || 2 * self.n_random <= ids.len() - 1
    }

    open spec fn allows(&self, ids: Seq<usize>, pairs: Seq<Pair>) -> bool {
        pairs.len() == ids.len() * self.n_random
    }

    fn comparison_pairs(&self, ids: &Vec<usize>) -> (pairs: Vec<Pair>) {
        let n = ids.len();
        let enumeration = EachWithEachStrategy::new(false);
        let mut pool = enumeration.comparison_pairs(ids);
        let ghost total = pool@.len() as int;
        proof {
            crate::strategies::each_with_each_strategy::lemma_each_with_each_pairs_properties(
                ids@,
            );
        }
        let mut queue: Vec<Pair> = Vec::new();
        let mut left_index: usize = 0;
        while left_index < n
            invariant
                n == ids@.len(),
                self.compatible(ids@),
                left_index <= n,
                queue@.len() == left_index * self.n_random,
                queue@.len() + pool@.len() == total,
                2 * total == n * (n - 1),
                pairs_wf(queue@, ids@),
                no_duplicate_pairs(queue@),
                pairs_wf(pool@, ids@),
                no_duplicate_pairs(pool@),
                pools_disjoint(queue@, pool@),
            decreases n - left_index,
        {
            let mut added: usize = 0;
            while added < self.n_random
                invariant
                    n == ids@.len(),
                    self.compatible(ids@),
                    left_index < n,
                    added <= self.n_random,
                    queue@.len() == left_index * self.n_random + added,
                    queue@.len() + pool@.len() == total,
                    2 * total == n * (n - 1),
                    pairs_wf(queue@, ids@),
                    no_duplicate_pairs(queue@),
                    pairs_wf(pool@, ids@),
                    no_duplicate_pairs(pool@),
                    pools_disjoint(queue@, pool@),
                decreases self.n_random - added,
            {
                proof {
                    assert(2 * queue@.len() < 2 * total) by (nonlinear_arith)
                        requires
                            queue@.len() == left_index * self.n_random + added,
                            0 <= left_index < n,
                            0 <= added < self.n_random,
                            2 * total == n * (n - 1),
                            2 * self.n_random <= n - 1,
                    {
                    }
                }
                let mut choice: usize = pool.len();
                let mut attempt: usize = 0;
                while attempt < 32 && choice == pool.len()
                    invariant
                        n == ids@.len(),
                        left_index < n,
                        choice <= pool@.len(),
                    decreases 32 - attempt,
                {
                    let right_index = random_index(n);
                    if right_index != left_index {
                        let candidate = Pair::new(ids[left_index], ids[right_index]);
                        if let Some(k) = find_pair(&pool, candidate) {
                            choice = k;
                        }
                    }
                    attempt = attempt + 1;
                }
                if choice == pool.len() {
                    choice = 0;
                }
                let ghost old_pool = pool@;
                let ghost old_queue = queue@;
                let chosen = pool.remove(choice);
                let left_id = ids[left_index];
                let p = if chosen.right == left_id {
                    Pair::new(left_id, chosen.left)
                } else {
                    chosen
                };
                queue.push(p);
                proof {
                    old_pool.remove_ensures(choice as int);
                    assert(pair_eq(p, chosen));
                    assert(pair_wf(chosen, ids@));
                    assert(pair_wf(p, ids@));
                    // the queue stays well-formed and without repeats
                    assert forall|x: int| 0 <= x < queue@.len() implies pair_wf(
                        #[trigger] queue@[x],
                        ids@,
                    ) by {
                        if x < old_queue.len() {
                            assert(queue@[x] == old_queue[x]);
                        } else {
                            assert(queue@[x] == p);
                        }
                    };
                    assert forall|x: int, y: int| 0 <= x < y < queue@.len() implies !pair_eq(
                        queue@[x],
                        queue@[y],
                    ) by {
                        if y < old_queue.len() {
                            assert(queue@[x] == old_queue[x]);
                            assert(queue@[y] == old_queue[y]);
                        } else {
                            assert(queue@[x] == old_queue[x]);
                            assert(queue@[y] == p);
                            assert(!pair_eq(old_queue[x], old_pool[choice as int]));
                        }
                    };
                    // the pool keeps its shape with one entry taken out
                    assert forall|x: int| 0 <= x < pool@.len() implies pair_wf(
                        #[trigger] pool@[x],
                        ids@,
                    ) by {
                        if x < choice {
                            assert(pool@[x] == old_pool[x]);
                        } else {
                            assert(pool@[x] == old_pool[x + 1]);
                        }
                    };
                    assert forall|x: int, y: int| 0 <= x < y < pool@.len() implies !pair_eq(
                        pool@[x],
                        pool@[y],
                    ) by {
                        let x0 = if x < choice {
                            x
                        } else {
                            x + 1
                        };
                        let y0 = if y < choice {
                            y
                        } else {
                            y + 1
                        };
                        assert(pool@[x] == old_pool[x0]);
                        assert(pool@[y] == old_pool[y0]);
                    };
                    // the queue and the pool still share no unordered pair
                    assert forall|x: int, y: int|
                        0 <= x < queue@.len() && 0 <= y < pool@.len() implies !pair_eq(
                        #[trigger] queue@[x],
                        #[trigger] pool@[y],
                    ) by {
                        let y0 = if y < choice {
                            y
                        } else {
                            y + 1
                        };
                        assert(pool@[y] == old_pool[y0]);
                        if x < old_queue.len() {
                            assert(queue@[x] == old_queue[x]);
                        } else {
                            assert(queue@[x] == p);
                            if y0 < choice {
                                assert(!pair_eq(old_pool[y0], old_pool[choice as int]));
                            } else {
                                assert(!pair_eq(old_pool[choice as int], old_pool[y0]));
                            }
                        }
                    };
                }
                added = added + 1;
            }
            proof {
                assert((left_index + 1) * self.n_random == left_index * self.n_random
                    + self.n_random) by (nonlinear_arith) {
                }
            }
            left_index = left_index + 1;
        }
        proof {
            assert(queue@.len() == n * self.n_random);
        }
        if self.shuffle {
            let ghost before = queue@;
            shuffle_pairs(&mut queue);
            proof {
                lemma_permutation_keeps_validity(before, queue@, ids@);
            }
        }
        queue
    }
}

} // verus!
