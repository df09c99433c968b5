//! Choosing among the entries of a list by what is known of each.
//!
//! Nothing here knows what a version or a range is. The entries of a catalog
//! are told apart by their position, a device's standing with each entry is a
//! flag, and the order of the versions is kept as a rank: the position an
//! entry would take if the catalog were sorted from the earliest version to
//! the latest.

use vstd::prelude::*;

verus! {

/// The positions at which `flags` is set, in ascending order.
pub open spec fn set_positions(flags: Seq<bool>) -> Seq<usize> {
    Seq::new(flags.len(), |i: int| i as usize).filter(|i: usize| flags[i as int])
}

/// Position `i` holds a rank, no position holds a higher one, and no earlier
/// position holds the same.
pub open spec fn is_highest(candidates: Seq<Option<usize>>, i: int) -> bool {
    &&& 0 <= i < candidates.len()
    &&& candidates[i] is Some
    &&& forall|j: int|
        0 <= j < candidates.len() && (#[trigger] candidates[j]) is Some ==> candidates[j]->0
            <= candidates[i]->0
    &&& forall|j: int|
        0 <= j < i && (#[trigger] candidates[j]) is Some ==> candidates[j]->0 < candidates[i]->0
}

/// Whether the item at position `j` was found to be later than a new item.
/// An item that `later` does not reach was not.
pub open spec fn is_later(later: Seq<bool>, j: int) -> bool {
    0 <= j < later.len() && later[j]
}

/// The rank of a new item among items ranked `ranks`, of which those marked
/// in `later` come after it: one above the highest rank of the others, or 0
/// where there are no others.
pub open spec fn is_rank_of_new(ranks: Seq<usize>, later: Seq<bool>, rank: int) -> bool {
    if forall|j: int| 0 <= j < ranks.len() ==> is_later(later, j) {
        rank == 0
    } else {
        exists|e: int|
            {
                &&& 0 <= e < ranks.len()
                &&& !is_later(later, e)
                &&& rank == #[trigger] ranks[e] + 1
                &&& forall|j: int|
                    0 <= j < ranks.len() && !is_later(later, j) ==> #[trigger] ranks[j] <= ranks[e]
            }
    }
}

/// The ranks after a new item has joined: every item that comes after the
/// new one moves up by one, the others stay, and the new item, which stands
/// last in the list, gets the rank that [`is_rank_of_new`] describes.
pub open spec fn is_placement(ranks: Seq<usize>, later: Seq<bool>, placed: Seq<usize>) -> bool {
    &&& placed.len() == ranks.len() + 1
    &&& forall|j: int|
        0 <= j < ranks.len() ==> #[trigger] placed[j] == if is_later(later, j) {
            ranks[j] + 1
        } else {
            ranks[j] as int
        }
    &&& is_rank_of_new(ranks, later, placed[ranks.len() as int] as int)
}

/// Taking one more flag into account adds its position if it is set.
pub proof fn lemma_set_positions_step(flags: Seq<bool>, n: int)
    requires
        0 <= n < flags.len(),
        flags.len() <= usize::MAX,
    ensures
        set_positions(flags.take(n + 1)) == if flags[n] {
            set_positions(flags.take(n)).push(n as usize)
        } else {
            set_positions(flags.take(n))
        },
{
    reveal(Seq::filter);
    let shorter = flags.take(n);
    let longer = flags.take(n + 1);
    let all = Seq::new(longer.len(), |i: int| i as usize);
    assert(all.drop_last() =~= Seq::new(shorter.len(), |i: int| i as usize));
    let kept = |i: usize| longer[i as int];
    let kept_before = |i: usize| shorter[i as int];
    assert(all.drop_last().filter(kept) == all.drop_last().filter(kept_before)) by {
        lemma_filter_agrees(all.drop_last(), kept, kept_before);
    }
}

/// Two tests that agree on every item of a list keep the same items.
proof fn lemma_filter_agrees<A>(items: Seq<A>, p: spec_fn(A) -> bool, q: spec_fn(A) -> bool)
    requires
        forall|i: int| 0 <= i < items.len() ==> p(#[trigger] items[i]) == q(items[i]),
    ensures
        items.filter(p) == items.filter(q),
    decreases items.len(),
{
    reveal(Seq::filter);
    if items.len() > 0 {
        lemma_filter_agrees(items.drop_last(), p, q);
    }
}

/// The positions at which `flags` is set, in ascending order.
pub fn select(flags: &Vec<bool>) -> (r: Vec<usize>)
    ensures
        r@ == set_positions(flags@),
{
    let n = flags.len();
    let mut found: Vec<usize> = Vec::new();
    let mut i: usize = 0;
    while i < n
        invariant
            n == flags.len(),
            i <= n,
            found@ == set_positions(flags@.take(i as int)),
        decreases n - i,
    {
        proof {
            lemma_set_positions_step(flags@, i as int);
        }
        if flags[i] {
            found.push(i);
        }
        i = i + 1;
    }
    assert(flags@.take(n as int) =~= flags@);
    found
}

/// The position of the highest rank among the candidates, the first one
/// where several hold it. A candidate that holds no rank is out of the
/// running: there is no answer exactly when none holds a rank.
pub fn highest(candidates: &Vec<Option<usize>>) -> (r: Option<usize>)
    ensures
        r is None <==> forall|j: int| 0 <= j < candidates.len() ==> candidates[j] is None,
        r matches Some(i) ==> is_highest(candidates@, i as int),
{
    let n = candidates.len();
    let mut leader: Option<usize> = None;
    let mut i: usize = 0;
    while i < n
        invariant
            n == candidates.len(),
            i <= n,
            match leader {
                None => forall|j: int| 0 <= j < i ==> candidates[j] is None,
                Some(l) => l < i && is_highest(candidates@.take(i as int), l as int),
            },
        decreases n - i,
    {
        let ghost seen = candidates@.take(i as int);
        let ghost next = candidates@.take(i + 1);
        match candidates[i] {
            None => {
                assert(leader matches Some(l) ==> is_highest(next, l as int)) by {
                    if let Some(l) = leader {
                        assert forall|j: int|
                            0 <= j < next.len() && (#[trigger] next[j]) is Some implies next[j]->0
                            <= next[l as int]->0 by {
                            assert(seen[j] is Some);
                        }
                        assert forall|j: int|
                            0 <= j < l && (#[trigger] next[j]) is Some implies next[j]->0
                            < next[l as int]->0 by {
                            assert(seen[j] is Some);
                        }
                    }
                }
            },
            Some(rank) => {
                let takes_over = match leader {
                    None => true,
                    Some(l) => match candidates[l] {
                        Some(best) => rank > best,
                        None => true,
                    },
                };
                if takes_over {
                    assert(is_highest(next, i as int)) by {
                        assert forall|j: int|
                            0 <= j < next.len() && (#[trigger] next[j]) is Some implies next[j]->0
                            <= next[i as int]->0 by {
                            if j < i {
                                assert(seen[j] is Some);
                            }
                        }
                        assert forall|j: int|
                            0 <= j < i && (#[trigger] next[j]) is Some implies next[j]->0
                            < next[i as int]->0 by {
                            assert(seen[j] is Some);
                        }
                    }
                    leader = Some(i);
                } else {
                    assert(leader matches Some(l) && is_highest(next, l as int)) by {
                        let l = leader->0;
                        assert forall|j: int|
                            0 <= j < next.len() && (#[trigger] next[j]) is Some implies next[j]->0
                            <= next[l as int]->0 by {
                            if j < i {
                                assert(seen[j] is Some);
                            }
                        }
                        assert forall|j: int|
                            0 <= j < l && (#[trigger] next[j]) is Some implies next[j]->0
                            < next[l as int]->0 by {
                            assert(seen[j] is Some);
                        }
                    }
                }
            },
        }
        i = i + 1;
    }
    assert(candidates@.take(n as int) =~= candidates@);
    leader
}

/// Ranks a new item among items that are ranked already.
///
/// `ranks` holds the ranks of the items so far, `later` says of each whether
/// it comes after the new item. The result holds the ranks of all of them,
/// the new item last.
pub fn place(ranks: &Vec<usize>, later: &Vec<bool>) -> (placed: Vec<usize>)
    requires
        forall|j: int| 0 <= j < ranks.len() ==> ranks[j] < usize::MAX,
    ensures
        is_placement(ranks@, later@, placed@),
{
    let n = ranks.len();
    let mut placed: Vec<usize> = Vec::new();
    let mut rank: usize = 0;
    let ghost mut top: int = -1;
    let mut j: usize = 0;
    while j < n
        invariant
            n == ranks.len(),
            j <= n,
            forall|k: int| 0 <= k < ranks.len() ==> ranks[k] < usize::MAX,
            placed.len() == j,
            forall|k: int|
                0 <= k < j ==> #[trigger] placed[k] == if is_later(later@, k) {
                    ranks[k] + 1
                } else {
                    ranks[k] as int
                },
            top == -1 ==> rank == 0 && forall|k: int| 0 <= k < j ==> is_later(later@, k),
            top != -1 ==> 0 <= top < j && !is_later(later@, top) && rank == ranks[top] + 1,
            forall|k: int| 0 <= k < j && !is_later(later@, k) ==> #[trigger] ranks[k] < rank,
        decreases n - j,
    {
        let comes_later = j < later.len() && later[j];
        if comes_later {
            placed.push(ranks[j] + 1);
        } else {
            placed.push(ranks[j]);
            if ranks[j] >= rank {
                rank = ranks[j] + 1;
                proof {
                    top = j as int;
                }
            }
        }
        j = j + 1;
    }
    placed.push(rank);
    proof {
        if top != -1 {
            assert(!(forall|k: int| 0 <= k < ranks@.len() ==> is_later(later@, k)));
            assert(forall|k: int|
                0 <= k < ranks@.len() && !is_later(later@, k) ==> #[trigger] ranks@[k]
                    <= ranks@[top]);
        }
    }
    placed
}

} // verus!
