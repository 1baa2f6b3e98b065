//! Ranking of counts: highest first, and among equal counts the one that
//! was seen first.

use vstd::prelude::*;

verus! {

/// Whether entry `i` comes before entry `j` in the ranking: it has the
/// higher count, or the same count and the earlier place.
pub open spec fn ranks_before(counts: Seq<u64>, i: int, j: int) -> bool {
    counts[i] > counts[j] || (counts[i] == counts[j] && i < j)
}

/// Whether `order` lists the first `n` places of `counts`, each once, in
/// ranking order.
pub open spec fn ranks_first(counts: Seq<u64>, n: int, order: Seq<usize>) -> bool {
    &&& order.len() == n
    &&& forall|k: int| 0 <= k < order.len() ==> (#[trigger] order[k]) < n
    &&& forall|k: int, l: int|
        0 <= k < l < order.len() ==> ranks_before(
            counts,
            (#[trigger] order[k]) as int,
            (#[trigger] order[l]) as int,
        )
    &&& forall|j: usize| j < n ==> #[trigger] order.contains(j)
}

/// Whether `order` lists all places of `counts`, each once, in ranking
/// order.
pub open spec fn is_ranking(counts: Seq<u64>, order: Seq<usize>) -> bool {
    ranks_first(counts, counts.len() as int, order)
}

/// The places of `counts` in ranking order.
pub open spec fn ranking(counts: Seq<u64>) -> Seq<usize> {
    choose|order: Seq<usize>| is_ranking(counts, order)
}

/// The places of the `limit` highest-ranking entries, in ranking order; all
/// places where there are no more than `limit`.
pub open spec fn top_places(counts: Seq<u64>, limit: nat) -> Seq<usize> {
    if limit <= counts.len() {
        ranking(counts).take(limit as int)
    } else {
        ranking(counts)
    }
}

/// Two rankings of the same counts agree on their first `n` places.
proof fn lemma_rankings_agree(counts: Seq<u64>, a: Seq<usize>, b: Seq<usize>, n: int)
    requires
        is_ranking(counts, a),
        is_ranking(counts, b),
        0 <= n <= counts.len(),
    ensures
        forall|k: int| 0 <= k < n ==> a[k] == b[k],
    decreases n,
{
    if n > 0 {
        lemma_rankings_agree(counts, a, b, n - 1);
        let x = a[n - 1];
        let y = b[n - 1];
        if x != y {
            if ranks_before(counts, x as int, y as int) {
                assert(b.contains(x));
                let m = b.index_of(x);
                if m < n - 1 {
                    assert(a[m] == x);
                    assert(ranks_before(counts, a[m] as int, a[n - 1] as int));
                } else if m > n - 1 {
                    assert(ranks_before(counts, b[n - 1] as int, b[m] as int));
                }
            } else {
                assert(ranks_before(counts, y as int, x as int));
                assert(a.contains(y));
                let m = a.index_of(y);
                if m < n - 1 {
                    assert(b[m] == y);
                    assert(ranks_before(counts, b[m] as int, b[n - 1] as int));
                } else if m > n - 1 {
                    assert(ranks_before(counts, a[n - 1] as int, a[m] as int));
                }
            }
        }
    }
}

/// Counts have one ranking only: whatever lists all places in ranking order
/// is the ranking.
pub proof fn lemma_ranking_unique(counts: Seq<u64>, order: Seq<usize>)
    requires
        is_ranking(counts, order),
    ensures
        order == ranking(counts),
{
    let chosen = ranking(counts);
    assert(is_ranking(counts, chosen));
    lemma_rankings_agree(counts, order, chosen, counts.len() as int);
    assert(order =~= chosen);
}

/// Putting the next place into a ranking of the places before it, behind
/// every entry that has at least its count, gives a ranking again.
pub proof fn lemma_insert_keeps_ranking(counts: Seq<u64>, before: Seq<usize>, i: usize, at: int)
    requires
        i < counts.len(),
        ranks_first(counts, i as int, before),
        0 <= at <= before.len(),
        at > 0 ==> counts[before[at - 1] as int] >= counts[i as int],
        forall|k: int| at <= k < before.len() ==> counts[(#[trigger] before[k]) as int] < counts[i as int],
    ensures
        ranks_first(counts, i + 1, before.insert(at, i)),
{
    let after = before.insert(at, i);
    assert forall|k: int| 0 <= k < after.len() implies (#[trigger] after[k]) < i + 1 by {
        if k < at {
            assert(after[k] == before[k]);
        } else if k > at {
            assert(after[k] == before[k - 1]);
        }
    }
    assert forall|k: int, l: int| 0 <= k < l < after.len() implies ranks_before(
        counts,
        (#[trigger] after[k]) as int,
        (#[trigger] after[l]) as int,
    ) by {
        if l < at {
            assert(after[k] == before[k] && after[l] == before[l]);
        } else if l == at {
            assert(after[k] == before[k]);
            assert(before[k] < i);
            if k < at - 1 {
                assert(ranks_before(counts, before[k] as int, before[at - 1] as int));
            }
        } else if k < at {
            assert(after[k] == before[k] && after[l] == before[l - 1]);
        } else if k == at {
            assert(after[l] == before[l - 1]);
        } else {
            assert(after[k] == before[k - 1] && after[l] == before[l - 1]);
        }
    }
    assert forall|j: usize| j < i + 1 implies #[trigger] after.contains(j) by {
        if j < i {
            assert(before.contains(j));
            let k = before.index_of(j);
            if k < at {
                assert(after[k] == j);
            } else {
                assert(after[k + 1] == j);
            }
        } else {
            assert(after[at] == j);
        }
    }
}

/// The place at which the next entry goes into a ranking: behind every
/// entry that has at least its count.
proof fn lemma_insert_place(counts: Seq<u64>, before: Seq<usize>, i: usize, from: int) -> (at: int)
    requires
        i < counts.len(),
        ranks_first(counts, i as int, before),
        0 <= from <= before.len(),
        forall|k: int| from <= k < before.len() ==> counts[(#[trigger] before[k]) as int] < counts[i as int],
    ensures
        0 <= at <= from,
        at > 0 ==> counts[before[at - 1] as int] >= counts[i as int],
        forall|k: int| at <= k < before.len() ==> counts[(#[trigger] before[k]) as int] < counts[i as int],
    decreases from,
{
    if from > 0 && counts[before[from - 1] as int] < counts[i as int] {
        lemma_insert_place(counts, before, i, from - 1)
    } else {
        from
    }
}

/// The first `n` places of any counts can be ranked.
proof fn lemma_ranks_first_exists(counts: Seq<u64>, n: nat) -> (order: Seq<usize>)
    requires
        n <= counts.len(),
        counts.len() <= usize::MAX,
    ensures
        ranks_first(counts, n as int, order),
    decreases n,
{
    if n == 0 {
        Seq::empty()
    } else {
        let before = lemma_ranks_first_exists(counts, (n - 1) as nat);
        let i = (n - 1) as usize;
        let at = lemma_insert_place(counts, before, i, before.len() as int);
        lemma_insert_keeps_ranking(counts, before, i, at);
        before.insert(at, i)
    }
}

/// Every run of counts has its ranking.
pub proof fn lemma_ranking_exists(counts: Seq<u64>)
    requires
        counts.len() <= usize::MAX,
    ensures
        is_ranking(counts, ranking(counts)),
{
    let order = lemma_ranks_first_exists(counts, counts.len());
    assert(is_ranking(counts, order));
}

/// What a limit keeps of a ranking: as many places as the limit allows, the
/// counts never rising, equal counts in the order of their places, and every
/// place that is cut off ranking behind every place that is kept.
pub proof fn lemma_top_places_ranked(counts: Seq<u64>, limit: nat)
    requires
        counts.len() <= usize::MAX,
    ensures
        top_places(counts, limit).len() == if limit <= counts.len() {
            limit
        } else {
            counts.len()
        },
        forall|k: int|
            0 <= k < top_places(counts, limit).len() ==> (#[trigger] top_places(counts, limit)[k])
                < counts.len(),
        forall|k: int, l: int|
            0 <= k < l < top_places(counts, limit).len() ==> ranks_before(
                counts,
                (#[trigger] top_places(counts, limit)[k]) as int,
                (#[trigger] top_places(counts, limit)[l]) as int,
            ),
        forall|k: int, j: usize|
            0 <= k < top_places(counts, limit).len() && j < counts.len() && !(
            #[trigger] top_places(counts, limit).contains(j)) ==> ranks_before(
                counts,
                (#[trigger] top_places(counts, limit)[k]) as int,
                j as int,
            ),
{
    lemma_ranking_exists(counts);
    let order = ranking(counts);
    let top = top_places(counts, limit);
    assert forall|k: int, j: usize|
        0 <= k < top.len() && j < counts.len() && !(#[trigger] top.contains(j)) implies ranks_before(
        counts,
        (#[trigger] top[k]) as int,
        j as int,
    ) by {
        assert(order.contains(j));
        let m = order.index_of(j);
        if m < top.len() {
            assert(top[m] == j);
        } else {
            assert(ranks_before(counts, order[k] as int, order[m] as int));
        }
    }
}

/// The places of `counts` in ranking order, by stable insertion.
pub fn rank_order(counts: &[u64]) -> (order: Vec<usize>)
    ensures
        is_ranking(counts@, order@),
        order@ == ranking(counts@),
{
    let mut order: Vec<usize> = Vec::new();
    let mut i: usize = 0;
    while i < counts.len()
        invariant
            i <= counts@.len(),
            ranks_first(counts@, i as int, order@),
        decreases counts@.len() - i,
    {
        let mut at: usize = order.len();
        while at > 0 && counts[order[at - 1]] < counts[i]
            invariant
                at <= order@.len() == i < counts@.len(),
                ranks_first(counts@, i as int, order@),
                forall|k: int| at <= k < order@.len() ==> counts@[(#[trigger] order@[k]) as int] < counts@[i as int],
            decreases at,
        {
            at = at - 1;
        }
        proof {
            lemma_insert_keeps_ranking(counts@, order@, i, at as int);
        }
        order.insert(at, i);
        i = i + 1;
    }
    proof {
        lemma_ranking_unique(counts@, order@);
    }
    order
}

} // verus!
