//! What holds of every ranking: it rearranges its pool, keeps pool order
//! where no score exceeds another, and descends wherever scores compare.

use vstd::prelude::*;
use vstd::seq_lib::{to_multiset_build, to_multiset_insert};
use crate::model::ScoredComp;
use crate::rank::{
    best, entry_point, lemma_entry_point, lemma_ranking_len, outranks, ranking, TOP,
};

verus! {

/// Every score in the pool is a number.
pub open spec fn numeric(pool: Seq<ScoredComp>) -> bool {
    forall|i: int| 0 <= i < pool.len() ==> !(#[trigger] pool[i]).score.is_nan()
}

/// No entry is outranked by one that stands behind it.
pub open spec fn descending(ranked: Seq<ScoredComp>) -> bool {
    forall|a: int, b: int|
        0 <= a < b < ranked.len() ==> !outranks(#[trigger] ranked[b], #[trigger] ranked[a])
}

/// The position in `ranking(pool)` of the entry that stands at `i` in `pool`.
pub open spec fn place(pool: Seq<ScoredComp>, i: int) -> int
    decreases pool.len(),
{
    if pool.len() == 0 {
        0
    } else {
        let rest = pool.drop_last();
        let p = entry_point(ranking(rest), pool.last()) as int;
        if i == pool.len() - 1 {
            p
        } else if place(rest, i) < p {
            place(rest, i)
        } else {
            place(rest, i) + 1
        }
    }
}

/// The entry at `i` in the pool stands at `place(pool, i)` in the ranking.
pub proof fn lemma_place(pool: Seq<ScoredComp>, i: int)
    requires
        0 <= i < pool.len(),
    ensures
        0 <= place(pool, i) < pool.len(),
        ranking(pool).len() == pool.len(),
        ranking(pool)[place(pool, i)] == pool[i],
    decreases pool.len(),
{
    let rest = pool.drop_last();
    lemma_ranking_len(pool);
    lemma_ranking_len(rest);
    lemma_entry_point(ranking(rest), pool.last());
    if i < pool.len() - 1 {
        lemma_place(rest, i);
    }
}

/// Two entries of the pool never share a place in the ranking.
pub proof fn lemma_place_injective(pool: Seq<ScoredComp>, i: int, j: int)
    requires
        0 <= i < pool.len(),
        0 <= j < pool.len(),
        i != j,
    ensures
        place(pool, i) != place(pool, j),
    decreases pool.len(),
{
    if i < pool.len() - 1 && j < pool.len() - 1 {
        lemma_place_injective(pool.drop_last(), i, j);
    }
}

/// A ranking holds the entries of its pool, each as often as the pool does.
pub proof fn lemma_ranking_permutes(pool: Seq<ScoredComp>)
    ensures
        ranking(pool).len() == pool.len(),
        ranking(pool).to_multiset() == pool.to_multiset(),
    decreases pool.len(),
{
    lemma_ranking_len(pool);
    if pool.len() > 0 {
        let rest = pool.drop_last();
        lemma_ranking_permutes(rest);
        lemma_entry_point(ranking(rest), pool.last());
        let p = entry_point(ranking(rest), pool.last()) as int;
        to_multiset_insert(ranking(rest), p, pool.last());
        to_multiset_build(rest, pool.last());
        assert(rest.push(pool.last()) =~= pool);
    } else {
        assert(ranking(pool) =~= pool);
    }
}

/// Stability: of two entries of the pool, the earlier stays ahead in the
/// ranking unless the later outranks it. Entries with equal scores, and
/// entries whose scores do not compare, therefore keep their pool order.
pub proof fn lemma_ranking_stable(pool: Seq<ScoredComp>, i: int, j: int)
    requires
        0 <= i < j < pool.len(),
        !outranks(pool[j], pool[i]),
    ensures
        place(pool, i) < place(pool, j),
    decreases pool.len(),
{
    let rest = pool.drop_last();
    if j == pool.len() - 1 {
        lemma_place(rest, i);
        lemma_entry_point(ranking(rest), pool.last());
    } else {
        lemma_ranking_stable(rest, i, j);
    }
}

/// Every entry of a ranking comes from the pool; the result is the position
/// of the pool whose entry stands at `k`.
pub proof fn lemma_ranked_from_pool(pool: Seq<ScoredComp>, k: int) -> (i: int)
    requires
        0 <= k < ranking(pool).len(),
    ensures
        0 <= i < pool.len(),
        place(pool, i) == k,
        pool[i] == ranking(pool)[k],
    decreases pool.len(),
{
    lemma_ranking_len(pool);
    let rest = pool.drop_last();
    let p = entry_point(ranking(rest), pool.last()) as int;
    lemma_ranking_len(rest);
    lemma_entry_point(ranking(rest), pool.last());
    if k == p {
        pool.len() - 1
    } else if k < p {
        lemma_ranked_from_pool(rest, k)
    } else {
        lemma_ranked_from_pool(rest, k - 1)
    }
}

/// The ranking of a pool of numbers holds numbers only.
pub proof fn lemma_ranking_numeric(pool: Seq<ScoredComp>)
    requires
        numeric(pool),
    ensures
        numeric(ranking(pool)),
{
    assert forall|k: int| 0 <= k < ranking(pool).len() implies !(#[trigger] ranking(
        pool,
    )[k]).score.is_nan() by {
        let i = lemma_ranked_from_pool(pool, k);
    }
}

/// Two neighbours in a ranking never rise: the one behind does not outrank
/// the one ahead, whatever the scores are.
pub proof fn lemma_ranking_never_rises(pool: Seq<ScoredComp>, k: int)
    requires
        0 <= k,
        k + 1 < ranking(pool).len(),
    ensures
        !outranks(ranking(pool)[k + 1], ranking(pool)[k]),
    decreases pool.len(),
{
    lemma_ranking_len(pool);
    let rest = pool.drop_last();
    let p = entry_point(ranking(rest), pool.last()) as int;
    lemma_ranking_len(rest);
    lemma_entry_point(ranking(rest), pool.last());
    if k + 1 < p {
        lemma_ranking_never_rises(rest, k);
    } else if k > p {
        lemma_ranking_never_rises(rest, k - 1);
    }
}

/// The ranking of a pool of numbers descends: the higher score first.
pub proof fn lemma_ranking_descends(pool: Seq<ScoredComp>)
    requires
        numeric(pool),
    ensures
        descending(ranking(pool)),
    decreases pool.len(),
{
    if pool.len() > 0 {
        let rest = pool.drop_last();
        lemma_ranking_descends(rest);
        lemma_ranking_numeric(rest);
        lemma_ranking_len(rest);
        lemma_entry_point(ranking(rest), pool.last());
    }
}

/// In a pool of numbers, a later entry that outranks an earlier one
/// stands ahead of it in the ranking.
pub proof fn lemma_ranking_promotes(pool: Seq<ScoredComp>, i: int, j: int)
    requires
        numeric(pool),
        0 <= i < pool.len(),
        0 <= j < pool.len(),
        outranks(pool[j], pool[i]),
    ensures
        place(pool, j) < place(pool, i),
{
    lemma_place(pool, i);
    lemma_place(pool, j);
    lemma_place_injective(pool, i, j);
    lemma_ranking_descends(pool);
}

/// `other` holds the entries of `pool`: the one at `i` stands at `seat(i)`,
/// and no two share a seat.
pub open spec fn arranges(
    pool: Seq<ScoredComp>,
    other: Seq<ScoredComp>,
    seat: spec_fn(int) -> int,
) -> bool {
    &&& other.len() == pool.len()
    &&& forall|i: int|
        0 <= i < pool.len() ==> 0 <= #[trigger] seat(i) < pool.len() && other[seat(i)] == pool[i]
    &&& forall|i: int, j: int|
        0 <= i < j < pool.len() ==> #[trigger] seat(i) != #[trigger] seat(j)
}

/// Of two entries of the pool, the earlier has the earlier seat unless the
/// later outranks it.
pub open spec fn keeps_pool_order(pool: Seq<ScoredComp>, seat: spec_fn(int) -> int) -> bool {
    forall|i: int, j: int|
        0 <= i < j < pool.len() && !outranks(pool[j], pool[i]) ==> #[trigger] seat(i)
            < #[trigger] seat(j)
}

/// The seats that the ranking gives: `place(pool, i)` for the entry at `i`.
pub open spec fn places(pool: Seq<ScoredComp>) -> spec_fn(int) -> int {
    |i: int| place(pool, i)
}

/// The ranking of a pool of numbers is a stable descending order of it.
pub proof fn lemma_ranking_orders(pool: Seq<ScoredComp>)
    requires
        numeric(pool),
    ensures
        arranges(pool, ranking(pool), places(pool)),
        descending(ranking(pool)),
        keeps_pool_order(pool, places(pool)),
{
    let seat = places(pool);
    lemma_ranking_len(pool);
    lemma_ranking_descends(pool);
    assert forall|i: int| 0 <= i < pool.len() implies 0 <= #[trigger] seat(i) < pool.len()
        && ranking(pool)[seat(i)] == pool[i] by {
        lemma_place(pool, i);
    }
    assert forall|i: int, j: int| 0 <= i < j < pool.len() implies #[trigger] seat(i)
        != #[trigger] seat(j) by {
        lemma_place_injective(pool, i, j);
    }
    assert forall|i: int, j: int|
        0 <= i < j < pool.len() && !outranks(pool[j], pool[i]) implies #[trigger] seat(i)
        < #[trigger] seat(j) by {
        lemma_ranking_stable(pool, i, j);
    }
}

/// The ranking is the only stable descending order of a pool: whatever
/// arranges the pool so that it descends and keeps pool order among entries
/// that do not outrank each other is the ranking, seat by seat.
pub proof fn lemma_ranking_unique(
    pool: Seq<ScoredComp>,
    other: Seq<ScoredComp>,
    seat: spec_fn(int) -> int,
)
    requires
        arranges(pool, other, seat),
        descending(other),
        keeps_pool_order(pool, seat),
    ensures
        other == ranking(pool),
        forall|i: int| 0 <= i < pool.len() ==> #[trigger] seat(i) == place(pool, i),
    decreases pool.len(),
{
    if pool.len() > 0 {
        let n = pool.len() as int;
        let x = pool.last();
        let s = seat(n - 1);
        // without `x`, what is left arranges the rest of the pool
        let rest = pool.drop_last();
        let fewer = other.remove(s);
        let moved = |i: int|
            if seat(i) < s {
                seat(i)
            } else {
                seat(i) - 1
            };
        assert(arranges(rest, fewer, moved));
        assert(descending(fewer));
        assert(keeps_pool_order(rest, moved));
        lemma_ranking_unique(rest, fewer, moved);
        // behind seat `s` stand the entries that `x` outranks, so `x` joins there
        let ranked = ranking(rest);
        let p = entry_point(ranked, x) as int;
        lemma_ranking_len(rest);
        lemma_entry_point(ranked, x);
        assert forall|k: int| 0 <= k < ranked.len() implies (s <= k <==> outranks(
            x,
            #[trigger] ranked[k],
        )) by {
            let j = lemma_ranked_from_pool(rest, k);
            assert(moved(j) == k);
        }
        assert(p == s) by {
            if p < s {
                assert(outranks(x, ranked[p]));
            }
        }
        assert forall|i: int| 0 <= i < pool.len() implies #[trigger] seat(i) == place(pool, i) by {
            if i < n - 1 {
                assert(moved(i) == place(rest, i));
            }
        }
    }
}

/// The best of a pool are the head of its ranking: as many as the pool
/// holds, up to `TOP`, each at its place in the ranking.
pub proof fn lemma_best_is_head(pool: Seq<ScoredComp>)
    ensures
        best(pool).len() == if pool.len() <= TOP { pool.len() } else { TOP as nat },
        forall|k: int| 0 <= k < best(pool).len() ==> #[trigger] best(pool)[k] == ranking(pool)[k],
{
    lemma_ranking_len(pool);
}

/// In a pool of numbers, the best descend, and no entry that was left out
/// outranks one of them.
pub proof fn lemma_best_leads(pool: Seq<ScoredComp>)
    requires
        numeric(pool),
    ensures
        descending(best(pool)),
        forall|k: int, m: int|
            0 <= k < best(pool).len() && best(pool).len() <= m < pool.len() ==> !outranks(
                #[trigger] ranking(pool)[m],
                #[trigger] best(pool)[k],
            ),
{
    lemma_ranking_len(pool);
    lemma_ranking_descends(pool);
}

} // verus!
