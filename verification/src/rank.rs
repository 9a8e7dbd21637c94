//! Ranking scored compositions: the higher score first, and of two entries
//! of which neither score exceeds the other, the one that came first.

use vstd::prelude::*;
use crate::model::ScoredComp;

verus! {

/// How many entries a ranking hands out.
pub const TOP: usize = 3;

/// Whether `a` goes ahead of `b` on score alone.
pub open spec fn outranks(a: ScoredComp, b: ScoredComp) -> bool {
    a.score.exceeds(b.score)
}

/// Where `x` joins `ranked`: behind the last entry that it does not outrank.
pub open spec fn entry_point(ranked: Seq<ScoredComp>, x: ScoredComp) -> nat
    decreases ranked.len(),
{
    if ranked.len() > 0 && outranks(x, ranked.last()) {
        entry_point(ranked.drop_last(), x)
    } else {
        ranked.len()
    }
}

/// The pool in ranked order: entry by entry, in pool order, each joins the
/// ranking of those before it.
pub open spec fn ranking(pool: Seq<ScoredComp>) -> Seq<ScoredComp>
    decreases pool.len(),
{
    if pool.len() == 0 {
        Seq::empty()
    } else {
        let ranked = ranking(pool.drop_last());
        ranked.insert(entry_point(ranked, pool.last()) as int, pool.last())
    }
}

/// The head of the ranking: its first `TOP` entries, or all of them where
/// there are fewer.
pub open spec fn best(pool: Seq<ScoredComp>) -> Seq<ScoredComp> {
    let ranked = ranking(pool);
    if ranked.len() <= TOP {
        ranked
    } else {
        ranked.take(TOP as int)
    }
}

/// An entry joins a ranking just ahead of a run of entries that it outranks,
/// and just behind one that it does not outrank, if any stands before that run.
pub proof fn lemma_entry_point(ranked: Seq<ScoredComp>, x: ScoredComp)
    ensures
        entry_point(ranked, x) <= ranked.len(),
        forall|k: int|
            entry_point(ranked, x) <= k < ranked.len() ==> outranks(x, #[trigger] ranked[k]),
        entry_point(ranked, x) > 0 ==> !outranks(x, ranked[entry_point(ranked, x) - 1]),
    decreases ranked.len(),
{
    if ranked.len() > 0 && outranks(x, ranked.last()) {
        let shorter = ranked.drop_last();
        lemma_entry_point(shorter, x);
        assert forall|k: int| entry_point(ranked, x) <= k < ranked.len() implies outranks(
            x,
            #[trigger] ranked[k],
        ) by {
            if k < shorter.len() {
                assert(shorter[k] == ranked[k]);
            }
        }
    }
}

/// A ranking holds as many entries as its pool.
pub proof fn lemma_ranking_len(pool: Seq<ScoredComp>)
    ensures
        ranking(pool).len() == pool.len(),
    decreases pool.len(),
{
    if pool.len() > 0 {
        lemma_ranking_len(pool.drop_last());
        lemma_entry_point(ranking(pool.drop_last()), pool.last());
    }
}

/// Finds where `x` joins `ranked`.
fn find_entry_point(ranked: &Vec<ScoredComp>, x: &ScoredComp) -> (p: usize)
    ensures
        p == entry_point(ranked@, *x),
        p <= ranked.len(),
{
    let mut p: usize = ranked.len();
    assert(ranked@.take(p as int) =~= ranked@);
    while p > 0 && x.score.gt(ranked[p - 1].score)
        invariant
            p <= ranked.len(),
            entry_point(ranked@, *x) == entry_point(ranked@.take(p as int), *x),
        decreases p,
    {
        assert(ranked@.take(p as int).drop_last() =~= ranked@.take(p as int - 1));
        p -= 1;
    }
    p
}

/// Ranks the scored compositions and returns the best of them, best first.
pub fn best_comps(scored: Vec<ScoredComp>) -> (top: Vec<ScoredComp>)
    ensures
        top@ == best(scored@),
        top.len() == if scored.len() <= TOP { scored.len() } else { TOP },
{
    let ghost pool = scored@;
    let mut ranked: Vec<ScoredComp> = Vec::new();
    for entry in it: scored
        invariant
            it.seq() == pool,
            ranked@ == ranking(pool.take(it.index() as int)),
    {
        assert(pool.take(it.index() + 1).drop_last() =~= pool.take(it.index() as int));
        let p = find_entry_point(&ranked, &entry);
        ranked.insert(p, entry);
    }
    proof {
        assert(pool.take(pool.len() as int) =~= pool);
        lemma_ranking_len(pool);
    }
    ranked.truncate(TOP);
    ranked
}

} // verus!
