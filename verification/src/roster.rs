//! Counting the champions of a composition that lie in a pool of identifiers.

use vstd::prelude::*;
use crate::model::Ident;

verus! {

/// The test "lies in `pool`", as a predicate on identifiers.
pub open spec fn lies_in(pool: Set<Ident>) -> spec_fn(Ident) -> bool {
    |c: Ident| pool.contains(c)
}

/// Number of positions of `champions` whose identifier lies in `pool`.
/// Each position is tested by itself: an identifier listed twice counts twice.
pub open spec fn positions_in(champions: Seq<Ident>, pool: Set<Ident>) -> nat {
    champions.filter(lies_in(pool)).len()
}

/// Every identifier that stands on at least one of `boards`.
pub open spec fn fielded(boards: Seq<Seq<Ident>>) -> Set<Ident> {
    Set::new(
        |c: Ident| exists|b: int| 0 <= b < boards.len() && (#[trigger] boards[b]).contains(c),
    )
}

/// No more positions lie in a pool than there are positions.
pub proof fn lemma_positions_bounded(champions: Seq<Ident>, pool: Set<Ident>)
    ensures
        positions_in(champions, pool) <= champions.len(),
{
    champions.lemma_filter_len(lies_in(pool));
}

/// Looking at one position more adds one to the count exactly when that
/// position's identifier lies in the pool.
pub proof fn lemma_positions_step(champions: Seq<Ident>, pool: Set<Ident>, i: int)
    requires
        0 <= i < champions.len(),
    ensures
        positions_in(champions.take(i + 1), pool) == positions_in(champions.take(i), pool) + (
        if pool.contains(champions[i]) {
            1nat
        } else {
            0nat
        }),
{
    reveal(Seq::filter);
    assert(champions.take(i + 1).drop_last() =~= champions.take(i));
}

/// Whether `units` lists the identifier `c`.
pub fn lists(units: &Vec<String>, c: &String) -> (found: bool)
    ensures
        found == units.deep_view().contains(c@),
{
    let mut i: usize = 0;
    while i < units.len()
        invariant
            i <= units.len(),
            forall|k: int| 0 <= k < i ==> units.deep_view()[k] != c@,
        decreases units.len() - i,
    {
        if units[i] == *c {
            assert(units.deep_view()[i as int] == c@);
            return true;
        }
        i += 1;
    }
    false
}

} // verus!
