//! The two proportions that a score is made of: how much of a composition
//! the player already owns, and how much of it opponents are fielding.

use vstd::prelude::*;
use vstd::hash_set::StringHashSet;
use crate::fraction::{Fraction, Ratio};
use crate::model::{Composition, Ident};
use crate::roster::{fielded, lemma_positions_bounded, lemma_positions_step, lists, positions_in};

verus! {

/// Share of the positions of `champions` whose identifier is among `owned`;
/// zero for a composition without champions.
pub open spec fn affinity_of(owned: Seq<Ident>, champions: Seq<Ident>) -> Ratio {
    if champions.len() == 0 {
        Ratio::zero()
    } else {
        Ratio { num: positions_in(champions, owned.to_set()), den: champions.len() }
    }
}

/// Share of the positions of `champions` whose identifier stands on at
/// least one of `boards`. Meant for a composition with champions.
pub open spec fn contest_of(boards: Seq<Seq<Ident>>, champions: Seq<Ident>) -> Ratio {
    Ratio { num: positions_in(champions, fielded(boards)), den: champions.len() }
}

/// Both shares are proportions: they lie between zero and one. The contest
/// is one of a composition with champions.
pub proof fn lemma_shares_are_proportions(
    owned: Seq<Ident>,
    boards: Seq<Seq<Ident>>,
    champions: Seq<Ident>,
)
    ensures
        affinity_of(owned, champions).is_proportion(),
        champions.len() > 0 ==> contest_of(boards, champions).is_proportion(),
{
    lemma_positions_bounded(champions, owned.to_set());
    lemma_positions_bounded(champions, fielded(boards));
}

/// Fraction of the composition's champions that the player already owns.
pub fn personal_affinity(my_units: &Vec<String>, comp: &Composition) -> (r: Fraction)
    ensures
        r@ == affinity_of(my_units.deep_view(), comp@.champions),
        r@.is_proportion(),
{
    let total: usize = comp.champions.len();
    if total == 0 {
        return Fraction::zero();
    }
    let ghost champions = comp@.champions;
    let ghost pool = my_units.deep_view().to_set();
    let mut owned: usize = 0;
    let mut i: usize = 0;
    while i < total
        invariant
            total == comp.champions.len(),
            champions == comp@.champions,
            pool == my_units.deep_view().to_set(),
            i <= total,
            owned == positions_in(champions.take(i as int), pool),
            owned <= i,
        decreases total - i,
    {
        proof {
            lemma_positions_step(champions, pool, i as int);
        }
        if lists(my_units, &comp.champions[i]) {
            owned += 1;
        }
        i += 1;
    }
    assert(champions.take(total as int) =~= champions);
    Fraction { num: owned, den: total }
}

/// Gathers the identifiers of every board into one set.
fn gather(boards: &Vec<Vec<String>>) -> (set: StringHashSet)
    ensures
        set@ == fielded(boards.deep_view()),
{
    let ghost all = boards.deep_view();
    let mut set = StringHashSet::new();
    let mut b: usize = 0;
    while b < boards.len()
        invariant
            all == boards.deep_view(),
            b <= boards.len(),
            set@ == fielded(all.take(b as int)),
        decreases boards.len() - b,
    {
        let board = &boards[b];
        let ghost before = set@;
        let mut j: usize = 0;
        while j < board.len()
            invariant
                all == boards.deep_view(),
                b < boards.len(),
                board == boards[b as int],
                j <= board.len(),
                before == fielded(all.take(b as int)),
                set@ == before.union(all[b as int].take(j as int).to_set()),
            decreases board.len() - j,
        {
            set.insert(board[j].clone());
            proof {
                let units = all[b as int];
                assert(units.take(j + 1) =~= units.take(j as int).push(units[j as int]));
                units.take(j as int).lemma_push_to_set_commute(units[j as int]);
            }
            j += 1;
        }
        proof {
            assert(all[b as int].take(board.len() as int) =~= all[b as int]);
            lemma_fielded_step(all, b as int);
        }
        b += 1;
    }
    assert(all.take(boards.len() as int) =~= all);
    set
}

/// One board more adds that board's identifiers to those fielded.
proof fn lemma_fielded_step(boards: Seq<Seq<Ident>>, b: int)
    requires
        0 <= b < boards.len(),
    ensures
        fielded(boards.take(b + 1)) =~= fielded(boards.take(b)).union(boards[b].to_set()),
{
    let longer = boards.take(b + 1);
    let shorter = boards.take(b);
    assert forall|c: Ident|
        fielded(longer).contains(c) <==> (fielded(shorter).contains(c) || boards[b].contains(
            c,
        )) by {
        if fielded(shorter).contains(c) {
            let k = choose|k: int| 0 <= k < shorter.len() && (#[trigger] shorter[k]).contains(c);
            assert(longer[k].contains(c));
        }
        if boards[b].contains(c) {
            assert(longer[b].contains(c));
        }
    }
}

/// Fraction of the composition's champions that stand on any opposing
/// board. An identifier counts as fielded however many boards hold it.
pub fn contest(enemy_units: &Vec<Vec<String>>, comp: &Composition) -> (r: Fraction)
    requires
        comp.champions.len() > 0,
    ensures
        r@ == contest_of(enemy_units.deep_view(), comp@.champions),
        r@.is_proportion(),
{
    let total: usize = comp.champions.len();
    let enemy_set = gather(enemy_units);
    let ghost champions = comp@.champions;
    let ghost pool = fielded(enemy_units.deep_view());
    let mut contested: usize = 0;
    let mut i: usize = 0;
    while i < total
        invariant
            total == comp.champions.len(),
            champions == comp@.champions,
            pool == enemy_set@,
            i <= total,
            contested == positions_in(champions.take(i as int), pool),
            contested <= i,
        decreases total - i,
    {
        proof {
            lemma_positions_step(champions, pool, i as int);
        }
        if enemy_set.contains(comp.champions[i].as_str()) {
            contested += 1;
        }
        i += 1;
    }
    assert(champions.take(total as int) =~= champions);
    Fraction { num: contested, den: total }
}

} // verus!
