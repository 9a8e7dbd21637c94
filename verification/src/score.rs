//! The score of one composition in one lobby, as exact terms.
//!
//! A score is `base_power + 3/5 * affinity - 2/5 * contest`. The base power
//! is a single-precision number and the sum is taken in single precision,
//! so this module settles which terms enter the sum and leaves the rounding
//! arithmetic to whoever evaluates them.

use vstd::prelude::*;
use crate::affinity::{affinity_of, contest, contest_of, personal_affinity};
use crate::fraction::{Fraction, Ratio};
use crate::model::{Composition, CompositionModel, Lobby, LobbyModel};
use crate::single::Single;

verus! {

/// What a composition scores.
#[derive(Clone, Copy, Debug)]
pub enum Score {
    /// The base power itself, untouched: the score of a composition
    /// without champions.
    Base { base_power: Single },
    /// `base_power + affinity_weight() * affinity - contest_weight() * contest`.
    Weighted { base_power: Single, affinity: Fraction, contest: Fraction },
}

/// The mathematical content of a [`Score`].
pub ghost enum ScoreModel {
    Base { base_power: Single },
    Weighted { base_power: Single, affinity: Ratio, contest: Ratio },
}

impl View for Score {
    type V = ScoreModel;

    open spec fn view(&self) -> ScoreModel {
        match *self {
            Score::Base { base_power } => ScoreModel::Base { base_power },
            Score::Weighted { base_power, affinity, contest } => ScoreModel::Weighted {
                base_power,
                affinity: affinity@,
                contest: contest@,
            },
        }
    }
}

/// The weight of the affinity in a score: three fifths.
pub fn affinity_weight() -> (w: Fraction)
    ensures
        w@ == (Ratio { num: 3, den: 5 }),
{
    Fraction { num: 3, den: 5 }
}

/// The weight of the contest in a score: two fifths.
pub fn contest_weight() -> (w: Fraction)
    ensures
        w@ == (Ratio { num: 2, den: 5 }),
{
    Fraction { num: 2, den: 5 }
}

/// The score of `comp` in `lobby`: its base power alone when it has no
/// champions, else its base power with the player's affinity for it and
/// the opponents' contest of it.
pub open spec fn score_of(comp: CompositionModel, lobby: LobbyModel) -> ScoreModel {
    if comp.champions.len() == 0 {
        ScoreModel::Base { base_power: comp.base_power }
    } else {
        ScoreModel::Weighted {
            base_power: comp.base_power,
            affinity: affinity_of(lobby.my_units, comp.champions),
            contest: contest_of(lobby.enemy_units, comp.champions),
        }
    }
}

/// Scoring is repeatable: two scores taken of the same composition in the
/// same lobby are one and the same value.
pub proof fn lemma_score_repeatable(
    comp: CompositionModel,
    lobby: LobbyModel,
    first: Score,
    second: Score,
)
    requires
        first@ == score_of(comp, lobby),
        second@ == score_of(comp, lobby),
    ensures
        first == second,
{
}

/// Scores one composition against one lobby.
pub fn score(comp: &Composition, lobby: &Lobby) -> (s: Score)
    ensures
        s@ == score_of(comp@, lobby@),
        comp.champions.len() == 0 ==> s == (Score::Base { base_power: comp.base_power }),
        s matches Score::Weighted { affinity, contest, .. } ==> affinity@.is_proportion()
            && contest@.is_proportion(),
{
    if comp.champions.len() == 0 {
        return Score::Base { base_power: comp.base_power };
    }
    let affinity = personal_affinity(&lobby.my_units, comp);
    let contest = contest(&lobby.enemy_units, comp);
    Score::Weighted { base_power: comp.base_power, affinity, contest }
}

} // verus!
