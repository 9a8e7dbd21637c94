//! The records that scoring and ranking work on.

use vstd::prelude::*;
use crate::single::Single;

verus! {

/// A champion identifier, as the scoring rules see it.
pub type Ident = Seq<char>;

/// A named candidate team build.
#[derive(Clone, Debug)]
pub struct Composition {
    pub name: String,
    /// Champions in order; one that is listed twice counts twice.
    pub champions: Vec<String>,
    /// Baseline strength of the build.
    pub base_power: Single,
}

/// What the scoring rules read of a [`Composition`].
pub ghost struct CompositionModel {
    pub name: Seq<char>,
    pub champions: Seq<Ident>,
    pub base_power: Single,
}

impl View for Composition {
    type V = CompositionModel;

    open spec fn view(&self) -> CompositionModel {
        CompositionModel {
            name: self.name@,
            champions: self.champions.deep_view(),
            base_power: self.base_power,
        }
    }
}

/// A snapshot of the game: the player's units and every opposing board.
#[derive(Clone, Debug)]
pub struct Lobby {
    pub my_units: Vec<String>,
    /// One sequence per opponent.
    pub enemy_units: Vec<Vec<String>>,
}

/// What the scoring rules read of a [`Lobby`].
pub ghost struct LobbyModel {
    pub my_units: Seq<Ident>,
    pub enemy_units: Seq<Seq<Ident>>,
}

impl View for Lobby {
    type V = LobbyModel;

    open spec fn view(&self) -> LobbyModel {
        LobbyModel {
            my_units: self.my_units.deep_view(),
            enemy_units: self.enemy_units.deep_view(),
        }
    }
}

/// A composition's name with the score it reached.
#[derive(Clone, Debug)]
pub struct ScoredComp {
    pub name: String,
    pub score: Single,
}

} // verus!
