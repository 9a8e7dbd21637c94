//! Scoring and ranking of team compositions for a draft lobby.
//!
//! A composition is scored against a lobby from two proportions: the share
//! of its champions that the player owns ([`personal_affinity`]) and the
//! share that stands on any opposing board ([`contest`]). [`score`] settles
//! which terms a score is made of, and [`best_comps`] ranks scored
//! compositions and returns the first three.
//!
//! Scores are single-precision numbers. This crate does no arithmetic on
//! them: it carries them as bit patterns ([`Single`]), compares them
//! exactly as such numbers compare, and hands out the terms of a score as
//! exact fractions for the caller to evaluate.

pub mod affinity;
pub mod fraction;
pub mod model;
pub mod order;
pub mod rank;
pub mod roster;
pub mod score;
pub mod single;

pub use affinity::{contest, personal_affinity};
pub use fraction::Fraction;
pub use model::{Composition, Lobby, ScoredComp};
pub use rank::{best_comps, TOP};
pub use score::{affinity_weight, contest_weight, score, Score};
pub use single::Single;
