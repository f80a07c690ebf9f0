//! Two-player Briscola: card model, trick rules, game-state transitions,
//! hidden-information sampling and Monte Carlo move selection.
pub mod card;
pub mod bitset;
pub mod rules;
pub mod state;
pub mod rng;
pub mod rollout;
pub mod determinize;
pub mod mc;
pub mod simulation;
pub mod play;
pub mod text;
pub mod advisor;
pub mod controls;
