//! A falling-block puzzle agent: board features, a move-search evaluator and
//! a genetic optimiser that tunes the evaluator's weights.

pub mod ai;
pub mod blocks;
pub mod control;
pub mod field;
pub mod ga;
pub mod game;
mod rng;
