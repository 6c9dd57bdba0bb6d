//! Poker game engines (Leduc Hold'em and 52-card Texas Hold'em), a 7-card
//! hand evaluator, card abstraction for counterfactual-regret solvers, the
//! fixed-point regret tables those solvers share, and the rules that turn a
//! chosen abstract action into a move on a live table.

pub mod cfr;
pub mod game;
pub mod live;
pub mod rng;
pub mod text;
