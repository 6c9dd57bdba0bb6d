pub mod card;
pub mod eval;
pub mod relabel;
pub mod categories;
pub mod holdem;
pub mod leduc;
