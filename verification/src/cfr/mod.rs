pub mod abstraction;
pub mod node;
pub mod opponent_model;
pub mod subgame;
