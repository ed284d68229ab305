//! The player: a search for the best move of a position, and what the
//! search finds.

pub mod minimax;
pub mod search;
