//! A move generator and player for chess variants on the 8x8 board whose
//! pieces move by small scripts.
//!
//! - `chessembly` holds the game: the pieces and moves, the script language
//!   and its interpreter, the catalog of built-in pieces, the rules that
//!   make a move legal, and the laws that hold of them.
//! - `engine` holds the search for the best move.
//! - `request` reads the fields of a request into the values of the game.
//! - `text` holds the helpers on characters that the readers share.

pub mod chessembly;
pub mod engine;
pub mod request;
pub mod text;
