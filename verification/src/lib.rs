//! Three-in-a-row on a 3x3 grid where each side keeps only its three newest
//! pieces: the rules of the game and a searching opponent, with the rules
//! and the search stated as contracts and proved.

pub mod ai;
mod chance;
pub mod game;
pub mod grid;
pub mod session;
