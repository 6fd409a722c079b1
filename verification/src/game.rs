//! The state of one game and the rules that change it.

pub mod state;
