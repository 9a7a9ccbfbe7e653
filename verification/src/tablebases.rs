//! Endgame tablebase support.

pub mod probe;
