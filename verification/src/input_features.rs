//! Input feature sets: what a network sees of a position.

pub mod board_768;
