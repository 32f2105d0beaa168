//! Choosing a move by searching the tree of moves.

pub mod abq_sugg;
