//! A chess engine core: position model, move legality, move enumeration,
//! heuristic evaluation and game-tree search.

pub mod piece;
pub mod board;
pub mod attack;
pub mod legality;
pub mod attackers;
pub mod seqs;
pub mod ordering;
pub mod enumerate;
pub mod sums;
pub mod heuristics;
pub mod suggestions;
pub mod suggest;
pub mod notation;
pub mod laws;
pub mod soundness;
