//! The search: candidate collection and backtracking.

pub mod collect_candidates;
pub mod solve_sudoku_backtrack;
pub mod solve_sudoku_notes;
