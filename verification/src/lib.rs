//! A 9×9 Sudoku engine: a grid of cells with candidate notes, the validity
//! and safe-placement rules, and a backtracking search over the candidates.

pub mod model;
pub mod rules;
pub mod solution;
pub mod solvers;
