//! The data of a puzzle: cells, groups of cells and the grid.

pub mod cell;
pub mod cells;
pub mod collect_regions;
pub mod grid;
pub mod puzzle;
pub mod region;
pub mod regions;
pub mod text;
