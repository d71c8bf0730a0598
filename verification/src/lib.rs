//! Structures and functions relating to crossword grids and entries.
pub mod grid;
pub mod laws;
