//! Edge-matching tiling puzzle: square pieces with a typed connector on each
//! edge, a rectangular board, and a step-wise backtracking solver.
//!
//! - [`piece`]: connectors and when two of them fit; pieces, their quarter-turns
//!   and flips, and the order in which a search goes through the eight
//!   orientations of a piece.
//! - [`puzzle`]: the board, the pool of pieces, what the surroundings of a cell
//!   ask of a piece placed there, and the builder of a puzzle.
//! - [`solver`]: the solver and its step function, with the step as a function
//!   on mathematical values.
//! - [`consistency`]: what every step keeps true of the board, and that a board
//!   reported as solved is a solution.
//! - [`termination`]: that every search ends.

pub mod consistency;
pub mod piece;
pub mod puzzle;
pub mod solver;
pub mod termination;
