//! Simulation of rovers on a bounded rectangular grid.
//!
//! The crate has three parts: a two-dimensional integer [`vector::Vector`]
//! type whose four unit vectors encode the cardinal orientations, a rover
//! state machine ([`rover`]) that applies turn and move commands until the
//! command list is exhausted or the rover leaves the grid, and a parser
//! ([`parser`]) that turns a textual script into a grid plus a list of
//! rovers with their command sequences, collecting every syntax error it
//! finds rather than stopping at the first.

pub mod parser;
pub mod rover;
pub mod vector;
