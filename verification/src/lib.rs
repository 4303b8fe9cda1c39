//! A cellular-automaton model of fire spreading through a forest.
//!
//! The forest is a fixed rectangular grid of cells. Each cell is either bare
//! ground or a tree in one stage of burning. Fire is started along the left
//! edge and then advances in discrete cycles until nothing burns any more.

pub mod canvas;
pub mod census;
pub mod fire;
pub mod forest;
pub mod grid;
pub mod run;
pub mod sowing;
pub mod tree;
