//! A tabular learner for tic-tac-toe that stores each position once per
//! symmetry class and credits every move of an episode when the episode ends.

pub mod agent;
pub mod board;
pub mod game;
pub mod memory;
pub mod random;
pub mod transformation;
