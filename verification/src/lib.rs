//! A verified core for a small dwarf-fortress style colony simulation:
//! the tile map, the job queue, path finding, the per-tick simulation
//! step and the workshop / stockpile rules.

pub mod world;
pub mod worldgen;
pub mod seqs;
pub mod jobs;
pub mod path;
pub mod sim;
pub mod turn;
pub mod invariants;
pub mod gameplay;
pub mod persistence;
pub mod ui;
