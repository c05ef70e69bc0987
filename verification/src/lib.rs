//! A chess engine built around an alpha-beta search with a transposition
//! table, a material evaluator whose piece values can be tuned by a
//! chromosome, and the pieces of a small evolutionary tournament.

pub mod board;


pub mod transposition_table;
pub mod random;
pub mod chromosome;
pub mod evaluator;
pub mod alpha_beta_algorithm;
pub mod benchmark;
pub mod visualizer;
pub mod repository;
pub mod tournament;
pub mod game;
pub mod search_table;
