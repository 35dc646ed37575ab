//! Verified core of the ternary command-line tools.
pub mod benchmark;
pub mod classify;
pub mod cli;
pub mod config;
pub mod config_text;
pub mod evolve;
pub mod keyed;
pub mod num;
pub mod options;
pub mod text;
pub mod verify;
pub mod visualize;
