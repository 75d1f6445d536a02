//! clings: the verified core of an interactive C systems-programming trainer.
//!
//! Exercise models, curriculum ordering, spaced-repetition scheduling,
//! compiler-output analysis, test-harness parsing and text rendering.
pub mod error;
pub mod text;
pub mod models;
pub mod chapters;
pub mod authoring;
pub mod mastery;
pub mod runner;
pub mod unity;
pub mod display;
pub mod libsys;
pub mod config;
pub mod sync;
pub mod tmux;
pub mod search;
pub mod exercises;
pub mod exam;
pub mod piscine;
pub mod watch;
pub mod review;
pub mod import;
pub mod reporting;
pub mod checkpoints;
pub mod visualizer;
pub mod listing;
pub mod config_file;
