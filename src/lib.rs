//! Organizes the files of a directory into subdirectories, following an
//! ordered list of (pattern, destination) rules.

pub mod pattern;
pub mod paths;
pub mod configurations;
pub mod actions;
pub mod engine;
pub mod mover;
