//! The score.

pub mod resources;
