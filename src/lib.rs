//! An agent-based epidemic simulation: agents wander inside a square arena,
//! are steered back when they leave it, and pass an infection on by close
//! contact. Coordinates are integers; randomness comes from `rand`.

pub mod geometry;
pub mod agent;
pub mod config;
mod random;
pub mod motion;
pub mod transmission;
pub mod boundary;
pub mod spawn;
pub mod simulation;
