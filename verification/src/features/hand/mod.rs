//! Hands and their gestures.

pub mod geometry;
pub mod gesture;
pub mod roi;
pub mod task;
