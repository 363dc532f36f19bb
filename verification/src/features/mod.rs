//! Features built on the detectors and sessions.

pub mod audio;
pub mod face;
pub mod gaze;
pub mod hand;
pub mod vb;
