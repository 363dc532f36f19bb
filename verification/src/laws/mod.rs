//! What the operations are for: relations between what goes in and what comes out, for
//! every input. Where a law speaks of numbers, the caller's arithmetic gives a result
//! only where it is exact.

pub mod backdrop;
pub mod blur;
pub mod boxes;
pub mod colours;
pub mod framing;
pub mod gaze;
pub mod gestures;
pub mod heads;
pub mod kernels;
pub mod motion;
pub mod paint;
pub mod person;
pub mod pictures;
pub mod regions;
pub mod spectrum;
pub mod tensors;
