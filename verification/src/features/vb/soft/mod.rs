//! The picture without a graphics device: sampled, blurred and mixed by hand.

pub mod backdrop;
pub mod blur;
pub mod mask;
pub mod pipeline;
pub mod sample;
