//! Detectors: anchors, decoding, suppression and projection.

pub mod anchors;
pub mod decode;
pub mod groups;
pub mod kernels;
pub mod nms;
pub mod pixels;
pub mod post;
pub mod roi;
