//! Face features: tracking, items, make-up.

pub mod blendshapes;
pub mod glb;
pub mod item;
pub mod items3d;
pub mod json;
pub mod layer;
pub mod light;
pub mod linear;
pub mod makeup;
pub mod mesh;
pub mod pose;
pub mod raster;
pub mod render;
pub mod smoothing;
pub mod srgb;
pub mod task;
pub mod textures;
pub mod touchup;
