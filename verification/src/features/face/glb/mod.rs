//! Binary glTF models.

pub mod access;
pub mod material;
pub mod scene;
pub mod model;
pub mod normal;
