//! What each stage of the picture is told.

pub mod bbox;
pub mod bg_blur;
pub mod compose;
pub mod masks;
pub mod preprocess;
