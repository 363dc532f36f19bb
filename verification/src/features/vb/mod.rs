//! Virtual background: effect parameters, framing and the effect stack.

pub mod compositor;
pub mod framing;
pub mod gate;
pub mod outputs;
pub mod params;
pub mod pipeline;
pub mod soft;
pub mod stages;
