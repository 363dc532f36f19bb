//! Session bookkeeping.

pub mod frames;
pub mod pool;
