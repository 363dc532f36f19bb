//! Real-time vision and audio task library: the decision logic of detectors,
//! gesture and focus state machines, effect parameters, graph execution and
//! kernel lowering, each function with a contract.
//!
//! Floating-point values cross the interface by their bits (`ieee`), or through
//! the caller's own arithmetic (`reals`, and `features::audio::arith` for tensors).
//! `trace` says what a number was computed from, `ideal` what a formula is in exact
//! numbers.

pub mod bytes;
pub mod cache;
pub mod clock;
pub mod decimals;
pub mod detect;
pub mod director;
pub mod error;
pub mod features;
pub mod ideal;
pub mod ieee;
pub mod laws;
pub mod names;
pub mod packing;
pub mod points;
pub mod reals;
pub mod runtime;
pub mod session;
pub mod slices;
pub mod sorting;
pub mod text;
pub mod trace;
pub mod trace64;
