//! One host's whole pipeline: what is switched on, when each task runs, what is
//! loaded for it, and what the host reads.

pub mod config;
pub mod desk;
pub mod events;
pub mod models;
pub mod report;
