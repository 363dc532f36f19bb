//! Where the person looks and whether they attend.

pub mod one_euro;
pub mod preprocess;
pub mod state;
pub mod task;
