//! Deciding what to build: which patch sources changed, and the steps of
//! one app's build.

pub mod discovery;
pub mod scheduler;
