//! The configuration model: apps, build settings, module definitions.

pub mod apps;
pub mod loader;
pub mod sources;
