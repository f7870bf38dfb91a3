//! Verified core of the ReVanceX patch orchestrator: configuration rules,
//! version arithmetic, patch planning and the byte-level manifest surgery.

pub mod builder;
pub mod collections;
pub mod config;
pub mod module;
pub mod orchestrator;
pub mod pages;
pub mod patcher;
pub mod pattern;
pub mod text;
pub mod testing;
pub mod utils;
