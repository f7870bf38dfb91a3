//! Entries of `sources.yaml`.

use vstd::prelude::*;

verus! {

/// The patcher CLI's repository and asset pattern.
#[derive(Debug, Clone)]
pub struct CliSource {
    pub repo: String,
    pub asset_pattern: String,
}

/// A repository that publishes patch bundles.
#[derive(Debug, Clone)]
pub struct PatchSourceEntry {
    pub repo: String,
    pub branch: Option<String>,
}

/// A site that APKs are downloaded from.
#[derive(Debug, Clone)]
pub struct ApkSourceEntry {
    pub base_url: String,
}

} // verus!
