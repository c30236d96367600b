//! Resolves the installation location of an external application and plans
//! the launch of one or more instances of it.
//!
//! The crate has two components. `config` persists and resolves a single
//! configuration value (an executable installation path) with a three-tier
//! fallback: a persisted file, a platform discovery lookup, and an empty
//! default. `launcher` validates a launch request and drives the spawn
//! sequence as a step machine: it decides, and an unverified driver performs
//! the filesystem and process calls.

pub mod config;
pub mod error;
pub mod launcher;

use vstd::prelude::*;
use vstd::string::StringExecFns;

verus! {

/// The version-reporting operation: the build's version string where one is
/// known, the fixed marker where none is. The driver hands in what its
/// build environment recorded.
pub fn get_version(version: Option<String>) -> (s: String)
    ensures
        version matches Some(v) ==> s@ == v@,
        version is None ==> s@ == "Unknown"@,
{
    match version {
        Some(v) => v,
        None => String::from_str("Unknown"),
    }
}

} // verus!
