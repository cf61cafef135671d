//! Verified core of the Akra Hookers Codex capture tooling.
use vstd::prelude::*;

pub mod detection;
pub mod exec_call;
pub mod adapter;
pub mod api;
pub mod capture_gate;
pub mod capture_source;
pub mod cli;
pub mod collector;
pub mod lifecycle;
pub mod manifest;
pub mod paths;
pub mod projection;
pub mod relay;
pub mod spool;
pub mod summary;
pub mod targets;
pub mod text;
pub mod transaction;
pub mod trust;
pub mod trust_config;
pub mod windows_paths;
pub mod write_run;

verus! {

} // verus!
