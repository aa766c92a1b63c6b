//! Short-lived development sandboxes for coding agents: each pairs a branch of the host
//! repository with a container seeded from it, driven through MCP tools, with every change
//! snapshotted on a per-sandbox branch.
//!
//! This crate holds the decisions: names and slugs, configuration, the shaping of shell
//! commands and the reading of their output, forwarded ports, the create pipeline's
//! rollback, and the snapshot reference protocol. The I/O that carries them out (git,
//! the container engine, the MCP transport) stands around it.

use vstd::prelude::*;

pub mod text;
pub mod domain;
pub mod config;
pub mod tools;
pub mod ports;
pub mod sandbox;
pub mod snapshot;
pub mod compute;

verus! {

} // verus!
