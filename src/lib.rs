//! Core logic of an in-guest container agent: the sandbox registry, the
//! container and process tables with their stdio descriptors, shared
//! namespace paths, OCI namespace rewriting, and the parsers and decisions
//! behind the agent's requests. System calls are left to the caller.
pub mod container;
pub mod copy;
pub mod error;
pub mod guest;
pub mod namespace;
pub mod network;
pub mod oci;
pub mod process;
pub mod ps;
pub mod sandbox;
pub mod signal;
pub mod stdio;
pub mod storage;
pub mod text;
