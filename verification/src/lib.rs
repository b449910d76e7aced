//! The logic of a small Linux container runtime: a daemon that keeps the state
//! of containers, the sandbox that each of them runs in, and the protocol that
//! a client speaks with the daemon.

pub mod cli;
pub mod container;
pub mod error;
pub mod ipc;
pub mod sandbox;
pub mod script;
pub mod storage;
pub mod text;
