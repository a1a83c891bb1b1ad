//! Core library of the chicon code-scanner runner.
//!
//! The runner connects to a central scheduler, receives scan requests over a
//! line protocol, synchronizes target repositories into a bounded on-disk
//! workspace, executes scan functions stage by stage in sandboxed containers
//! and ships the resulting reports back to the scheduler.
//!
//! This crate holds the runner's decision logic: the wire-protocol decoder,
//! the JSON encoding of scan reports, the result harvester, the container
//! argument builder, the workspace accounting and the control-plane session
//! state machine. All surrounding I/O (sockets, HTTP, git, processes, disk)
//! lives outside the library and hands plain values in and out.

pub mod config;
pub mod container;
pub mod gitsync;
pub mod harvest;
pub mod json;
pub mod models;
pub mod protocol;
pub mod scheduler;
pub mod session;
pub mod text;
pub mod utils;
pub mod workspace;
