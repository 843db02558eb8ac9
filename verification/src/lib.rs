//! Core of a small multiplayer game session server.
//!
//! Clients connect over a line-oriented ASCII protocol: they perform a
//! versioned handshake, identify themselves, join named groups ("rooms"),
//! and request rendered map data. This crate holds the verified core of
//! that server: the protocol negotiator's decision rules, the per-client
//! session state machine, the coordinator that owns all client and group
//! state, the worker-pool bookkeeping, and the map catalog. The
//! surrounding process (sockets, threads, channels, file loading) drives
//! these functions from outside.

use vstd::prelude::*;

pub mod error;
pub mod map;
pub mod registry;
pub mod server;
pub mod text;
pub mod threads;
pub mod version;

verus! {

/// Runtime configuration of the server process: where to listen, how many
/// worker threads to run, and where the map catalog configuration lives.
pub struct Config {
    /// The port to run on.
    pub port: u16,
    /// Address to listen on.
    pub host: String,
    /// Set application into verbose mode.
    pub verbose: bool,
    /// Number of running worker threads.
    pub threads: usize,
    /// Path of the map catalog configuration file.
    pub config: String,
}

} // verus!
