//! Offloading the build of content-addressed derivations to a relay and its
//! workers, with a local build as the fallback.
//!
//! The library holds the decisions of the protocol as state machines over
//! plain values: every function takes what an external tool or the transport
//! reported and answers with the new state and the work to do next. Running
//! processes, sockets and timers is left to the caller.
//!
//! - `model`: a node of the dependency graph.
//! - `frame`: the frames of the wire protocol.
//! - `server`: the connection to the relay and the table of pending requests.
//! - `orchestrator`: what each event does to the build of a graph, as
//!   functions on mathematical values.
//! - `client`: the client, which runs those functions on real values.
//! - `safety`, `laws`: what holds in every state that a run can reach.
//! - `worker`: the worker's loop.
//! - `command`, `config`, `cli`: command lines, settings and arguments.

pub mod cli;
pub mod client;
pub mod command;
pub mod config;
pub mod error;
pub mod frame;
pub mod laws;
pub mod model;
pub mod orchestrator;
pub mod safety;
pub mod search;
pub mod server;
pub mod step;
pub mod text;
pub mod websocket;
pub mod worker;
