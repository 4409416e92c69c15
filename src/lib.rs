//! A WebDAV gateway over a storage backend chosen by environment variables.
//!
//! The library holds the decisions of the gateway: how the backend
//! configuration is drawn from the environment, how the listening address is
//! resolved, and what the accept loop does on each event. The program around
//! it reads the environment, opens sockets and runs the tasks.

pub mod config;
pub mod listen;
pub mod server;
