//! A SOCKS5 proxy: the protocol state machine, access rules, credentials,
//! log rotation and the console's configuration logic, each with its contract.

pub mod acceptor;
pub mod config;
pub mod console;
pub mod error;
pub mod event;
pub mod logger;
pub mod net;
pub mod target;
pub mod tcp;
pub mod text;
pub mod server;
