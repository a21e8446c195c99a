//! WebSocket connections: configuration, handshake, runtime, rooms and broadcasts.

pub mod broker;
pub mod config;
pub mod driver;
pub mod error;
pub mod handshake;
pub mod hub;
pub mod index;
pub mod runtime;
pub mod socket;
pub mod supervisor;
pub mod types;
