//! The runner: the agent that connects to the hub, registers, and runs the
//! commands it is sent.

pub mod config;
pub mod connection;
pub mod disk;
pub mod message;
pub mod sandbox;
pub mod task;
