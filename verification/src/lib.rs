//! Relay core: the wire protocol, the hub's peer registry and task
//! correlation, and the runner's connection and execution logic.

pub mod assoc;
pub mod channel;
pub mod hub;
pub mod model;
pub mod runner;
pub mod text;
pub mod wire;
