//! The hub: the registry of connected agents, the table of tasks in flight,
//! and the router that ties a caller's request to an agent's response.

pub mod manager;
pub mod peers;
pub mod relay;
pub mod tasks;
