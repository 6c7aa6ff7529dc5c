//! The proxy, which hands out tasks, and the workers, which compute them.

pub mod connection;
pub mod laws;
pub mod names;
pub mod proxy;
pub mod queue;
pub mod worker;
