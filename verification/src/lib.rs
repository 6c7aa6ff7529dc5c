//! The logic of a proof-of-work service: what a proxy, its workers and its clients say to one
//! another and decide, with every decision stated in a contract.

pub mod db;
pub mod messages;
pub mod proving;
pub mod remote;
pub mod tasks;
pub mod text;
