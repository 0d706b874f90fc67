//! A chat relay: a registry of online display names, the messages exchanged
//! with clients, and the per-connection state machine that ties them together.

pub mod connection;
pub mod directory;
pub mod error;
pub mod headers;
pub mod laws;
pub mod message;
pub mod sender;
pub mod service;
pub mod stomp;
pub mod users;
