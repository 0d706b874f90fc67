//! Text frames of a messaging protocol.

pub mod frame;
pub mod grammar;
