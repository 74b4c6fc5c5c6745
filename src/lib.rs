//! Core of a non-blocking frame relay server: the length-prefixed frame codec,
//! the buffered state of each connection, and the slot registry of live
//! connections. Socket calls and the poll loop stay with the caller, which hands
//! their results to these types.

pub mod frame;
pub mod connection;
pub mod registry;
