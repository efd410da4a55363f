//! An in-memory key-value server core speaking a length-prefixed wire
//! protocol: reply encoding, an incremental request decoder, command parsing,
//! an expiring store, command dispatch, server metadata and the replica
//! bootstrap handshake.
pub mod clock;
pub mod command;
pub mod command_handling;
pub mod decoder;
pub mod laws;
pub mod protocol_parser;
pub mod replica;
pub mod resp;
pub mod server;
pub mod session;
pub mod store;
