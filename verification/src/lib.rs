//! Verified core of the AM02 secondary-screen service: the 253-byte host frame,
//! the 29-byte screen response, the connection state machine, the IPC command
//! rules and the parsers behind the system-information collector.

pub mod bytes;
pub mod protocol;
pub mod crc;
pub mod state;
pub mod power;
pub mod text;
pub mod weather;
pub mod ipc;
pub mod lexer;
pub mod collector;
