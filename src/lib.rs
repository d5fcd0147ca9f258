//! Client-side engine of the remote console (RCON) protocol: packet framing,
//! reassembly of fragmented responses and the login / command session.
//!
//! The library performs no I/O. A caller opens the connection, sends the bytes
//! that the session hands out and feeds back every read it performs.

pub mod codec;
pub mod error;
pub mod reassembly;
pub mod session;
