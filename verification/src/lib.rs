//! A connection-relay core: an upgrade handshake that turns a raw text
//! connection into a duplex message channel, a registry of rooms addressed by
//! short codes, and the per-connection relay step that fans each member's
//! lines out to every other member of its room.
//!
//! The library holds the protocol and bookkeeping logic; reading and writing
//! the actual connections is left to the calling program, which hands lines in
//! and carries actions out.

pub mod channel;
pub mod command;
pub mod handshake;
pub mod registry;
pub mod room;
pub mod session;
pub mod text;

