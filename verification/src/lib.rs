//! Core of a minimal multi-room text chat backend: signed identity tokens
//! binding a user name to a room, per-room append-only message logs with
//! offset-based catch-up reads, a registry of pre-provisioned rooms, a
//! decoder that frames a byte stream into discrete requests, and the
//! dispatcher that routes each request to the right operation.

pub mod client;
pub mod decode;
pub mod dispatch;
pub mod registry;
pub mod room;
pub mod text;
pub mod token;

pub use decode::de_quotes;
