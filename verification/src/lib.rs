//! A minimal server-side endpoint for a binary, length-prefixed network game
//! protocol: a variable-length integer codec, a typed cursor over packet
//! bytes, and the handshake dispatch into the status and login exchanges.

pub mod chat;
pub mod connection;
pub mod error;
pub mod packet;
pub mod varint;
