//! The front door of a game-server honeypot: the wire codec, the packet model
//! and the per-connection state machine of the handshake, status and login
//! exchange, in both the legacy and the modern dialect of the protocol.
//!
//! Nothing here touches a socket. Bytes that have arrived are read through a
//! [`reader::Reader`]; bytes that are to be sent are appended to a vector.
//!
//! - [`reader`]: the cursor over received bytes, with its marks for input
//!   that was truncated or refused.
//! - [`varint`], [`scalar`], [`text`]: the wire codec.
//! - [`versions`]: the tables from protocol numbers to release names.
//! - [`packets`], [`status`], [`identity`]: the packet model.
//! - [`protocol`], [`connection`]: the exchanges, and the state machine that
//!   strings them together.
//! - [`formats`]: the record of a login, and the choice of sinks for it.
pub mod connection;
pub mod formats;
pub mod identity;
pub mod packets;
pub mod protocol;
pub mod reader;
pub mod scalar;
pub mod status;
pub mod text;
pub mod varint;
pub mod versions;
