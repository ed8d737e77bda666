//! Membership gossip messages and the negotiated, optional LZ4
//! compression of their payloads, with bookkeeping of how much the
//! compression saved.

pub mod compression;
pub mod message;
pub mod wire;
