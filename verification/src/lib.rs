//! Secure message protocol and peer-state engine of a peer-to-peer encrypted
//! group chat: the envelope and ticket codecs, the peer registry and the
//! decrypt-failure quarantine, and the decisions of the chat backend.

pub mod bytes;
pub mod chat;
pub mod cli;
pub mod command;
pub mod dice;
pub mod escape;
pub mod events;
pub mod message;
pub mod peer;
pub mod secrets;
pub mod text;
pub mod ticket;
pub mod ui;
pub mod varint;
