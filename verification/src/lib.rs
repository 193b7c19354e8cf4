//! Client-side protocol core for a text-to-speech streaming service that is
//! reached over a persistent, message-framed socket.
//!
//! The crate builds the pseudo-HTTP control messages that configure a session
//! and request synthesis, and drives the turn-based state machine that
//! classifies incoming frames and assembles the raw audio bytes carried by
//! binary frames.  Socket construction, TLS, file output and logging are the
//! caller's concern: the core works on plain strings and byte vectors.

pub mod text;
pub mod util;
pub mod config;
pub mod protocol;
