//! nexus - a channel-based terminal multiplexer.
//!
//! A background daemon owns a set of pseudo-terminal processes (channels) inside
//! one session and serves them to attached clients over a local socket. This
//! crate holds the rules of that system as verified code: the wire framing, the
//! channel and session state machines, the per-client subscription bookkeeping
//! and the client-side input handling. I/O is left to the caller, which feeds
//! events in and carries actions out.

pub mod channel;
pub mod client;
pub mod config;
pub mod protocol;
pub mod server;
pub mod text;
