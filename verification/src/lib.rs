//! Verified core of a small chat relay.
//!
//! A server registers each client under a unique username and forwards
//! user-addressed messages between live connections; a client keeps one
//! session alive across connection losses with bounded, backoff-driven
//! reconnection.  This crate holds the parts of that system that are pure
//! logic: the wire codec with explicit newline framing, the server-side
//! registry and router decisions, and the client session state machine.
//! The sockets, threads and terminal around them live in the accompanying
//! application code, which calls into this crate for every decision.

pub mod ascii_art;
pub mod cli;
pub mod codec;
pub mod error;
pub mod event;
pub mod frame;
pub mod registry;
pub mod router;
pub mod session;
pub mod text;
