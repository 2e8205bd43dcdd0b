//! Protocol and decision logic of a remote process-execution daemon.
//!
//! A server listens on a UNIX SEQPACKET socket; a client sends an exec
//! request together with its stdio descriptors, the server spawns the
//! program, relays signals to it and finally reports how it terminated.
//! This crate holds the message codec, the per-connection state machines
//! of both ends, the child spawn plan and the child-reaping bookkeeping.

pub mod wire;
pub mod messages;
pub mod system;
pub mod child;
pub mod session;
pub mod client;
pub mod watcher;
pub mod signals;
pub mod socket;
pub mod debug;
