//! A text-line chat relay engine.
//!
//! Clients connect over a stream transport and send newline-terminated
//! text lines; every accepted line is rebroadcast to all currently
//! registered clients. This crate holds the verified core of such a
//! relay: the registry of per-client outboxes, the single-consumer
//! broadcast fan-out, and the per-connection reader/writer lifecycle
//! decisions. The transport itself (sockets, threads, blocking reads)
//! lives outside the library and hands it plain values.

pub mod broadcast;
pub mod laws;
pub mod message;
pub mod outbox;
pub mod registry;
pub mod session;
