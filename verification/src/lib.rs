//! A small relay library for a multiplexed-channel server.
//!
//! Concurrent connections each own a set of open channels; the shared
//! [`registry::Registry`] maps every open `(connection, channel)` pair to a
//! write handle. The [`session`] module gives the per-connection state
//! machine: authentication, channel opening, inbound data (echo plus
//! broadcast to other connections), and reverse port-forward requests. The
//! networking loop around it performs the I/O that these plans describe.

pub mod config;
pub mod forward;
pub mod registry;
pub mod session;
pub mod text;
