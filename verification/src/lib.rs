//! Core of a TCP load balancer: a single-threaded, readiness-driven proxy
//! that accepts client connections on configured frontends, opens a paired
//! upstream connection chosen round-robin from the frontend's backend, and
//! pipes bytes in both directions until either side closes.
//!
//! This crate holds the verified state machines: the token codec that routes
//! poller events, the slot tables with stable indices, the round-robin
//! router, the paired-connection byte pump, and the live-reconfiguration
//! diff. All socket and poller work is performed by the embedding program,
//! which feeds readiness events and I/O results into these state machines
//! and carries out the actions they decide.

pub mod addr;
pub mod backend;
pub mod config;
pub mod connection;
pub mod driver;
pub mod driver_state;
pub mod error;
pub mod frontend;
pub mod messages;
pub mod readiness;
pub mod slab;
