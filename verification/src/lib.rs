//! A protocol bridge between a monitored application's socket traffic and a
//! single automation-agent control connection.
//!
//! The crate verifies the bridge's core: the 3-byte-header frame codec used on
//! the control channel, the two forwarding byte queues, and the
//! connect/reconnect/keep-alive state machine.  The surrounding I/O (sockets,
//! the interception layer, the poll thread) is left to the embedding program.

pub mod bridge;
pub mod codec;
