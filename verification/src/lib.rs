//! Leader election for small, static clusters by the bully rule: the process
//! with the highest surviving identifier becomes coordinator, and every live
//! process converges on that fact despite message loss and crashes.
//!
//! The crate holds the three verified parts of such a node: the message codec
//! with its length-prefixed framing, the read-only peer registry, and the
//! election state machine that turns incoming messages and timer expirations
//! into role changes and outgoing messages.

pub mod wire;
pub mod message;
pub mod stream;
pub mod registry;
pub mod election;
