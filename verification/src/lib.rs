//! A TCP connection engine after RFC 793, with the wrap-safe sequence
//! arithmetic of RFC 1323.
//!
//! The engine owns one endpoint. It is driven by inbound segments and clock
//! ticks, and queues the frames it wants transmitted; it performs no I/O and
//! reads no clock itself.

pub mod available;
pub mod connection;
pub mod error;
pub mod laws;
pub mod queue;
pub mod seqnum;
pub mod space;
pub mod tcb;
pub mod timers;
pub mod wire;
