//! Verified protocol engine for an unconnected ping/pong prober.
//!
//! The crate covers the wire codec for the two packet kinds, the
//! correlation table that matches replies to outstanding requests, and
//! the pure decision logic of the poll driver.  Network and sink I/O
//! live outside the library and hand it plain values.

pub mod beint;
pub mod correlate;
pub mod driver;
pub mod status;
pub mod wire;
