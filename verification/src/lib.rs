//! Polling, de-duplication and forwarding rules for webhook deliveries.
//!
//! The crate decides which deliveries of a polled summary page are new, in which
//! order they are emitted, and when a polling session gives up for inactivity.
//! Network calls, sleeping and printing are left to the caller, which drives the
//! [`pollster::Poller`] state machine.

pub mod clock;
pub mod forwarder;
pub mod gh;
pub mod pollster;
pub mod text;
pub mod watermark;
