//! Events exchanged between the endpoint and its per-connection workers.
//!
//! Protocol-engine events are opaque to the driver: it only routes them. Each
//! is carried here as a plain token, together with the one bit the driver
//! does read — whether an inbound event signals that its connection has
//! drained.

use vstd::prelude::*;
use crate::transmit::Transmit;

verus! {

/// Event delivered from the endpoint to a per-connection worker, over that
/// connection's outbound channel.
#[derive(Clone, Debug)]
pub enum ConnectionEvent {
    /// A protocol-engine event for the worker, carried opaquely by token.
    Proto(u64),
    /// The endpoint was closed with this error code and reason.
    Close { error_code: u64, reason: Vec<u8> },
    /// Wake the worker so its peer observes fresh activity.
    Ping,
}

/// Event delivered from a per-connection worker to the endpoint, over the
/// shared inbound channel.
#[derive(Clone, Debug)]
pub enum EndpointEvent {
    /// A protocol event for the engine, carried opaquely by token; `drained`
    /// is whether it signals that the connection has finished.
    Proto { token: u64, drained: bool },
    /// A datagram the connection wants transmitted.
    Transmit(Transmit),
}

/// Whether `e` is a Close event with the given code and reason.
pub open spec fn is_close_event(e: ConnectionEvent, error_code: u64, reason: Seq<u8>) -> bool {
    &&& e matches ConnectionEvent::Close { error_code: c, reason: r }
    &&& c == error_code
    &&& r@ == reason
}

} // verus!
