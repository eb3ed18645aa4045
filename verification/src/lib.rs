//! Core of a QUIC endpoint's I/O driver: the bookkeeping that multiplexes a
//! single UDP socket across many logical connections and transparently relays
//! selected flows to an upstream UDP peer.
//!
//! The crate models every routing and queueing decision of the driver as a
//! function on plain values. The surrounding process performs the actual
//! socket polls, channel sends and protocol-engine calls, and feeds their
//! results back in; everything the driver decides — admission control on the
//! transmit queue, connection registry bookkeeping, forwarding-table lookups,
//! idle eviction, shutdown — is verified here.

use vstd::prelude::*;

pub mod addr;
pub mod event;
pub mod forward;
pub mod registry;
pub mod limiter;
pub mod segments;
pub mod state;
pub mod transmit;

verus! {

/// Cap on `outgoing_bytes` for engine-generated responses and
/// upstream-injected transmits; per-connection transmits are not gated here.
pub const MAX_QUEUE_BYTES: usize = 10_000_000;

/// Most datagrams a single batched socket call reads or writes.
pub const BATCH_SIZE: usize = 32;

/// Most inbound per-connection events drained in one pump cycle.
pub const IO_LOOP_BOUND: usize = 160;

/// Per-cycle time budget of the downstream receive pass, in nanoseconds.
pub const RECV_TIME_BOUND_NANOS: u64 = 50_000;

/// Per-cycle time budget of the downstream send pass, in nanoseconds.
pub const SEND_TIME_BOUND_NANOS: u64 = 50_000;

/// A forwarded flow idle for longer than this is evicted, in nanoseconds.
pub const IDLE_TIMEOUT_NANOS: u64 = 30_000_000_000;

/// Cap on the per-datagram buffer size used when sizing scratch buffers.
pub const MAX_UDP_PAYLOAD_CAP: u64 = 65536;

} // verus!
