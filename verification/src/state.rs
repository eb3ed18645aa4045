//! The endpoint's mutable state and every decision the driver takes on it.
//!
//! All routing, admission and shutdown decisions are methods here, on plain
//! values. The surrounding process owns the sockets, channels and protocol
//! engine; it feeds each datagram, engine decision, worker event and
//! completion count into these methods and performs the I/O they call for.
//! `wf` ties `outgoing_bytes` to the queue it counts, and `admission_bounded`
//! is the cap that admission control maintains.

use vstd::prelude::*;
use crate::addr::{ensure_ipv6, v4_mapped, IpAddress, SockAddr};
use crate::event::{ConnectionEvent, EndpointEvent, is_close_event};
use crate::forward::{ForwardEntry, ForwardTable};
use crate::limiter::WorkLimiter;
use crate::registry::ConnectionSet;
use crate::transmit::{
    lemma_admission_bound_drop_first, lemma_max_push, lemma_sum_drop_first, lemma_sum_push,
    max_payload_len, sum_payload_lens, upstream_udp_transmit, Transmit,
};
use crate::{BATCH_SIZE, MAX_QUEUE_BYTES, MAX_UDP_PAYLOAD_CAP, RECV_TIME_BOUND_NANOS,
    SEND_TIME_BOUND_NANOS};

verus! {

/// An opaque client configuration token, handed through to the protocol
/// engine unread.
#[derive(Clone, Copy, Debug, PartialEq, Eq, Structural)]
pub struct ClientConfig {
    pub id: u64,
}

/// Errors surfaced by `connect`.
#[derive(Clone, Copy, Debug, PartialEq, Eq, Structural)]
pub enum ConnectError {
    /// The driver is gone; no new connection can be created.
    EndpointStopping,
    /// An IPv6 target on an IPv4-only socket.
    InvalidRemoteAddress(SockAddr),
    /// `connect` was called without a default client configuration.
    NoDefaultClientConfig,
}

/// Outcome of one poll of the accept future.
#[derive(Clone, Copy, Debug, PartialEq, Eq, Structural)]
pub enum AcceptPoll {
    /// An accepted connection, by handle.
    Connection(usize),
    /// No more connections will arrive: the driver is gone or a close was
    /// recorded.
    Finished,
    /// Nothing to hand out yet; wait for a wakeup.
    Waiting,
}

/// A protocol-engine decision for one received segment, as plain values.
#[derive(Debug)]
pub enum DatagramEvent {
    /// The engine accepted a new connection under this handle.
    NewConnection { handle: usize },
    /// An event for an existing connection, carried opaquely by token.
    ConnectionEvent { handle: usize, token: u64 },
    /// A datagram the engine wants transmitted, subject to admission control.
    Response(Transmit),
    /// The engine asks for a forwarded flow for this client; `upstream` is
    /// the advertised upstream address, if any, and `initial_payload` the
    /// datagram that triggered the decision.
    NewForward { client: SockAddr, upstream: Option<SockAddr>, initial_payload: Vec<u8> },
}

/// What the receive pipeline asks the surrounding process to do after a
/// decision was applied.
#[derive(Debug)]
pub enum RecvAction {
    /// Nothing; go on with the next segment.
    Continue,
    /// Bind a fresh upstream socket, then call `register_forward` with these
    /// values.
    BindUpstream { client: SockAddr, upstream: SockAddr, initial_payload: Vec<u8> },
}

/// Where one received segment goes.
#[derive(Debug)]
pub enum RouteOutcome {
    /// The segment was appended to a forwarded flow's pending queue; it must
    /// not be offered to the protocol engine.
    Forwarded,
    /// No forwarded flow matches: offer exactly this payload to the engine.
    Engine(Vec<u8>),
}

/// What the event pump asks for after consuming one inbound worker event.
#[derive(Clone, Copy, Debug, PartialEq, Eq, Structural)]
pub enum EventStep {
    /// Feed the token to the protocol engine; if `notify_idle`, wake the
    /// idle waiters afterwards.
    Engine { token: u64, notify_idle: bool },
    /// The event was a transmit and has been queued.
    Queued,
}

/// Driver decisions taken at the end of one poll.
#[derive(Clone, Copy, Debug, PartialEq, Eq, Structural)]
pub struct DriverPollOutcome {
    /// The driver terminates: no API handles and no connections remain.
    pub terminate: bool,
    /// Wake the accept waiters: accepted connections are pending.
    pub notify_incoming: bool,
}

/// The state behind the endpoint's mutex.
#[derive(Debug)]
pub struct EndpointState {
    /// FIFO of transmits pending on the downstream socket.
    pub outgoing: Vec<Transmit>,
    /// Sum of the payload lengths in `outgoing`.
    pub outgoing_bytes: usize,
    /// Cap on `outgoing_bytes` for admission-controlled transmits.
    pub max_queue_bytes: usize,
    /// FIFO of accepted-but-unclaimed connection handles.
    pub incoming: Vec<usize>,
    /// Connections indexed by protocol handle.
    pub connections: ConnectionSet,
    /// Forwarded flows indexed by client remote address.
    pub forward_table: ForwardTable,
    /// Whether the driver has installed its waker.
    pub driver_waker: bool,
    /// Number of live API handles; excludes the driver.
    pub ref_count: usize,
    /// Set when the driver terminates; no new connection afterwards.
    pub driver_lost: bool,
    /// Whether the socket is in IPv6 mode.
    pub ipv6: bool,
    /// Size of the scratch buffer for batched downstream reads.
    pub recv_buf_len: usize,
    /// The configuration `connect` uses when none is passed.
    pub default_client_config: Option<ClientConfig>,
    /// Work budget of the downstream receive pass.
    pub recv_limiter: WorkLimiter,
    /// Work budget of the downstream send pass.
    pub send_limiter: WorkLimiter,
}

/// Scratch-buffer size for batched reads: the engine's per-datagram size,
/// capped, times the coalescing factor, times the batch size.
pub open spec fn spec_recv_buffer_len(max_udp_payload_size: u64, gro_segments: usize) -> int {
    (if max_udp_payload_size < MAX_UDP_PAYLOAD_CAP {
        max_udp_payload_size as int
    } else {
        MAX_UDP_PAYLOAD_CAP as int
    }) * gro_segments * BATCH_SIZE
}

/// Compute the scratch-buffer size for batched reads.
pub fn recv_buffer_len(max_udp_payload_size: u64, gro_segments: usize) -> (n: usize)
    requires
        gro_segments <= 64,
    ensures
        n == spec_recv_buffer_len(max_udp_payload_size, gro_segments),
{
    let cap: u64 = if max_udp_payload_size < MAX_UDP_PAYLOAD_CAP {
        max_udp_payload_size
    } else {
        MAX_UDP_PAYLOAD_CAP
    };
    let g: u64 = gro_segments as u64;
    assert(cap * g <= 4194304) by (nonlinear_arith)
        requires
            cap <= 65536,
            g <= 64,
    ;
    let a: u64 = cap * g;
    let n64: u64 = a * 32;
    n64 as usize
}

impl EndpointState {
    /// The byte counter is exactly the sum of the queued payload lengths, and
    /// both maps are well formed.
    pub open spec fn wf(self) -> bool {
        &&& self.connections.wf()
        &&& self.forward_table.wf()
        &&& self.queue_bytes_exact()
    }

    /// `outgoing_bytes` equals the sum of the payload lengths in `outgoing`.
    pub open spec fn queue_bytes_exact(self) -> bool {
        self.outgoing_bytes == sum_payload_lens(self.outgoing@)
    }

    /// The queued bytes never exceed the cap by more than the largest queued
    /// payload: the cap is checked before enqueue, so at most one
    /// admission-controlled transmit overshoots.
    pub open spec fn admission_bounded(self) -> bool {
        sum_payload_lens(self.outgoing@) <= self.max_queue_bytes + max_payload_len(self.outgoing@)
    }

    /// Equal but for the transmit queue and its byte counter.
    pub open spec fn same_except_queue(a: Self, b: Self) -> bool {
        &&& a.connections == b.connections
        &&& a.forward_table == b.forward_table
        &&& a.incoming == b.incoming
        &&& a.driver_waker == b.driver_waker
        &&& a.ref_count == b.ref_count
        &&& a.driver_lost == b.driver_lost
        &&& a.ipv6 == b.ipv6
        &&& Self::same_config(a, b)
    }

    /// Equal but for the connection registry.
    pub open spec fn same_except_registry(a: Self, b: Self) -> bool {
        &&& a.outgoing == b.outgoing
        &&& a.outgoing_bytes == b.outgoing_bytes
        &&& a.forward_table == b.forward_table
        &&& a.incoming == b.incoming
        &&& a.driver_waker == b.driver_waker
        &&& a.ref_count == b.ref_count
        &&& a.driver_lost == b.driver_lost
        &&& a.ipv6 == b.ipv6
        &&& Self::same_config(a, b)
    }

    /// Equal but for the connection registry and the accept queue.
    pub open spec fn same_except_registry_and_incoming(a: Self, b: Self) -> bool {
        &&& a.outgoing == b.outgoing
        &&& a.outgoing_bytes == b.outgoing_bytes
        &&& a.forward_table == b.forward_table
        &&& a.driver_waker == b.driver_waker
        &&& a.ref_count == b.ref_count
        &&& a.driver_lost == b.driver_lost
        &&& a.ipv6 == b.ipv6
        &&& Self::same_config(a, b)
    }

    /// Equal but for the forwarding table.
    pub open spec fn same_except_forward(a: Self, b: Self) -> bool {
        &&& a.outgoing == b.outgoing
        &&& a.outgoing_bytes == b.outgoing_bytes
        &&& a.connections == b.connections
        &&& a.incoming == b.incoming
        &&& a.driver_waker == b.driver_waker
        &&& a.ref_count == b.ref_count
        &&& a.driver_lost == b.driver_lost
        &&& a.ipv6 == b.ipv6
        &&& Self::same_config(a, b)
    }

    /// The configuration fields, which only construction and `rebind` touch.
    pub open spec fn same_config(a: Self, b: Self) -> bool {
        &&& a.max_queue_bytes == b.max_queue_bytes
        &&& a.recv_buf_len == b.recv_buf_len
        &&& a.default_client_config == b.default_client_config
        &&& a.recv_limiter == b.recv_limiter
        &&& a.send_limiter == b.send_limiter
    }

    /// A fresh endpoint state: everything empty, one that has never seen a
    /// driver, a handle or a datagram.
    pub fn new(ipv6: bool, max_udp_payload_size: u64, gro_segments: usize) -> (r: Self)
        requires
            gro_segments <= 64,
        ensures
            r.wf(),
            r.admission_bounded(),
            r.outgoing@.len() == 0,
            r.outgoing_bytes == 0,
            r.incoming@.len() == 0,
            r.connections.senders@.len() == 0,
            r.connections.close is None,
            forall|h: usize| !r.connections.spec_contains(h),
            r.forward_table.slots@.len() == 0,
            forall|a: SockAddr| !r.forward_table.spec_contains(a),
            !r.driver_waker,
            r.ref_count == 0,
            !r.driver_lost,
            r.ipv6 == ipv6,
            r.max_queue_bytes == MAX_QUEUE_BYTES,
            r.recv_buf_len == spec_recv_buffer_len(max_udp_payload_size, gro_segments),
            r.default_client_config is None,
            r.recv_limiter.budget == RECV_TIME_BOUND_NANOS,
            r.send_limiter.budget == SEND_TIME_BOUND_NANOS,
    {
        EndpointState {
            outgoing: Vec::new(),
            outgoing_bytes: 0,
            max_queue_bytes: MAX_QUEUE_BYTES,
            incoming: Vec::new(),
            connections: ConnectionSet::new(),
            forward_table: ForwardTable::new(),
            driver_waker: false,
            ref_count: 0,
            driver_lost: false,
            ipv6,
            recv_buf_len: recv_buffer_len(max_udp_payload_size, gro_segments),
            default_client_config: None,
            recv_limiter: WorkLimiter::new(RECV_TIME_BOUND_NANOS),
            send_limiter: WorkLimiter::new(SEND_TIME_BOUND_NANOS),
        }
    }

    /// A new API handle was cloned from an existing one.
    pub fn handle_cloned(&mut self)
        requires
            old(self).ref_count < usize::MAX,
        ensures
            final(self).ref_count == old(self).ref_count + 1,
            final(self).outgoing == old(self).outgoing,
            final(self).outgoing_bytes == old(self).outgoing_bytes,
            final(self).incoming == old(self).incoming,
            final(self).connections == old(self).connections,
            final(self).forward_table == old(self).forward_table,
            final(self).driver_waker == old(self).driver_waker,
            final(self).driver_lost == old(self).driver_lost,
            final(self).ipv6 == old(self).ipv6,
            Self::same_config(*old(self), *final(self)),
    {
        self.ref_count = self.ref_count + 1;
    }

    /// An API handle was dropped. When the last one goes while the driver's
    /// waker is installed, the waker is taken and the caller must wake the
    /// driver so it can observe termination.
    pub fn handle_dropped(&mut self) -> (wake: bool)
        ensures
            final(self).ref_count
                == if old(self).ref_count > 0 { old(self).ref_count - 1 } else { 0 },
            wake == (old(self).ref_count == 1 && old(self).driver_waker),
            final(self).driver_waker == (old(self).driver_waker && !wake),
            final(self).outgoing == old(self).outgoing,
            final(self).outgoing_bytes == old(self).outgoing_bytes,
            final(self).incoming == old(self).incoming,
            final(self).connections == old(self).connections,
            final(self).forward_table == old(self).forward_table,
            final(self).driver_lost == old(self).driver_lost,
            final(self).ipv6 == old(self).ipv6,
            Self::same_config(*old(self), *final(self)),
    {
        if self.ref_count > 0 {
            self.ref_count = self.ref_count - 1;
            if self.ref_count == 0 && self.driver_waker {
                self.driver_waker = false;
                return true;
            }
        }
        false
    }

    /// What `connect_with` decides for this configuration and address.
    pub open spec fn connect_outcome(
        self,
        config: ClientConfig,
        addr: SockAddr,
        r: Result<(ClientConfig, SockAddr), ConnectError>,
    ) -> bool {
        &&& self.driver_lost ==> (r matches Err(e) && e is EndpointStopping)
        &&& !self.driver_lost && addr.spec_is_ipv6() && !self.ipv6 ==> (r matches Err(e)
            && (e matches ConnectError::InvalidRemoteAddress(a) && a == addr))
        &&& !self.driver_lost && (self.ipv6 || !addr.spec_is_ipv6()) ==> (r matches Ok(p) && {
            &&& p.0 == config
            &&& p.1.port == addr.port
            &&& !self.ipv6 ==> p.1 == addr
            &&& self.ipv6 ==> p.1.spec_is_ipv6() && (addr.ip is V6 ==> p.1 == addr)
                && (addr.ip matches IpAddress::V4(n) ==> p.1.ip == IpAddress::V6(
                v4_mapped(n) as u128,
            ))
        })
    }

    /// Decide a connection attempt with an explicit configuration: refused
    /// while the driver is gone, refused for an IPv6 target on an IPv4-only
    /// socket, and otherwise accepted with the address mapped into the
    /// socket's family. On success the caller hands the pair to the protocol
    /// engine and registers the handle it returns with `connect_register`.
    pub fn connect_with(&self, config: ClientConfig, addr: SockAddr) -> (r: Result<
        (ClientConfig, SockAddr),
        ConnectError,
    >)
        ensures
            self.connect_outcome(config, addr, r),
    {
        if self.driver_lost {
            return Err(ConnectError::EndpointStopping);
        }
        if addr.is_ipv6() && !self.ipv6 {
            return Err(ConnectError::InvalidRemoteAddress(addr));
        }
        let target = if self.ipv6 {
            ensure_ipv6(addr)
        } else {
            addr
        };
        Ok((config, target))
    }

    /// Decide a connection attempt with the default configuration, refused
    /// when none is set.
    pub fn connect(&self, addr: SockAddr) -> (r: Result<
        (ClientConfig, SockAddr),
        ConnectError,
    >)
        ensures
            match self.default_client_config {
                None => r matches Err(e) && e is NoDefaultClientConfig,
                Some(c) => self.connect_outcome(c, addr, r),
            },
    {
        match self.default_client_config {
            None => Err(ConnectError::NoDefaultClientConfig),
            Some(c) => self.connect_with(c, addr),
        }
    }

    /// Record the configuration `connect` will use by default.
    pub fn set_default_client_config(&mut self, config: ClientConfig)
        ensures
            final(self).default_client_config == Some(config),
            final(self).outgoing == old(self).outgoing,
            final(self).outgoing_bytes == old(self).outgoing_bytes,
            final(self).incoming == old(self).incoming,
            final(self).connections == old(self).connections,
            final(self).forward_table == old(self).forward_table,
            final(self).driver_waker == old(self).driver_waker,
            final(self).ref_count == old(self).ref_count,
            final(self).driver_lost == old(self).driver_lost,
            final(self).ipv6 == old(self).ipv6,
            final(self).max_queue_bytes == old(self).max_queue_bytes,
            final(self).recv_buf_len == old(self).recv_buf_len,
            final(self).recv_limiter == old(self).recv_limiter,
            final(self).send_limiter == old(self).send_limiter,
    {
        self.default_client_config = Some(config);
    }

    /// Register a connection created by `connect`: a fresh channel under this
    /// handle, inheriting the recorded Close if one is set. Client
    /// connections do not enter the accept queue.
    pub fn connect_register(&mut self, handle: usize)
        requires
            old(self).wf(),
        ensures
            final(self).wf(),
            old(self).admission_bounded() ==> final(self).admission_bounded(),
            Self::same_except_registry(*old(self), *final(self)),
            final(self).connections.close == old(self).connections.close,
            final(self).connections.spec_contains(handle),
            forall|h2: usize|
                #[trigger] final(self).connections.spec_contains(h2)
                    == (old(self).connections.spec_contains(h2) || h2 == handle),
            forall|h2: usize|
                h2 != handle && old(self).connections.spec_contains(h2)
                    ==> #[trigger] final(self).connections.channel_of(h2)
                        == old(self).connections.channel_of(h2),
            match old(self).connections.close {
                Some(cr) => final(self).connections.channel_of(handle).len() == 1
                    && is_close_event(
                    final(self).connections.channel_of(handle)[0],
                    cr.error_code,
                    cr.reason@,
                ),
                None => final(self).connections.channel_of(handle).len() == 0,
            },
    {
        self.connections.insert(handle);
    }

    /// The socket was swapped: record the new family and put a Ping on every
    /// connection's channel so peers observe the new source address promptly.
    pub fn rebind(&mut self, ipv6: bool)
        requires
            old(self).wf(),
        ensures
            final(self).wf(),
            old(self).admission_bounded() ==> final(self).admission_bounded(),
            final(self).ipv6 == ipv6,
            final(self).outgoing == old(self).outgoing,
            final(self).outgoing_bytes == old(self).outgoing_bytes,
            final(self).incoming == old(self).incoming,
            final(self).forward_table == old(self).forward_table,
            final(self).driver_waker == old(self).driver_waker,
            final(self).ref_count == old(self).ref_count,
            final(self).driver_lost == old(self).driver_lost,
            Self::same_config(*old(self), *final(self)),
            final(self).connections.close == old(self).connections.close,
            forall|h2: usize|
                #[trigger] final(self).connections.spec_contains(h2)
                    == old(self).connections.spec_contains(h2),
            forall|h2: usize|
                old(self).connections.spec_contains(h2) ==> {
                    &&& (#[trigger] final(self).connections.channel_of(h2)).len()
                        == old(self).connections.channel_of(h2).len() + 1
                    &&& final(self).connections.channel_of(h2).drop_last()
                        == old(self).connections.channel_of(h2)
                    &&& final(self).connections.channel_of(h2).last() is Ping
                },
    {
        self.ipv6 = ipv6;
        self.connections.broadcast_ping();
    }

    /// Close the endpoint: record the error code and reason, and put a Close
    /// event carrying them on every existing connection's channel. Channels
    /// created afterwards inherit the Close on insertion.
    pub fn close(&mut self, error_code: u64, reason: &Vec<u8>)
        requires
            old(self).wf(),
        ensures
            final(self).wf(),
            old(self).admission_bounded() ==> final(self).admission_bounded(),
            Self::same_except_registry(*old(self), *final(self)),
            final(self).connections.close matches Some(cr) && cr.error_code == error_code
                && cr.reason@ == reason@,
            forall|h2: usize|
                #[trigger] final(self).connections.spec_contains(h2)
                    == old(self).connections.spec_contains(h2),
            forall|h2: usize|
                old(self).connections.spec_contains(h2) ==> {
                    &&& (#[trigger] final(self).connections.channel_of(h2)).len()
                        == old(self).connections.channel_of(h2).len() + 1
                    &&& final(self).connections.channel_of(h2).drop_last()
                        == old(self).connections.channel_of(h2)
                    &&& is_close_event(
                        final(self).connections.channel_of(h2).last(),
                        error_code,
                        reason@,
                    )
                },
    {
        self.connections.broadcast_close(error_code, reason);
    }

    /// Whether all connections have drained; `wait_idle` completes exactly
    /// when this holds.
    pub fn is_empty(&self) -> (r: bool)
        ensures
            r == (self.connections.senders@.len() == 0),
    {
        self.connections.is_empty()
    }

    /// One poll of the accept future: no more connections once the driver is
    /// gone, else the oldest unclaimed connection, and after a manual close
    /// no further ones; otherwise wait.
    pub fn accept(&mut self) -> (r: AcceptPoll)
        ensures
            old(self).driver_lost ==> r is Finished && *final(self) == *old(self),
            !old(self).driver_lost && old(self).incoming@.len() > 0 ==> {
                &&& r == AcceptPoll::Connection(old(self).incoming@[0])
                &&& final(self).incoming@ == old(self).incoming@.drop_first()
                &&& Self::same_except_registry_and_incoming(*old(self), *final(self))
                &&& final(self).connections == old(self).connections
            },
            !old(self).driver_lost && old(self).incoming@.len() == 0 ==> *final(self) == *old(self)
                && r == (if old(self).connections.close is Some {
                AcceptPoll::Finished
            } else {
                AcceptPoll::Waiting
            }),
    {
        if self.driver_lost {
            return AcceptPoll::Finished;
        }
        if self.incoming.len() > 0 {
            let h = self.incoming.remove(0);
            return AcceptPoll::Connection(h);
        }
        if self.connections.close.is_some() {
            return AcceptPoll::Finished;
        }
        AcceptPoll::Waiting
    }

    /// Admission control for engine- and upstream-originated transmits:
    /// append to the queue only while the queued bytes are under the cap, so
    /// the queue overshoots the cap by at most one payload. Drops are silent.
    pub fn admit_transmit(&mut self, t: Transmit) -> (admitted: bool)
        requires
            old(self).wf(),
            old(self).max_queue_bytes + t.payload@.len() <= usize::MAX + 1,
        ensures
            final(self).wf(),
            Self::same_except_queue(*old(self), *final(self)),
            admitted == (old(self).outgoing_bytes < old(self).max_queue_bytes),
            admitted ==> final(self).outgoing@ == old(self).outgoing@.push(t)
                && final(self).outgoing_bytes == old(self).outgoing_bytes + t.payload@.len()
                && final(self).admission_bounded(),
            !admitted ==> *final(self) == *old(self),
            old(self).admission_bounded() ==> final(self).admission_bounded(),
    {
        if self.outgoing_bytes < self.max_queue_bytes {
            let len = t.payload.len();
            proof {
                lemma_sum_push(self.outgoing@, t);
                lemma_max_push(self.outgoing@, t);
            }
            self.outgoing.push(t);
            self.outgoing_bytes = self.outgoing_bytes + len;
            true
        } else {
            false
        }
    }

    /// Route one received segment by source address: a segment from a client
    /// with a forwarded flow is appended to that flow's pending queue, in
    /// order, and never offered to the protocol engine; any other segment is
    /// handed back to be offered to the engine exactly once.
    pub fn route_segment(&mut self, src: SockAddr, payload: Vec<u8>) -> (r: RouteOutcome)
        requires
            old(self).wf(),
        ensures
            final(self).wf(),
            old(self).admission_bounded() ==> final(self).admission_bounded(),
            (r is Forwarded) == old(self).forward_table.spec_contains(src),
            old(self).forward_table.spec_contains(src) ==> {
                &&& Self::same_except_forward(*old(self), *final(self))
                &&& forall|a2: SockAddr|
                    #[trigger] final(self).forward_table.spec_contains(a2)
                        == old(self).forward_table.spec_contains(a2)
                &&& final(self).forward_table.entry_of(src).pending@.len()
                    == old(self).forward_table.entry_of(src).pending@.len() + 1
                &&& final(self).forward_table.entry_of(src).pending@.drop_last()
                    == old(self).forward_table.entry_of(src).pending@
                &&& final(self).forward_table.entry_of(src).pending@.last().destination
                    == old(self).forward_table.entry_of(src).upstream_peer
                &&& final(self).forward_table.entry_of(src).pending@.last().payload@ == payload@
                &&& final(self).forward_table.entry_of(src).pending@.last().ecn is None
                &&& final(self).forward_table.entry_of(src).upstream_peer
                    == old(self).forward_table.entry_of(src).upstream_peer
                &&& final(self).forward_table.entry_of(src).recv_buf_len
                    == old(self).forward_table.entry_of(src).recv_buf_len
                &&& final(self).forward_table.entry_of(src).last_activity
                    == old(self).forward_table.entry_of(src).last_activity
                &&& forall|a2: SockAddr|
                    a2 != src && old(self).forward_table.spec_contains(a2)
                        ==> #[trigger] final(self).forward_table.entry_of(a2)
                            == old(self).forward_table.entry_of(a2)
            },
            !old(self).forward_table.spec_contains(src) ==> (r matches RouteOutcome::Engine(p)
                && p@ == payload@ && *final(self) == *old(self)),
    {
        if self.forward_table.contains(src) {
            let peer = self.forward_table.peer_of(src);
            let t = upstream_udp_transmit(peer, payload);
            self.forward_table.push_pending(src, t);
            RouteOutcome::Forwarded
        } else {
            RouteOutcome::Engine(payload)
        }
    }

    /// Apply one protocol-engine decision: register and queue a new
    /// connection for accept, deliver an event to an existing connection's
    /// channel, admit a response transmit under the cap, or — for a new
    /// forward with an advertised upstream — ask the caller to bind an
    /// upstream socket. A new forward without an upstream address is silently
    /// discarded.
    pub fn apply_datagram_event(&mut self, ev: DatagramEvent) -> (act: RecvAction)
        requires
            old(self).wf(),
            ev matches DatagramEvent::ConnectionEvent { handle, token }
                ==> old(self).connections.spec_contains(handle),
            ev matches DatagramEvent::Response(t)
                ==> old(self).max_queue_bytes + t.payload@.len() <= usize::MAX + 1,
        ensures
            final(self).wf(),
            old(self).admission_bounded() ==> final(self).admission_bounded(),
            ev matches DatagramEvent::NewConnection { handle } ==> {
                &&& Self::same_except_registry_and_incoming(*old(self), *final(self))
                &&& final(self).incoming@ == old(self).incoming@.push(handle)
                &&& final(self).connections.close == old(self).connections.close
                &&& final(self).connections.spec_contains(handle)
                &&& forall|h2: usize|
                    #[trigger] final(self).connections.spec_contains(h2)
                        == (old(self).connections.spec_contains(h2) || h2 == handle)
                &&& forall|h2: usize|
                    h2 != handle && old(self).connections.spec_contains(h2)
                        ==> #[trigger] final(self).connections.channel_of(h2)
                            == old(self).connections.channel_of(h2)
                &&& match old(self).connections.close {
                    Some(cr) => final(self).connections.channel_of(handle).len() == 1
                        && is_close_event(
                        final(self).connections.channel_of(handle)[0],
                        cr.error_code,
                        cr.reason@,
                    ),
                    None => final(self).connections.channel_of(handle).len() == 0,
                }
                &&& act is Continue
            },
            ev matches DatagramEvent::ConnectionEvent { handle, token } ==> {
                &&& Self::same_except_registry(*old(self), *final(self))
                &&& final(self).connections.close == old(self).connections.close
                &&& forall|h2: usize|
                    #[trigger] final(self).connections.spec_contains(h2)
                        == old(self).connections.spec_contains(h2)
                &&& final(self).connections.channel_of(handle)
                    == old(self).connections.channel_of(handle).push(
                    ConnectionEvent::Proto(token),
                )
                &&& forall|h2: usize|
                    h2 != handle && old(self).connections.spec_contains(h2)
                        ==> #[trigger] final(self).connections.channel_of(h2)
                            == old(self).connections.channel_of(h2)
                &&& act is Continue
            },
            ev matches DatagramEvent::Response(t) ==> {
                &&& Self::same_except_queue(*old(self), *final(self))
                &&& old(self).outgoing_bytes < old(self).max_queue_bytes ==> final(self).outgoing@
                    == old(self).outgoing@.push(t) && final(self).outgoing_bytes
                    == old(self).outgoing_bytes + t.payload@.len()
                &&& old(self).outgoing_bytes >= old(self).max_queue_bytes ==> *final(self)
                    == *old(self)
                &&& act is Continue
            },
            ev matches DatagramEvent::NewForward { client, upstream, initial_payload } ==> {
                &&& *final(self) == *old(self)
                &&& match upstream {
                    Some(u) => act matches RecvAction::BindUpstream {
                        client: c,
                        upstream: up,
                        initial_payload: p,
                    } && c == client && up == u && p@ == initial_payload@,
                    None => act is Continue,
                }
            },
    {
        match ev {
            DatagramEvent::NewConnection { handle } => {
                self.connections.insert(handle);
                self.incoming.push(handle);
                RecvAction::Continue
            },
            DatagramEvent::ConnectionEvent { handle, token } => {
                self.connections.send_proto(handle, token);
                RecvAction::Continue
            },
            DatagramEvent::Response(t) => {
                self.admit_transmit(t);
                RecvAction::Continue
            },
            DatagramEvent::NewForward { client, upstream, initial_payload } => {
                match upstream {
                    Some(u) => RecvAction::BindUpstream {
                        client,
                        upstream: u,
                        initial_payload,
                    },
                    None => RecvAction::Continue,
                }
            },
        }
    }

    /// Install the forwarded flow the caller just bound a socket for: keyed
    /// by the client's remote address, pending exactly the triggering
    /// datagram addressed to the upstream peer, scratch buffer sized from the
    /// engine's datagram size, and activity starting now.
    pub fn register_forward(
        &mut self,
        client: SockAddr,
        upstream: SockAddr,
        initial_payload: Vec<u8>,
        max_udp_payload_size: u64,
        gro_segments: usize,
        now: u64,
    )
        requires
            old(self).wf(),
            gro_segments <= 64,
        ensures
            final(self).wf(),
            old(self).admission_bounded() ==> final(self).admission_bounded(),
            Self::same_except_forward(*old(self), *final(self)),
            forall|a2: SockAddr|
                #[trigger] final(self).forward_table.spec_contains(a2)
                    == (old(self).forward_table.spec_contains(a2) || a2 == client),
            forall|a2: SockAddr|
                a2 != client && old(self).forward_table.spec_contains(a2)
                    ==> #[trigger] final(self).forward_table.entry_of(a2)
                        == old(self).forward_table.entry_of(a2),
            final(self).forward_table.entry_of(client).upstream_peer == upstream,
            final(self).forward_table.entry_of(client).pending@.len() == 1,
            final(self).forward_table.entry_of(client).pending@[0].destination == upstream,
            final(self).forward_table.entry_of(client).pending@[0].payload@ == initial_payload@,
            final(self).forward_table.entry_of(client).pending@[0].ecn is None,
            final(self).forward_table.entry_of(client).recv_buf_len == spec_recv_buffer_len(
                max_udp_payload_size,
                gro_segments,
            ),
            final(self).forward_table.entry_of(client).last_activity == now,
    {
        let t = upstream_udp_transmit(upstream, initial_payload);
        let mut pending: Vec<Transmit> = Vec::new();
        pending.push(t);
        let entry = ForwardEntry {
            upstream_peer: upstream,
            pending,
            recv_buf_len: recv_buffer_len(max_udp_payload_size, gro_segments),
            last_activity: now,
        };
        self.forward_table.insert(client, entry);
    }

    /// One segment read from a forwarded flow's upstream socket: relay it
    /// toward the flow's client, subject to the same cap as engine responses.
    pub fn upstream_recv_segment(&mut self, client: SockAddr, payload: Vec<u8>) -> (admitted:
        bool)
        requires
            old(self).wf(),
            old(self).max_queue_bytes + payload@.len() <= usize::MAX + 1,
        ensures
            final(self).wf(),
            Self::same_except_queue(*old(self), *final(self)),
            old(self).admission_bounded() ==> final(self).admission_bounded(),
            admitted == (old(self).outgoing_bytes < old(self).max_queue_bytes),
            admitted ==> {
                &&& final(self).outgoing@.len() == old(self).outgoing@.len() + 1
                &&& final(self).outgoing@.drop_last() == old(self).outgoing@
                &&& final(self).outgoing@.last().destination == client
                &&& final(self).outgoing@.last().payload@ == payload@
                &&& final(self).outgoing@.last().ecn is None
                &&& final(self).outgoing@.last().segment_size is None
                &&& final(self).outgoing@.last().src_ip is None
                &&& final(self).outgoing_bytes == old(self).outgoing_bytes + payload@.len()
                &&& final(self).admission_bounded()
            },
            !admitted ==> *final(self) == *old(self),
    {
        let ghost pre = *self;
        let t = upstream_udp_transmit(client, payload);
        let admitted = self.admit_transmit(t);
        proof {
            if admitted {
                assert(self.outgoing@.drop_last() =~= pre.outgoing@);
            }
        }
        admitted
    }

    /// Number of transmits pending on the downstream socket.
    pub fn outgoing_len(&self) -> (n: usize)
        ensures
            n == self.outgoing@.len(),
    {
        self.outgoing.len()
    }

    /// The `i`-th pending transmit, oldest first.
    pub fn outgoing_at(&self, i: usize) -> (t: &Transmit)
        requires
            i < self.outgoing@.len(),
        ensures
            *t == self.outgoing@[i as int],
    {
        &self.outgoing[i]
    }

    /// The socket accepted the first `n` queued transmits in one gather
    /// write: drop them, strictly in FIFO order, and subtract their bytes.
    pub fn complete_send(&mut self, n: usize)
        requires
            old(self).wf(),
            n <= old(self).outgoing@.len(),
        ensures
            final(self).wf(),
            Self::same_except_queue(*old(self), *final(self)),
            final(self).outgoing@ == old(self).outgoing@.skip(n as int),
            final(self).outgoing_bytes == sum_payload_lens(old(self).outgoing@.skip(n as int)),
            old(self).admission_bounded() ==> final(self).admission_bounded(),
    {
        let ghost pre = *self;
        let mut k: usize = 0;
        while k < n
            invariant
                k <= n,
                n <= pre.outgoing@.len(),
                self.outgoing@ == pre.outgoing@.skip(k as int),
                self.outgoing_bytes == sum_payload_lens(self.outgoing@),
                self.max_queue_bytes == pre.max_queue_bytes,
                Self::same_except_queue(pre, *self),
                pre.connections.wf() ==> self.connections.wf(),
                pre.forward_table.wf() ==> self.forward_table.wf(),
                pre.admission_bounded() ==> sum_payload_lens(self.outgoing@)
                    <= self.max_queue_bytes + max_payload_len(self.outgoing@),
            decreases n - k,
        {
            let ghost qk = self.outgoing@;
            proof {
                lemma_sum_drop_first(qk);
                if pre.admission_bounded() {
                    lemma_admission_bound_drop_first(qk, pre.max_queue_bytes as nat);
                }
            }
            let t = self.outgoing.remove(0);
            self.outgoing_bytes = self.outgoing_bytes - t.payload.len();
            k = k + 1;
            proof {
                assert(qk.drop_first() =~= pre.outgoing@.skip(k as int));
            }
        }
    }

    /// Consume one inbound worker event. A protocol event first settles the
    /// registry — a drained connection is removed, and when the last one
    /// goes the idle waiters are to be woken — and is then handed on to the
    /// protocol engine by token. A transmit is queued without admission
    /// control: per-connection backpressure is the worker's responsibility.
    pub fn handle_event(&mut self, ch: usize, ev: EndpointEvent) -> (r: EventStep)
        requires
            old(self).wf(),
            ev matches EndpointEvent::Transmit(t)
                ==> old(self).outgoing_bytes + t.payload@.len() <= usize::MAX,
        ensures
            final(self).wf(),
            ev matches EndpointEvent::Proto { token, drained } ==> {
                &&& Self::same_except_registry(*old(self), *final(self))
                &&& final(self).connections.close == old(self).connections.close
                &&& old(self).admission_bounded() ==> final(self).admission_bounded()
                &&& !drained ==> final(self).connections == old(self).connections
                &&& drained ==> !final(self).connections.spec_contains(ch)
                &&& drained ==> forall|h2: usize|
                    h2 != ch ==> #[trigger] final(self).connections.spec_contains(h2)
                        == old(self).connections.spec_contains(h2)
                &&& drained ==> forall|h2: usize|
                    h2 != ch && old(self).connections.spec_contains(h2)
                        ==> #[trigger] final(self).connections.channel_of(h2)
                            == old(self).connections.channel_of(h2)
                &&& r == (EventStep::Engine {
                    token,
                    notify_idle: drained && final(self).connections.senders@.len() == 0,
                })
            },
            ev matches EndpointEvent::Transmit(t) ==> {
                &&& Self::same_except_queue(*old(self), *final(self))
                &&& final(self).outgoing@ == old(self).outgoing@.push(t)
                &&& final(self).outgoing_bytes == old(self).outgoing_bytes + t.payload@.len()
                &&& r is Queued
            },
    {
        match ev {
            EndpointEvent::Proto { token, drained } => {
                let mut notify_idle = false;
                if drained {
                    self.connections.remove(ch);
                    notify_idle = self.connections.is_empty();
                }
                EventStep::Engine { token, notify_idle }
            },
            EndpointEvent::Transmit(t) => {
                let len = t.payload.len();
                proof {
                    lemma_sum_push(self.outgoing@, t);
                }
                self.outgoing.push(t);
                self.outgoing_bytes = self.outgoing_bytes + len;
                EventStep::Queued
            },
        }
    }

    /// Deliver a follow-up event the engine produced for a connection, by
    /// token, onto that connection's channel.
    pub fn deliver_follow_up(&mut self, ch: usize, token: u64)
        requires
            old(self).wf(),
            old(self).connections.spec_contains(ch),
        ensures
            final(self).wf(),
            old(self).admission_bounded() ==> final(self).admission_bounded(),
            Self::same_except_registry(*old(self), *final(self)),
            final(self).connections.close == old(self).connections.close,
            forall|h2: usize|
                #[trigger] final(self).connections.spec_contains(h2)
                    == old(self).connections.spec_contains(h2),
            final(self).connections.channel_of(ch)
                == old(self).connections.channel_of(ch).push(ConnectionEvent::Proto(token)),
            forall|h2: usize|
                h2 != ch && old(self).connections.spec_contains(h2)
                    ==> #[trigger] final(self).connections.channel_of(h2)
                        == old(self).connections.channel_of(h2),
    {
        self.connections.send_proto(ch, token);
    }

    /// The driver installed its waker.
    pub fn driver_install_waker(&mut self)
        ensures
            final(self).driver_waker,
            final(self).outgoing == old(self).outgoing,
            final(self).outgoing_bytes == old(self).outgoing_bytes,
            final(self).incoming == old(self).incoming,
            final(self).connections == old(self).connections,
            final(self).forward_table == old(self).forward_table,
            final(self).ref_count == old(self).ref_count,
            final(self).driver_lost == old(self).driver_lost,
            final(self).ipv6 == old(self).ipv6,
            Self::same_config(*old(self), *final(self)),
    {
        self.driver_waker = true;
    }

    /// The decisions taken at the end of one driver poll: terminate exactly
    /// when no API handles and no connections remain, and wake the accept
    /// waiters exactly when accepted connections are pending.
    pub fn driver_poll_outcome(&self) -> (r: DriverPollOutcome)
        ensures
            r.terminate == (self.ref_count == 0 && self.connections.senders@.len() == 0),
            r.notify_incoming == (self.incoming@.len() > 0),
    {
        DriverPollOutcome {
            terminate: self.ref_count == 0 && self.connections.is_empty(),
            notify_incoming: self.incoming.len() > 0,
        }
    }

    /// The driver is gone: no new connection can be created, `accept`
    /// resolves to nothing, and every worker channel is dropped so workers
    /// observe termination. The recorded close survives.
    pub fn driver_shutdown(&mut self)
        ensures
            final(self).driver_lost,
            final(self).connections.senders@.len() == 0,
            forall|h2: usize| !final(self).connections.spec_contains(h2),
            final(self).connections.close == old(self).connections.close,
            final(self).outgoing == old(self).outgoing,
            final(self).outgoing_bytes == old(self).outgoing_bytes,
            final(self).incoming == old(self).incoming,
            final(self).forward_table == old(self).forward_table,
            final(self).driver_waker == old(self).driver_waker,
            final(self).ref_count == old(self).ref_count,
            final(self).ipv6 == old(self).ipv6,
            Self::same_config(*old(self), *final(self)),
            final(self).connections.wf(),
    {
        self.driver_lost = true;
        self.connections.clear();
    }
}

/// The byte counter is exact: in every well-formed state, `outgoing_bytes`
/// equals the sum of the payload lengths of the queued transmits. Every
/// method here establishes or preserves this.
pub proof fn lemma_outgoing_bytes_exact(s: EndpointState)
    requires
        s.wf(),
    ensures
        s.outgoing_bytes == sum_payload_lens(s.outgoing@),
{
}

/// The overshoot is at most one transmit: in every well-formed state within
/// the admission bound, the queued bytes exceed the cap by at most the
/// largest queued payload. The bound is established empty, kept by every
/// admission-controlled enqueue (the cap is checked before the push) and by
/// every send completion; only worker-originated transmits, which admission
/// control deliberately does not gate, are outside it.
pub proof fn lemma_queue_overshoot_at_most_one(s: EndpointState)
    requires
        s.wf(),
        s.admission_bounded(),
    ensures
        s.outgoing_bytes <= s.max_queue_bytes + max_payload_len(s.outgoing@),
{
}

} // verus!
