//! End-to-end scenarios on the endpoint state machine.

use quic_endpoint::addr::{IpAddress, SockAddr};
use quic_endpoint::event::{ConnectionEvent, EndpointEvent};
use quic_endpoint::state::{
    AcceptPoll, ClientConfig, ConnectError, DatagramEvent, EndpointState, EventStep, RecvAction,
    RouteOutcome,
};
use quic_endpoint::transmit::Transmit;

fn v4(a: u8, b: u8, c: u8, d: u8, port: u16) -> SockAddr {
    let ip = ((a as u32) << 24) | ((b as u32) << 16) | ((c as u32) << 8) | (d as u32);
    SockAddr { ip: IpAddress::V4(ip), port }
}

fn response(dest: SockAddr, len: usize) -> DatagramEvent {
    DatagramEvent::Response(Transmit {
        destination: dest,
        payload: vec![0u8; len],
        ecn: None,
        segment_size: None,
        src_ip: None,
    })
}

fn fresh_server() -> EndpointState {
    EndpointState::new(false, 1500, 1)
}

#[test]
fn server_accept_delivers_new_connection() {
    let mut state = fresh_server();
    let client = v4(203, 0, 113, 4, 55555);

    // The Initial packet reaches the engine: no forwarded flow matches.
    let route = state.route_segment(client, vec![0xc0, 0x00, 0x00, 0x00, 0x01]);
    assert!(matches!(route, RouteOutcome::Engine(_)));

    // The engine accepts a new connection under handle 7.
    let act = state.apply_datagram_event(DatagramEvent::NewConnection { handle: 7 });
    assert!(matches!(act, RecvAction::Continue));

    // The registry now contains handle 7 and accept resolves with it.
    assert!(state.connections.find(7).is_some());
    assert_eq!(state.accept(), AcceptPoll::Connection(7));
    assert_eq!(state.accept(), AcceptPoll::Waiting);
}

#[test]
fn admission_drop_caps_response_queue() {
    let mut state = fresh_server();
    state.max_queue_bytes = 1024;
    let client = v4(203, 0, 113, 4, 40000);

    for _ in 0..100 {
        state.apply_datagram_event(response(client, 200));
    }
    // 200-byte responses: five fill 1000 bytes, the sixth overshoots to 1200,
    // and from then on the cap refuses everything.
    assert_eq!(state.outgoing_len(), 6);
    assert_eq!(state.outgoing_bytes, 1200);
}

#[test]
fn queue_bytes_track_payload_sum() {
    let mut state = fresh_server();
    let dest = v4(198, 51, 100, 1, 443);
    state.apply_datagram_event(response(dest, 100));
    state.apply_datagram_event(response(dest, 250));
    state.apply_datagram_event(response(dest, 1));
    assert_eq!(state.outgoing_bytes, 351);
    assert_eq!(state.outgoing_len(), 3);
    state.complete_send(2);
    assert_eq!(state.outgoing_bytes, 1);
    assert_eq!(state.outgoing_len(), 1);
    assert_eq!(state.outgoing_at(0).payload.len(), 1);
}

#[test]
fn boundary_one_overshoot_then_drop() {
    let mut state = fresh_server();
    state.max_queue_bytes = 10;
    let dest = v4(198, 51, 100, 1, 443);

    // Fill to exactly one byte under the cap.
    state.apply_datagram_event(response(dest, 9));
    assert_eq!(state.outgoing_bytes, 9);

    // A response of length 2 is still accepted...
    state.apply_datagram_event(response(dest, 2));
    assert_eq!(state.outgoing_bytes, 11);
    assert_eq!(state.outgoing_len(), 2);

    // ...and the next response of length 1 is silently dropped.
    state.apply_datagram_event(response(dest, 1));
    assert_eq!(state.outgoing_bytes, 11);
    assert_eq!(state.outgoing_len(), 2);
}

#[test]
fn client_connect_maps_to_ipv6() {
    let mut state = EndpointState::new(true, 1500, 1);
    state.set_default_client_config(ClientConfig { id: 4 });
    let target = v4(192, 0, 2, 1, 443);

    let (config, mapped) = state.connect(target).unwrap();
    assert_eq!(config, ClientConfig { id: 4 });
    // The engine receives [::ffff:192.0.2.1]:443.
    assert_eq!(mapped.port, 443);
    assert_eq!(mapped.ip, IpAddress::V6(0x0000_ffff_c000_0201));
}

#[test]
fn connect_error_cases() {
    let mut state = fresh_server();
    assert_eq!(state.connect(v4(192, 0, 2, 1, 443)), Err(ConnectError::NoDefaultClientConfig));

    let v6_target = SockAddr { ip: IpAddress::V6(0x2001_0db8u128 << 96), port: 443 };
    assert_eq!(
        state.connect_with(ClientConfig { id: 1 }, v6_target),
        Err(ConnectError::InvalidRemoteAddress(v6_target))
    );

    state.driver_shutdown();
    assert_eq!(
        state.connect_with(ClientConfig { id: 1 }, v4(192, 0, 2, 1, 443)),
        Err(ConnectError::EndpointStopping)
    );
}

#[test]
fn connect_register_creates_channel() {
    let mut state = fresh_server();
    let (config, target) =
        state.connect_with(ClientConfig { id: 9 }, v4(192, 0, 2, 7, 4433)).unwrap();
    assert_eq!(config.id, 9);
    assert_eq!(target, v4(192, 0, 2, 7, 4433));
    state.connect_register(3);
    assert!(state.connections.find(3).is_some());
    // A client connection is not offered to accept.
    assert_eq!(state.accept(), AcceptPoll::Waiting);
    assert!(state.connections.take_events(3).is_empty());
}

#[test]
fn forwarding_round_trip() {
    let mut state = fresh_server();
    let client = v4(203, 0, 113, 9, 50000);
    let upstream = v4(198, 51, 100, 9, 443);
    let hello = vec![0x16, 0x03, 0x01, 0x02, 0x00];

    // The ClientHello reaches the engine, which asks for a forwarded flow.
    let act = state.apply_datagram_event(DatagramEvent::NewForward {
        client,
        upstream: Some(upstream),
        initial_payload: hello.clone(),
    });
    let (c, u, p) = match act {
        RecvAction::BindUpstream { client, upstream, initial_payload } => {
            (client, upstream, initial_payload)
        }
        RecvAction::Continue => panic!("expected a bind request"),
    };
    assert_eq!((c, u), (client, upstream));
    assert_eq!(p, hello);

    // The process binds a socket and installs the flow.
    state.register_forward(c, u, p, 1500, 1, 1_000);
    assert!(state.forward_table.contains(client));
    assert_eq!(state.forward_table.pending_len(client), 1);
    let first = state.forward_table.pending_at(client, 0);
    assert_eq!(first.destination, upstream);
    assert_eq!(first.payload, hello);

    // Later datagrams from the same client go to the flow, never the engine.
    let follow = vec![1, 2, 3];
    assert!(matches!(state.route_segment(client, follow.clone()), RouteOutcome::Forwarded));
    assert_eq!(state.forward_table.pending_len(client), 2);
    let second = state.forward_table.pending_at(client, 1);
    assert_eq!(second.destination, upstream);
    assert_eq!(second.payload, follow);

    // A reply from the upstream peer is relayed to the client address.
    assert!(state.upstream_recv_segment(client, vec![9, 9]));
    assert_eq!(state.outgoing_len(), 1);
    let relayed = state.outgoing_at(0);
    assert_eq!(relayed.destination, client);
    assert_eq!(relayed.payload, vec![9, 9]);
}

#[test]
fn forwarded_datagrams_keep_arrival_order() {
    let mut state = fresh_server();
    let client = v4(203, 0, 113, 9, 50000);
    let upstream = v4(198, 51, 100, 9, 443);
    state.register_forward(client, upstream, vec![0], 1500, 1, 0);
    state.route_segment(client, vec![1]);
    state.route_segment(client, vec![2]);
    state.route_segment(client, vec![3]);
    assert_eq!(state.forward_table.pending_len(client), 4);
    for k in 0..4 {
        assert_eq!(state.forward_table.pending_at(client, k).payload, vec![k as u8]);
    }
}

#[test]
fn new_forward_without_upstream_is_discarded() {
    let mut state = fresh_server();
    let client = v4(203, 0, 113, 9, 50000);
    let act = state.apply_datagram_event(DatagramEvent::NewForward {
        client,
        upstream: None,
        initial_payload: vec![1],
    });
    assert!(matches!(act, RecvAction::Continue));
    assert!(!state.forward_table.contains(client));
}

#[test]
fn rebind_pings_every_connection() {
    let mut state = fresh_server();
    state.connect_register(1);
    state.connect_register(2);

    state.rebind(true);
    assert!(state.ipv6);

    for h in [1usize, 2usize] {
        let events = state.connections.take_events(h);
        assert_eq!(events.len(), 1);
        assert!(matches!(events[0], ConnectionEvent::Ping));
    }
}

#[test]
fn close_cascade_reaches_existing_and_new_channels() {
    let mut state = fresh_server();
    state.connect_register(1);
    state.connect_register(2);

    state.close(7, &b"bye".to_vec());

    // Every existing channel got the Close.
    for h in [1usize, 2usize] {
        let events = state.connections.take_events(h);
        assert_eq!(events.len(), 1);
        match &events[0] {
            ConnectionEvent::Close { error_code, reason } => {
                assert_eq!(*error_code, 7);
                assert_eq!(reason, b"bye");
            }
            _ => panic!("expected a Close event"),
        }
    }

    // A channel created afterwards inherits it as its first event.
    state.connect_register(3);
    let events = state.connections.take_events(3);
    assert_eq!(events.len(), 1);
    match &events[0] {
        ConnectionEvent::Close { error_code, reason } => {
            assert_eq!(*error_code, 7);
            assert_eq!(reason, b"bye");
        }
        _ => panic!("expected a Close event"),
    }

    // After a manual close, accept reports that no more connections come.
    assert_eq!(state.accept(), AcceptPoll::Finished);
}

#[test]
fn accept_resolves_to_none_once_driver_lost() {
    let mut state = fresh_server();
    state.apply_datagram_event(DatagramEvent::NewConnection { handle: 5 });
    state.driver_shutdown();
    // Even with an unclaimed connection queued, a lost driver ends accept.
    assert_eq!(state.accept(), AcceptPoll::Finished);
}

#[test]
fn driver_stays_until_connections_drain() {
    let mut state = fresh_server();
    state.handle_cloned();
    assert_eq!(state.ref_count, 1);
    state.apply_datagram_event(DatagramEvent::NewConnection { handle: 4 });

    // The last API handle goes while a connection remains: keep driving.
    let wake = state.handle_dropped();
    assert!(!wake); // no waker was installed yet
    assert_eq!(state.ref_count, 0);
    assert!(!state.driver_poll_outcome().terminate);

    // The connection drains: the pump reports idle and the driver terminates.
    let step = state.handle_event(4, EndpointEvent::Proto { token: 11, drained: true });
    assert_eq!(step, EventStep::Engine { token: 11, notify_idle: true });
    assert!(state.is_empty());
    assert!(state.driver_poll_outcome().terminate);
}

#[test]
fn last_handle_drop_takes_installed_waker() {
    let mut state = fresh_server();
    state.handle_cloned();
    state.driver_install_waker();
    assert!(state.handle_dropped());
    assert!(!state.driver_waker);
    // A second drop finds nothing to wake.
    assert!(!state.handle_dropped());
}

#[test]
fn event_pump_routes_proto_and_transmit() {
    let mut state = fresh_server();
    state.connect_register(8);

    // A non-drained protocol event leaves the registry alone.
    let step = state.handle_event(8, EndpointEvent::Proto { token: 3, drained: false });
    assert_eq!(step, EventStep::Engine { token: 3, notify_idle: false });
    assert!(state.connections.find(8).is_some());

    // The engine's follow-up lands on the connection's channel.
    state.deliver_follow_up(8, 42);
    let events = state.connections.take_events(8);
    assert_eq!(events.len(), 1);
    assert!(matches!(events[0], ConnectionEvent::Proto(42)));

    // A worker transmit is queued without admission control.
    state.max_queue_bytes = 1;
    let t = Transmit {
        destination: v4(198, 51, 100, 1, 443),
        payload: vec![0u8; 500],
        ecn: None,
        segment_size: None,
        src_ip: None,
    };
    let step = state.handle_event(8, EndpointEvent::Transmit(t));
    assert_eq!(step, EventStep::Queued);
    assert_eq!(state.outgoing_len(), 1);
    assert_eq!(state.outgoing_bytes, 500);
}

#[test]
fn wait_idle_tracks_registry() {
    let mut state = fresh_server();
    assert!(state.is_empty());
    state.connect_register(1);
    assert!(!state.is_empty());
    state.handle_event(1, EndpointEvent::Proto { token: 0, drained: true });
    assert!(state.is_empty());
}

#[test]
fn idle_forward_entries_are_swept() {
    let mut state = fresh_server();
    let client = v4(203, 0, 113, 2, 1234);
    let upstream = v4(198, 51, 100, 2, 443);
    state.register_forward(client, upstream, vec![1], 1500, 1, 0);

    // Exactly thirty seconds of idleness is not yet over the limit.
    let removed = state.forward_table.sweep_expired(30_000_000_000);
    assert!(removed.is_empty());
    assert!(state.forward_table.contains(client));

    // One nanosecond more and the entry goes, reported for socket teardown.
    let removed = state.forward_table.sweep_expired(30_000_000_001);
    assert_eq!(removed.len(), 1);
    assert_eq!(removed[0], client);
    assert!(!state.forward_table.contains(client));
}

#[test]
fn activity_defers_forward_eviction() {
    let mut state = fresh_server();
    let client = v4(203, 0, 113, 2, 1234);
    let upstream = v4(198, 51, 100, 2, 443);
    state.register_forward(client, upstream, vec![1], 1500, 1, 0);

    // The pending datagram is written at t=25s; activity is refreshed.
    state.forward_table.drain_pending(client, 1, 25_000_000_000);
    let removed = state.forward_table.sweep_expired(31_000_000_000);
    assert!(removed.is_empty());
    assert!(state.forward_table.contains(client));
    assert_eq!(state.forward_table.pending_len(client), 0);
}

#[test]
fn unknown_source_is_offered_to_engine_unchanged() {
    let mut state = fresh_server();
    let stranger = v4(203, 0, 113, 77, 7777);
    let payload = vec![0xde, 0xad, 0xbe, 0xef];
    match state.route_segment(stranger, payload.clone()) {
        RouteOutcome::Engine(p) => assert_eq!(p, payload),
        RouteOutcome::Forwarded => panic!("no flow exists for this source"),
    }
    // Routing alone changes nothing: the table stays empty and nothing was
    // queued, so the engine sees each segment exactly once, by this path.
    assert_eq!(state.forward_table.len(), 0);
    assert_eq!(state.outgoing_len(), 0);
}
