//! Unit tests of the endpoint's building blocks.

use quic_endpoint::addr::{ensure_ipv6, IpAddress, SockAddr};
use quic_endpoint::event::ConnectionEvent;
use quic_endpoint::forward::{ForwardEntry, ForwardTable};
use quic_endpoint::limiter::WorkLimiter;
use quic_endpoint::registry::ConnectionSet;
use quic_endpoint::segments::split_segments;
use quic_endpoint::state::recv_buffer_len;
use quic_endpoint::transmit::upstream_udp_transmit;

fn v4(a: u8, b: u8, c: u8, d: u8, port: u16) -> SockAddr {
    let ip = ((a as u32) << 24) | ((b as u32) << 16) | ((c as u32) << 8) | (d as u32);
    SockAddr { ip: IpAddress::V4(ip), port }
}

#[test]
fn ensure_ipv6_maps_v4() {
    let mapped = ensure_ipv6(v4(192, 0, 2, 1, 443));
    assert_eq!(mapped.port, 443);
    assert_eq!(mapped.ip, IpAddress::V6(0x0000_ffff_c000_0201));
}

#[test]
fn ensure_ipv6_keeps_v6() {
    let addr = SockAddr { ip: IpAddress::V6(0x2001_0db8u128 << 96), port: 8443 };
    assert_eq!(ensure_ipv6(addr), addr);
}

#[test]
fn recv_buffer_len_formula() {
    // Under the cap: payload size times coalescing factor times batch size.
    assert_eq!(recv_buffer_len(1500, 4), 1500 * 4 * 32);
    // Over the cap: the per-datagram size is clamped to 64 KiB.
    assert_eq!(recv_buffer_len(100_000, 2), 65536 * 2 * 32);
}

#[test]
fn split_segments_peels_by_stride() {
    let data: Vec<u8> = (1..=10).collect();
    let segs = split_segments(&data, 4);
    assert_eq!(segs.len(), 3);
    assert_eq!(segs[0], vec![1, 2, 3, 4]);
    assert_eq!(segs[1], vec![5, 6, 7, 8]);
    assert_eq!(segs[2], vec![9, 10]);
}

#[test]
fn split_segments_edge_cases() {
    assert!(split_segments(&Vec::new(), 3).is_empty());
    // A stride beyond the buffer yields a single short segment.
    let segs = split_segments(&vec![7, 8], 1200);
    assert_eq!(segs.len(), 1);
    assert_eq!(segs[0], vec![7, 8]);
    // A stride of one peels byte by byte.
    let segs = split_segments(&vec![5, 6], 1);
    assert_eq!(segs.len(), 2);
    assert_eq!(segs[0], vec![5]);
    assert_eq!(segs[1], vec![6]);
}

#[test]
fn upstream_transmit_shape() {
    let peer = v4(198, 51, 100, 9, 443);
    let t = upstream_udp_transmit(peer, vec![1, 2, 3]);
    assert_eq!(t.destination, peer);
    assert_eq!(t.payload, vec![1, 2, 3]);
    assert!(t.ecn.is_none());
    assert!(t.segment_size.is_none());
    assert!(t.src_ip.is_none());
}

#[test]
fn work_limiter_budget_edge() {
    let mut limiter = WorkLimiter::new(50_000);
    limiter.start_cycle(1_000);
    // With no history the estimate is zero: allowed up to the exact budget.
    assert!(limiter.allow_work(51_000));
    assert!(!limiter.allow_work(51_001));
    // A clock reading earlier than the cycle start counts as no elapsed time.
    assert!(limiter.allow_work(0));
    limiter.record_work(10);
    limiter.finish_cycle(2_000);
    // 1000 ns for 10 units is 100 ns each; blended one part in eight: 12.
    assert_eq!(limiter.per_item_estimate, 12);

    // The estimate now leaves headroom for one more unit.
    limiter.start_cycle(0);
    assert!(limiter.allow_work(49_988));
    assert!(!limiter.allow_work(49_989));
}

#[test]
fn work_limiter_idle_cycle_keeps_estimate() {
    let mut limiter = WorkLimiter::new(50_000);
    limiter.start_cycle(0);
    limiter.record_work(4);
    limiter.finish_cycle(400);
    let estimate = limiter.per_item_estimate;
    limiter.start_cycle(500);
    limiter.finish_cycle(900);
    assert_eq!(limiter.per_item_estimate, estimate);
}

#[test]
fn registry_insert_remove_close() {
    let mut set = ConnectionSet::new();
    assert!(set.is_empty());
    set.insert(10);
    set.insert(11);
    assert!(!set.is_empty());
    assert!(set.find(10).is_some());

    set.remove(10);
    assert!(set.find(10).is_none());
    assert!(set.find(11).is_some());
    // Removing an absent handle is harmless.
    set.remove(10);

    set.broadcast_close(3, &b"done".to_vec());
    let events = set.take_events(11);
    assert_eq!(events.len(), 1);
    match &events[0] {
        ConnectionEvent::Close { error_code, reason } => {
            assert_eq!(*error_code, 3);
            assert_eq!(reason, b"done");
        }
        _ => panic!("expected a Close event"),
    }
    // The queue was handed over; the channel is empty again.
    assert!(set.take_events(11).is_empty());
}

#[test]
fn registry_reinsert_resets_channel() {
    let mut set = ConnectionSet::new();
    set.insert(5);
    set.broadcast_ping();
    // Re-registering the same handle replaces the channel with a fresh one.
    set.insert(5);
    assert!(set.take_events(5).is_empty());
}

#[test]
fn forward_table_keys_are_replaced() {
    let mut table = ForwardTable::new();
    let client = v4(203, 0, 113, 1, 1111);
    table.insert(client, ForwardEntry {
        upstream_peer: v4(198, 51, 100, 1, 443),
        pending: Vec::new(),
        recv_buf_len: 64,
        last_activity: 5,
    });
    table.insert(client, ForwardEntry {
        upstream_peer: v4(198, 51, 100, 2, 443),
        pending: Vec::new(),
        recv_buf_len: 128,
        last_activity: 9,
    });
    assert_eq!(table.len(), 1);
    assert_eq!(table.peer_of(client), v4(198, 51, 100, 2, 443));
    assert_eq!(table.recv_buf_len_of(client), 128);

    table.remove(client);
    assert!(!table.contains(client));
}

#[test]
fn forward_sweep_only_hits_idle_entries() {
    let mut table = ForwardTable::new();
    let fresh = v4(203, 0, 113, 1, 1111);
    let stale = v4(203, 0, 113, 2, 2222);
    table.insert(fresh, ForwardEntry {
        upstream_peer: v4(198, 51, 100, 1, 443),
        pending: Vec::new(),
        recv_buf_len: 64,
        last_activity: 40_000_000_000,
    });
    table.insert(stale, ForwardEntry {
        upstream_peer: v4(198, 51, 100, 2, 443),
        pending: Vec::new(),
        recv_buf_len: 64,
        last_activity: 0,
    });

    let removed = table.sweep_expired(40_000_000_001);
    assert_eq!(removed.len(), 1);
    assert_eq!(removed[0], stale);
    assert!(table.contains(fresh));
    assert!(!table.contains(stale));
}

#[test]
fn forward_touch_refreshes_activity() {
    let mut table = ForwardTable::new();
    let client = v4(203, 0, 113, 3, 3333);
    table.insert(client, ForwardEntry {
        upstream_peer: v4(198, 51, 100, 3, 443),
        pending: Vec::new(),
        recv_buf_len: 64,
        last_activity: 0,
    });
    assert!(table.is_expired(client, 31_000_000_000));
    table.touch(client, 31_000_000_000);
    assert!(!table.is_expired(client, 31_000_000_000));
    assert!(table.sweep_expired(31_000_000_000).is_empty());
}
