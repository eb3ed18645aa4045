//! Outgoing datagram descriptions and the arithmetic over queues of them.
//!
//! `sum_payload_lens` is the mathematical meaning of the endpoint's
//! `outgoing_bytes` counter; `max_payload_len` bounds the one-transmit
//! overshoot that admission control permits.

use vstd::prelude::*;
use crate::addr::{IpAddress, SockAddr};

verus! {

/// Explicit congestion notification codepoint carried on a datagram.
#[derive(Clone, Copy, Debug, PartialEq, Eq, Structural)]
pub enum EcnCodepoint {
    Ect0,
    Ect1,
    Ce,
}

/// One outgoing UDP datagram: destination, payload, and optional ECN marking,
/// segment size and source IP.
#[derive(Clone, Debug)]
pub struct Transmit {
    pub destination: SockAddr,
    pub payload: Vec<u8>,
    pub ecn: Option<EcnCodepoint>,
    pub segment_size: Option<usize>,
    pub src_ip: Option<IpAddress>,
}

/// Sum of the payload lengths of a queue of transmits.
pub open spec fn sum_payload_lens(q: Seq<Transmit>) -> nat
    decreases q.len(),
{
    if q.len() == 0 {
        0
    } else {
        q[0].payload@.len() + sum_payload_lens(q.drop_first())
    }
}

/// Length of the largest payload in a queue of transmits; zero for an empty
/// queue.
pub open spec fn max_payload_len(q: Seq<Transmit>) -> nat
    decreases q.len(),
{
    if q.len() == 0 {
        0
    } else if q[0].payload@.len() >= max_payload_len(q.drop_first()) {
        q[0].payload@.len()
    } else {
        max_payload_len(q.drop_first())
    }
}

/// Appending a transmit adds exactly its payload length to the queue's sum.
pub proof fn lemma_sum_push(q: Seq<Transmit>, t: Transmit)
    ensures
        sum_payload_lens(q.push(t)) == sum_payload_lens(q) + t.payload@.len(),
    decreases q.len(),
{
    assert(q.push(t)[0] == if q.len() == 0 { t } else { q[0] });
    if q.len() == 0 {
        assert(q.push(t).drop_first() =~= Seq::<Transmit>::empty());
        assert(sum_payload_lens(q.push(t)) == q.push(t)[0].payload@.len()
            + sum_payload_lens(q.push(t).drop_first()));
    } else {
        assert(q.push(t).drop_first() =~= q.drop_first().push(t));
        lemma_sum_push(q.drop_first(), t);
    }
}

/// Appending a transmit leaves the largest payload length at least what it
/// was, and no larger than the maximum of the old value and the new payload.
pub proof fn lemma_max_push(q: Seq<Transmit>, t: Transmit)
    ensures
        max_payload_len(q.push(t)) >= max_payload_len(q),
        max_payload_len(q.push(t)) >= t.payload@.len(),
    decreases q.len(),
{
    if q.len() == 0 {
        assert(q.push(t).drop_first() =~= Seq::<Transmit>::empty());
    } else {
        assert(q.push(t).drop_first() =~= q.drop_first().push(t));
        lemma_max_push(q.drop_first(), t);
    }
}

/// Dropping the front transmit subtracts exactly its payload length from the
/// queue's sum.
pub proof fn lemma_sum_drop_first(q: Seq<Transmit>)
    requires
        q.len() > 0,
    ensures
        sum_payload_lens(q.drop_first()) == sum_payload_lens(q) - q[0].payload@.len(),
{
}

/// The bound `sum <= cap + max` over a queue survives dropping the front
/// transmit: either the front was the largest payload and the rest sums to at
/// most `cap`, or the largest payload is still present.
pub proof fn lemma_admission_bound_drop_first(q: Seq<Transmit>, cap: nat)
    requires
        q.len() > 0,
        sum_payload_lens(q) <= cap + max_payload_len(q),
    ensures
        sum_payload_lens(q.drop_first()) <= cap + max_payload_len(q.drop_first()),
{
}

/// Build the transmit that carries a datagram toward an upstream peer: the
/// payload unchanged, no ECN marking, no segmentation, no pinned source.
pub fn upstream_udp_transmit(addr: SockAddr, data: Vec<u8>) -> (t: Transmit)
    ensures
        t.destination == addr,
        t.payload@ == data@,
        t.ecn is None,
        t.segment_size is None,
        t.src_ip is None,
{
    Transmit {
        destination: addr,
        payload: data,
        ecn: None,
        segment_size: None,
        src_ip: None,
    }
}

/// Copy a byte buffer.
pub fn copy_bytes(v: &Vec<u8>) -> (r: Vec<u8>)
    ensures
        r@ == v@,
{
    let mut r: Vec<u8> = Vec::new();
    let mut i: usize = 0;
    while i < v.len()
        invariant
            i <= v.len(),
            r@ == v@.take(i as int),
        decreases v.len() - i,
    {
        r.push(v[i]);
        i = i + 1;
        assert(r@ =~= v@.take(i as int));
    }
    assert(r@ =~= v@);
    r
}

} // verus!
