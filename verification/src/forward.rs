//! The forwarding table: per-flow records that relay selected packet flows to
//! an upstream UDP peer.
//!
//! Entries are keyed by the client's remote address. Each entry owns a queue
//! of datagrams bound for the upstream peer, the size of the scratch buffer
//! its upstream socket reads into, and the monotonic reading of its last
//! activity; entries idle for more than the timeout are evicted. The upstream
//! socket itself is owned by the surrounding process, which keeps it alongside
//! the same key.

use vstd::prelude::*;
use crate::addr::SockAddr;
use crate::transmit::Transmit;
use crate::IDLE_TIMEOUT_NANOS;

verus! {

/// One forwarded flow.
#[derive(Debug)]
pub struct ForwardEntry {
    /// The upstream peer datagrams of this flow are relayed to.
    pub upstream_peer: SockAddr,
    /// Datagrams waiting to be written to the upstream socket, in order.
    pub pending: Vec<Transmit>,
    /// Size of the scratch buffer for batched reads from the upstream socket.
    pub recv_buf_len: usize,
    /// Monotonic reading of the last send or receive on this flow.
    pub last_activity: u64,
}

/// Nanoseconds since the entry's last activity at reading `now`; zero if the
/// clock reads earlier.
pub open spec fn entry_elapsed(e: ForwardEntry, now: u64) -> nat {
    if now >= e.last_activity {
        (now - e.last_activity) as nat
    } else {
        0
    }
}

/// Whether the entry has been idle for longer than the idle timeout.
pub open spec fn expired(e: ForwardEntry, now: u64) -> bool {
    entry_elapsed(e, now) > IDLE_TIMEOUT_NANOS
}

/// A keyed slot of the forwarding table.
#[derive(Debug)]
pub struct ForwardSlot {
    pub client: SockAddr,
    pub entry: ForwardEntry,
}

/// Forwarded flows indexed by the client's remote address.
#[derive(Debug)]
pub struct ForwardTable {
    pub slots: Vec<ForwardSlot>,
}

impl ForwardTable {
    /// Client addresses are unique: each flow has exactly one entry.
    pub open spec fn wf(self) -> bool {
        forall|i: int, j: int|
            0 <= i < j < self.slots@.len()
                ==> (#[trigger] self.slots@[i]).client != (#[trigger] self.slots@[j]).client
    }

    /// Whether a flow from client address `a` is present.
    pub open spec fn spec_contains(self, a: SockAddr) -> bool {
        exists|i: int| 0 <= i < self.slots@.len() && (#[trigger] self.slots@[i]).client == a
    }

    /// The position of the entry for client address `a`.
    pub open spec fn spec_index_of(self, a: SockAddr) -> int {
        choose|i: int| 0 <= i < self.slots@.len() && (#[trigger] self.slots@[i]).client == a
    }

    /// The entry for client address `a`.
    pub open spec fn entry_of(self, a: SockAddr) -> ForwardEntry {
        self.slots@[self.spec_index_of(a)].entry
    }

    /// In a well-formed table, the slot at position `i` is the one that
    /// `spec_index_of` finds for its client address.
    pub proof fn lemma_at(self, i: int)
        requires
            self.wf(),
            0 <= i < self.slots@.len(),
        ensures
            self.spec_contains(self.slots@[i].client),
            self.spec_index_of(self.slots@[i].client) == i,
    {
        let a = self.slots@[i].client;
        assert(self.spec_contains(a));
        let j = self.spec_index_of(a);
        assert(0 <= j < self.slots@.len() && self.slots@[j].client == a);
        if i != j {
            if i < j {
                assert(self.slots@[i].client != self.slots@[j].client);
            } else {
                assert(self.slots@[j].client != self.slots@[i].client);
            }
        }
    }

    /// After replacing the slot at `i` without changing its key, containment
    /// is unchanged, every other entry is unchanged, and the entry under the
    /// key at `i` is the new one.
    proof fn lemma_update_frame(self, pre: ForwardTable, i: int)
        requires
            pre.wf(),
            0 <= i < pre.slots@.len(),
            self.slots@ == pre.slots@.update(i, self.slots@[i]),
            self.slots@[i].client == pre.slots@[i].client,
        ensures
            self.wf(),
            forall|a: SockAddr| #[trigger] self.spec_contains(a) == pre.spec_contains(a),
            forall|a: SockAddr|
                a != pre.slots@[i].client && pre.spec_contains(a)
                    ==> #[trigger] self.entry_of(a) == pre.entry_of(a),
            self.entry_of(pre.slots@[i].client) == self.slots@[i].entry,
    {
        assert forall|x: int, y: int|
            0 <= x < y < self.slots@.len() implies (#[trigger] self.slots@[x]).client
            != (#[trigger] self.slots@[y]).client by {
            assert(pre.slots@[x].client != pre.slots@[y].client);
            assert(self.slots@[x].client == pre.slots@[x].client);
            assert(self.slots@[y].client == pre.slots@[y].client);
        }
        assert forall|a: SockAddr| #[trigger] self.spec_contains(a) == pre.spec_contains(a) by {
            if self.spec_contains(a) {
                let j = self.spec_index_of(a);
                self.lemma_at(j);
                assert(pre.slots@[j].client == a);
                pre.lemma_at(j);
            }
            if pre.spec_contains(a) {
                let j = pre.spec_index_of(a);
                assert(0 <= j < pre.slots@.len() && pre.slots@[j].client == a);
                assert(self.slots@[j].client == a);
                assert(self.spec_contains(a));
            }
        }
        assert forall|a: SockAddr|
            a != pre.slots@[i].client && pre.spec_contains(a) implies #[trigger] self.entry_of(a)
            == pre.entry_of(a) by {
            let j = pre.spec_index_of(a);
            assert(0 <= j < pre.slots@.len() && pre.slots@[j].client == a);
            pre.lemma_at(j);
            assert(j != i);
            assert(self.slots@[j].client == a);
            self.lemma_at(j);
        }
        self.lemma_at(i);
    }

    /// A fresh, empty table.
    pub fn new() -> (r: Self)
        ensures
            r.wf(),
            r.slots@.len() == 0,
            forall|a: SockAddr| !r.spec_contains(a),
    {
        ForwardTable { slots: Vec::new() }
    }

    /// The position of the entry for client address `a`, if present.
    fn find(&self, a: SockAddr) -> (r: Option<usize>)
        ensures
            match r {
                Some(i) => 0 <= i < self.slots@.len() && self.slots@[i as int].client == a,
                None => !self.spec_contains(a),
            },
    {
        let mut i: usize = 0;
        while i < self.slots.len()
            invariant
                i <= self.slots@.len(),
                forall|j: int| 0 <= j < i ==> (#[trigger] self.slots@[j]).client != a,
            decreases self.slots@.len() - i,
        {
            if self.slots[i].client == a {
                return Some(i);
            }
            i = i + 1;
        }
        None
    }

    /// Whether a flow from client address `a` is present.
    pub fn contains(&self, a: SockAddr) -> (r: bool)
        ensures
            r == self.spec_contains(a),
    {
        match self.find(a) {
            Some(i) => {
                proof {
                    assert(self.spec_contains(a));
                }
                true
            },
            None => false,
        }
    }

    /// Number of flows in the table.
    pub fn len(&self) -> (n: usize)
        ensures
            n == self.slots@.len(),
    {
        self.slots.len()
    }

    /// The client address of the flow at position `i`.
    pub fn client_at(&self, i: usize) -> (a: SockAddr)
        requires
            i < self.slots@.len(),
        ensures
            a == self.slots@[i as int].client,
            self.wf() ==> self.spec_contains(a) && self.entry_of(a) == self.slots@[i as int].entry,
    {
        proof {
            if self.wf() {
                self.lemma_at(i as int);
            }
        }
        self.slots[i].client
    }

    /// The upstream peer of the flow from client address `a`.
    pub fn peer_of(&self, a: SockAddr) -> (p: SockAddr)
        requires
            self.wf(),
            self.spec_contains(a),
        ensures
            p == self.entry_of(a).upstream_peer,
    {
        let i = self.find(a).unwrap();
        proof {
            self.lemma_at(i as int);
        }
        self.slots[i].entry.upstream_peer
    }

    /// The scratch-buffer size of the flow from client address `a`.
    pub fn recv_buf_len_of(&self, a: SockAddr) -> (n: usize)
        requires
            self.wf(),
            self.spec_contains(a),
        ensures
            n == self.entry_of(a).recv_buf_len,
    {
        let i = self.find(a).unwrap();
        proof {
            self.lemma_at(i as int);
        }
        self.slots[i].entry.recv_buf_len
    }

    /// Number of datagrams pending toward the upstream peer of flow `a`.
    pub fn pending_len(&self, a: SockAddr) -> (n: usize)
        requires
            self.wf(),
            self.spec_contains(a),
        ensures
            n == self.entry_of(a).pending@.len(),
    {
        let i = self.find(a).unwrap();
        proof {
            self.lemma_at(i as int);
        }
        self.slots[i].entry.pending.len()
    }

    /// The `k`-th pending datagram of flow `a`.
    pub fn pending_at(&self, a: SockAddr, k: usize) -> (t: &Transmit)
        requires
            self.wf(),
            self.spec_contains(a),
            k < self.entry_of(a).pending@.len(),
        ensures
            *t == self.entry_of(a).pending@[k as int],
    {
        let i = self.find(a).unwrap();
        proof {
            self.lemma_at(i as int);
        }
        &self.slots[i].entry.pending[k]
    }

    /// Install an entry for client address `a`, replacing any previous entry
    /// under the same key.
    pub fn insert(&mut self, a: SockAddr, entry: ForwardEntry)
        requires
            old(self).wf(),
        ensures
            final(self).wf(),
            final(self).spec_contains(a),
            final(self).entry_of(a) == entry,
            forall|a2: SockAddr|
                #[trigger] final(self).spec_contains(a2)
                    == (old(self).spec_contains(a2) || a2 == a),
            forall|a2: SockAddr|
                a2 != a && old(self).spec_contains(a2)
                    ==> #[trigger] final(self).entry_of(a2) == old(self).entry_of(a2),
    {
        let ghost pre = *self;
        let found = self.find(a);
        match found {
            Some(i) => {
                let mut slot = self.slots.remove(i);
                slot.entry = entry;
                self.slots.insert(i, slot);
                proof {
                    assert(self.slots@ =~= pre.slots@.update(i as int, self.slots@[i as int]));
                    self.lemma_update_frame(pre, i as int);
                }
            },
            None => {
                self.slots.push(ForwardSlot { client: a, entry });
                proof {
                    let ghost n = pre.slots@.len() as int;
                    assert(self.slots@ =~= pre.slots@.push(self.slots@[n]));
                    assert(self.slots@[n].client == a);
                    assert forall|x: int, y: int|
                        0 <= x < y < self.slots@.len() implies (#[trigger] self.slots@[x]).client
                        != (#[trigger] self.slots@[y]).client by {
                        if y < n {
                            assert(pre.slots@[x].client != pre.slots@[y].client);
                        } else {
                            assert(self.slots@[y].client == a);
                            assert(pre.slots@[x].client != a);
                        }
                    }
                    assert forall|a2: SockAddr| #[trigger] self.spec_contains(a2)
                        == (pre.spec_contains(a2) || a2 == a) by {
                        if self.spec_contains(a2) {
                            let j = self.spec_index_of(a2);
                            self.lemma_at(j);
                            if j < n {
                                pre.lemma_at(j);
                            } else {
                                assert(a2 == a);
                            }
                        }
                        if pre.spec_contains(a2) {
                            let j = pre.spec_index_of(a2);
                            assert(0 <= j < pre.slots@.len() && pre.slots@[j].client == a2);
                            assert(self.slots@[j].client == a2);
                            assert(self.spec_contains(a2));
                        }
                        if a2 == a {
                            assert(self.spec_contains(a2));
                        }
                    }
                    assert forall|a2: SockAddr|
                        a2 != a && pre.spec_contains(a2) implies #[trigger] self.entry_of(a2)
                        == pre.entry_of(a2) by {
                        let j = pre.spec_index_of(a2);
                        assert(0 <= j < pre.slots@.len() && pre.slots@[j].client == a2);
                        pre.lemma_at(j);
                        assert(self.slots@[j].client == a2);
                        self.lemma_at(j);
                    }
                    self.lemma_at(n);
                }
            },
        }
    }

    /// Drop the entry for client address `a`, if present.
    pub fn remove(&mut self, a: SockAddr)
        requires
            old(self).wf(),
        ensures
            final(self).wf(),
            !final(self).spec_contains(a),
            forall|a2: SockAddr|
                a2 != a ==> #[trigger] final(self).spec_contains(a2)
                    == old(self).spec_contains(a2),
            forall|a2: SockAddr|
                a2 != a && old(self).spec_contains(a2)
                    ==> #[trigger] final(self).entry_of(a2) == old(self).entry_of(a2),
            final(self).slots@.len()
                == old(self).slots@.len() - (if old(self).spec_contains(a) { 1int } else { 0 }),
    {
        let ghost pre = *self;
        let found = self.find(a);
        match found {
            Some(i) => {
                self.slots.remove(i);
                proof {
                    pre.lemma_at(i as int);
                    assert(self.slots@ =~= pre.slots@.remove(i as int));
                    assert forall|x: int, y: int|
                        0 <= x < y < self.slots@.len() implies (#[trigger] self.slots@[x]).client
                        != (#[trigger] self.slots@[y]).client by {
                        let px = if x < i { x } else { x + 1 };
                        let py = if y < i { y } else { y + 1 };
                        assert(self.slots@[x] == pre.slots@[px]);
                        assert(self.slots@[y] == pre.slots@[py]);
                        assert(pre.slots@[px].client != pre.slots@[py].client);
                    }
                    assert forall|a2: SockAddr| #[trigger] self.spec_contains(a2) implies a2 != a
                        && pre.spec_contains(a2) by {
                        let j = self.spec_index_of(a2);
                        self.lemma_at(j);
                        let pj = if j < i { j } else { j + 1 };
                        assert(self.slots@[j] == pre.slots@[pj]);
                        pre.lemma_at(pj);
                        assert(pj != i);
                    }
                    assert forall|a2: SockAddr|
                        a2 != a && pre.spec_contains(a2) implies #[trigger] self.spec_contains(
                        a2,
                    ) by {
                        let pj = pre.spec_index_of(a2);
                        assert(0 <= pj < pre.slots@.len() && pre.slots@[pj].client == a2);
                        pre.lemma_at(pj);
                        assert(pj != i);
                        let j = if pj < i { pj } else { pj - 1 };
                        assert(self.slots@[j] == pre.slots@[pj]);
                        self.lemma_at(j);
                    }
                    assert forall|a2: SockAddr|
                        a2 != a && pre.spec_contains(a2) implies #[trigger] self.entry_of(a2)
                        == pre.entry_of(a2) by {
                        let pj = pre.spec_index_of(a2);
                        assert(0 <= pj < pre.slots@.len() && pre.slots@[pj].client == a2);
                        pre.lemma_at(pj);
                        assert(pj != i);
                        let j = if pj < i { pj } else { pj - 1 };
                        assert(self.slots@[j] == pre.slots@[pj]);
                        self.lemma_at(j);
                    }
                }
            },
            None => {},
        }
    }

    /// Append a datagram to the pending queue of flow `a`.
    pub fn push_pending(&mut self, a: SockAddr, t: Transmit)
        requires
            old(self).wf(),
            old(self).spec_contains(a),
        ensures
            final(self).wf(),
            forall|a2: SockAddr|
                #[trigger] final(self).spec_contains(a2) == old(self).spec_contains(a2),
            final(self).entry_of(a).pending@ == old(self).entry_of(a).pending@.push(t),
            final(self).entry_of(a).upstream_peer == old(self).entry_of(a).upstream_peer,
            final(self).entry_of(a).recv_buf_len == old(self).entry_of(a).recv_buf_len,
            final(self).entry_of(a).last_activity == old(self).entry_of(a).last_activity,
            forall|a2: SockAddr|
                a2 != a && old(self).spec_contains(a2)
                    ==> #[trigger] final(self).entry_of(a2) == old(self).entry_of(a2),
    {
        let ghost pre = *self;
        let i = self.find(a).unwrap();
        proof {
            pre.lemma_at(i as int);
        }
        let mut slot = self.slots.remove(i);
        slot.entry.pending.push(t);
        self.slots.insert(i, slot);
        proof {
            assert(self.slots@ =~= pre.slots@.update(i as int, self.slots@[i as int]));
            self.lemma_update_frame(pre, i as int);
        }
    }

    /// Drop the first `n` pending datagrams of flow `a` — they have been
    /// written to the upstream socket — and record the activity.
    pub fn drain_pending(&mut self, a: SockAddr, n: usize, now: u64)
        requires
            old(self).wf(),
            old(self).spec_contains(a),
            n <= old(self).entry_of(a).pending@.len(),
        ensures
            final(self).wf(),
            forall|a2: SockAddr|
                #[trigger] final(self).spec_contains(a2) == old(self).spec_contains(a2),
            final(self).entry_of(a).pending@ == old(self).entry_of(a).pending@.skip(n as int),
            final(self).entry_of(a).upstream_peer == old(self).entry_of(a).upstream_peer,
            final(self).entry_of(a).recv_buf_len == old(self).entry_of(a).recv_buf_len,
            final(self).entry_of(a).last_activity == now,
            forall|a2: SockAddr|
                a2 != a && old(self).spec_contains(a2)
                    ==> #[trigger] final(self).entry_of(a2) == old(self).entry_of(a2),
    {
        let ghost pre = *self;
        let i = self.find(a).unwrap();
        proof {
            pre.lemma_at(i as int);
        }
        let mut slot = self.slots.remove(i);
        let ghost pending0 = slot.entry.pending@;
        let mut k: usize = 0;
        while k < n
            invariant
                k <= n,
                n <= pending0.len(),
                pending0 == pre.slots@[i as int].entry.pending@,
                slot.client == pre.slots@[i as int].client,
                slot.entry.upstream_peer == pre.slots@[i as int].entry.upstream_peer,
                slot.entry.recv_buf_len == pre.slots@[i as int].entry.recv_buf_len,
                slot.entry.pending@ == pending0.skip(k as int),
            decreases n - k,
        {
            slot.entry.pending.remove(0);
            k = k + 1;
            proof {
                assert(pending0.skip(k - 1).drop_first() =~= pending0.skip(k as int));
            }
        }
        slot.entry.last_activity = now;
        self.slots.insert(i, slot);
        proof {
            assert(self.slots@ =~= pre.slots@.update(i as int, self.slots@[i as int]));
            self.lemma_update_frame(pre, i as int);
        }
    }

    /// Record activity on flow `a` at reading `now`.
    pub fn touch(&mut self, a: SockAddr, now: u64)
        requires
            old(self).wf(),
            old(self).spec_contains(a),
        ensures
            final(self).wf(),
            forall|a2: SockAddr|
                #[trigger] final(self).spec_contains(a2) == old(self).spec_contains(a2),
            final(self).entry_of(a).pending@ == old(self).entry_of(a).pending@,
            final(self).entry_of(a).upstream_peer == old(self).entry_of(a).upstream_peer,
            final(self).entry_of(a).recv_buf_len == old(self).entry_of(a).recv_buf_len,
            final(self).entry_of(a).last_activity == now,
            forall|a2: SockAddr|
                a2 != a && old(self).spec_contains(a2)
                    ==> #[trigger] final(self).entry_of(a2) == old(self).entry_of(a2),
    {
        let ghost pre = *self;
        let i = self.find(a).unwrap();
        proof {
            pre.lemma_at(i as int);
        }
        let mut slot = self.slots.remove(i);
        slot.entry.last_activity = now;
        self.slots.insert(i, slot);
        proof {
            assert(self.slots@ =~= pre.slots@.update(i as int, self.slots@[i as int]));
            self.lemma_update_frame(pre, i as int);
        }
    }

    /// Whether flow `a` has been idle for longer than the idle timeout at
    /// reading `now`.
    pub fn is_expired(&self, a: SockAddr, now: u64) -> (r: bool)
        requires
            self.wf(),
            self.spec_contains(a),
        ensures
            r == expired(self.entry_of(a), now),
    {
        let i = self.find(a).unwrap();
        proof {
            self.lemma_at(i as int);
        }
        let last = self.slots[i].entry.last_activity;
        let elapsed: u64 = if now >= last { now - last } else { 0 };
        elapsed > IDLE_TIMEOUT_NANOS
    }

    /// Evict every flow that has been idle for longer than the idle timeout
    /// at reading `now`, returning the client addresses of the evicted flows
    /// so their sockets can be dropped.
    pub fn sweep_expired(&mut self, now: u64) -> (removed: Vec<SockAddr>)
        requires
            old(self).wf(),
        ensures
            final(self).wf(),
            forall|a: SockAddr|
                #[trigger] final(self).spec_contains(a)
                    == (old(self).spec_contains(a) && !expired(old(self).entry_of(a), now)),
            forall|a: SockAddr|
                final(self).spec_contains(a)
                    ==> #[trigger] final(self).entry_of(a) == old(self).entry_of(a),
            forall|a: SockAddr|
                removed@.contains(a)
                    == (old(self).spec_contains(a) && expired(old(self).entry_of(a), now)),
    {
        let ghost pre = *self;
        let mut removed: Vec<SockAddr> = Vec::new();
        let mut i: usize = 0;
        while i < self.slots.len()
            invariant
                *self == pre,
                pre.wf(),
                i <= pre.slots@.len(),
                forall|j: int|
                    0 <= j < removed@.len()
                        ==> pre.spec_contains(#[trigger] removed@[j])
                            && expired(pre.entry_of(removed@[j]), now),
                forall|ii: int|
                    0 <= ii < i && expired((#[trigger] pre.slots@[ii]).entry, now)
                        ==> removed@.contains(pre.slots@[ii].client),
            decreases self.slots@.len() - i,
        {
            let a = self.client_at(i);
            if self.is_expired(a, now) {
                let ghost r0 = removed@;
                removed.push(a);
                proof {
                    pre.lemma_at(i as int);
                    assert(removed@ == r0.push(a));
                    assert forall|ii: int|
                        0 <= ii < i + 1 && expired((#[trigger] pre.slots@[ii]).entry, now)
                        implies removed@.contains(pre.slots@[ii].client) by {
                        if ii < i {
                            assert(r0.contains(pre.slots@[ii].client));
                            let w = choose|w: int|
                                0 <= w < r0.len() && #[trigger] r0[w] == pre.slots@[ii].client;
                            assert(removed@[w] == pre.slots@[ii].client);
                        } else {
                            assert(removed@[removed@.len() - 1] == pre.slots@[ii].client);
                        }
                    }
                }
            } else {
                proof {
                    pre.lemma_at(i as int);
                }
            }
            i = i + 1;
        }
        proof {
            assert forall|a: SockAddr| #[trigger] removed@.contains(a)
                == (pre.spec_contains(a) && expired(pre.entry_of(a), now)) by {
                if removed@.contains(a) {
                    let w = choose|w: int| 0 <= w < removed@.len() && removed@[w] == a;
                    assert(pre.spec_contains(removed@[w]));
                }
                if pre.spec_contains(a) && expired(pre.entry_of(a), now) {
                    let j = pre.spec_index_of(a);
                    assert(0 <= j < pre.slots@.len() && pre.slots@[j].client == a);
                    assert(expired(pre.slots@[j].entry, now));
                }
            }
        }
        let mut k: usize = 0;
        while k < removed.len()
            invariant
                k <= removed@.len(),
                pre.wf(),
                self.wf(),
                forall|a: SockAddr|
                    #[trigger] self.spec_contains(a)
                        == (pre.spec_contains(a) && !removed@.take(k as int).contains(a)),
                forall|a: SockAddr|
                    self.spec_contains(a) ==> #[trigger] self.entry_of(a) == pre.entry_of(a),
            decreases removed@.len() - k,
        {
            let a = removed[k];
            let ghost mid = *self;
            self.remove(a);
            k = k + 1;
            proof {
                assert(removed@.take(k as int) =~= removed@.take(k - 1).push(a));
                assert forall|a2: SockAddr| #[trigger] self.spec_contains(a2)
                    == (pre.spec_contains(a2) && !removed@.take(k as int).contains(a2)) by {
                    if a2 == a {
                        assert(removed@.take(k as int)[k - 1] == a);
                        assert(removed@.take(k as int).contains(a));
                    } else {
                        assert(self.spec_contains(a2) == mid.spec_contains(a2));
                        assert(removed@.take(k as int).contains(a2) == removed@.take(
                            k - 1,
                        ).contains(a2)) by {
                            if removed@.take(k as int).contains(a2) {
                                let w = choose|w: int|
                                    0 <= w < removed@.take(k as int).len()
                                        && #[trigger] removed@.take(k as int)[w] == a2;
                                assert(removed@.take(k - 1)[w] == a2);
                            }
                            if removed@.take(k - 1).contains(a2) {
                                let w = choose|w: int|
                                    0 <= w < removed@.take(k - 1).len()
                                        && #[trigger] removed@.take(k - 1)[w] == a2;
                                assert(removed@.take(k as int)[w] == a2);
                            }
                        }
                    }
                }
            }
        }
        proof {
            assert(removed@.take(removed@.len() as int) =~= removed@);
        }
        removed
    }
}

} // verus!
