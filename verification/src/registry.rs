//! The connection registry: one outbound event channel per registered
//! connection, plus the closure bookkeeping.
//!
//! Channels are modelled as the queue of events the endpoint has put on them
//! and the surrounding process has not yet handed to the worker; the process
//! drains a queue with `take_events` and performs the actual sends. Once a
//! close has been recorded, every freshly inserted connection receives that
//! Close as the first event on its new channel.

use vstd::prelude::*;
use crate::event::{is_close_event, ConnectionEvent};
use crate::transmit::copy_bytes;

verus! {

/// The error code and reason recorded by a manual close.
#[derive(Clone, Debug)]
pub struct CloseReason {
    pub error_code: u64,
    pub reason: Vec<u8>,
}

/// One registered connection: its protocol handle and the queue of events
/// bound for its worker.
#[derive(Clone, Debug)]
pub struct ConnChannel {
    pub handle: usize,
    pub queue: Vec<ConnectionEvent>,
}

/// Connections indexed by protocol handle, with the recorded close, if any.
#[derive(Clone, Debug)]
pub struct ConnectionSet {
    pub senders: Vec<ConnChannel>,
    pub close: Option<CloseReason>,
}

impl ConnectionSet {
    /// Handles are unique: each connection has exactly one channel.
    pub open spec fn wf(self) -> bool {
        forall|i: int, j: int|
            0 <= i < j < self.senders@.len()
                ==> (#[trigger] self.senders@[i]).handle != (#[trigger] self.senders@[j]).handle
    }

    /// Whether a connection with handle `h` is registered.
    pub open spec fn spec_contains(self, h: usize) -> bool {
        exists|i: int|
            0 <= i < self.senders@.len() && (#[trigger] self.senders@[i]).handle == h
    }

    /// The position of the channel for handle `h`.
    pub open spec fn spec_index_of(self, h: usize) -> int {
        choose|i: int| 0 <= i < self.senders@.len() && (#[trigger] self.senders@[i]).handle == h
    }

    /// The queue of events on the channel for handle `h`.
    pub open spec fn channel_of(self, h: usize) -> Seq<ConnectionEvent> {
        self.senders@[self.spec_index_of(h)].queue@
    }

    /// In a well-formed set, the channel at position `i` is the one that
    /// `spec_index_of` finds for its handle.
    pub proof fn lemma_at(self, i: int)
        requires
            self.wf(),
            0 <= i < self.senders@.len(),
        ensures
            self.spec_contains(self.senders@[i].handle),
            self.spec_index_of(self.senders@[i].handle) == i,
    {
        let h = self.senders@[i].handle;
        assert(self.spec_contains(h));
        let j = self.spec_index_of(h);
        assert(0 <= j < self.senders@.len() && self.senders@[j].handle == h);
        if i != j {
            if i < j {
                assert(self.senders@[i].handle != self.senders@[j].handle);
            } else {
                assert(self.senders@[j].handle != self.senders@[i].handle);
            }
        }
    }

    /// A fresh, empty registry with no close recorded.
    pub fn new() -> (r: Self)
        ensures
            r.wf(),
            r.senders@.len() == 0,
            r.close is None,
    {
        ConnectionSet { senders: Vec::new(), close: None }
    }

    /// The position of the channel for handle `h`, if it is registered.
    pub fn find(&self, h: usize) -> (r: Option<usize>)
        ensures
            match r {
                Some(i) => 0 <= i < self.senders@.len() && self.senders@[i as int].handle == h,
                None => !self.spec_contains(h),
            },
    {
        let mut i: usize = 0;
        while i < self.senders.len()
            invariant
                i <= self.senders@.len(),
                forall|j: int| 0 <= j < i ==> (#[trigger] self.senders@[j]).handle != h,
            decreases self.senders@.len() - i,
        {
            if self.senders[i].handle == h {
                return Some(i);
            }
            i = i + 1;
        }
        None
    }

    /// Whether no connections are registered.
    pub fn is_empty(&self) -> (r: bool)
        ensures
            r == (self.senders@.len() == 0),
    {
        self.senders.len() == 0
    }

    /// Register a connection under handle `h` with a fresh channel, replacing
    /// any previous registration of the same handle. If a close has been
    /// recorded, the first event on the new channel is that Close; otherwise
    /// the channel starts empty.
    pub fn insert(&mut self, h: usize)
        requires
            old(self).wf(),
        ensures
            final(self).wf(),
            final(self).close == old(self).close,
            final(self).spec_contains(h),
            forall|h2: usize|
                #[trigger] final(self).spec_contains(h2)
                    == (old(self).spec_contains(h2) || h2 == h),
            forall|h2: usize|
                h2 != h && old(self).spec_contains(h2)
                    ==> #[trigger] final(self).channel_of(h2) == old(self).channel_of(h2),
            match old(self).close {
                Some(cr) => final(self).channel_of(h).len() == 1
                    && is_close_event(final(self).channel_of(h)[0], cr.error_code, cr.reason@),
                None => final(self).channel_of(h).len() == 0,
            },
    {
        let ghost pre = *self;
        let mut q: Vec<ConnectionEvent> = Vec::new();
        if let Some(cr) = &self.close {
            q.push(ConnectionEvent::Close {
                error_code: cr.error_code,
                reason: copy_bytes(&cr.reason),
            });
        }
        let ghost qv = q@;
        let found = self.find(h);
        match found {
            Some(i) => {
                self.senders.set(i, ConnChannel { handle: h, queue: q });
                proof {
                    assert(self.senders@ =~= pre.senders@.update(i as int, ConnChannel {
                        handle: h,
                        queue: q,
                    }));
                    assert forall|a: int, b: int|
                        0 <= a < b < self.senders@.len() implies (#[trigger] self.senders@[a]).handle
                        != (#[trigger] self.senders@[b]).handle by {
                        assert(pre.senders@[a].handle != pre.senders@[b].handle);
                        assert(self.senders@[a].handle == pre.senders@[a].handle);
                        assert(self.senders@[b].handle == pre.senders@[b].handle);
                    }
                    assert forall|h2: usize| #[trigger] self.spec_contains(h2)
                        == (pre.spec_contains(h2) || h2 == h) by {
                        if self.spec_contains(h2) {
                            let j = self.spec_index_of(h2);
                            self.lemma_at(j);
                            assert(pre.senders@[j].handle == if j == i { h } else { h2 });
                            if j != i {
                                pre.lemma_at(j);
                            }
                        }
                        if pre.spec_contains(h2) {
                            let j = pre.spec_index_of(h2);
                            assert(0 <= j < pre.senders@.len() && pre.senders@[j].handle == h2);
                            if j == i {
                                assert(h2 == h);
                            } else {
                                assert(self.senders@[j].handle == h2);
                                assert(self.spec_contains(h2));
                            }
                        }
                        if h2 == h {
                            assert(self.senders@[i as int].handle == h);
                            assert(self.spec_contains(h2));
                        }
                    }
                    assert forall|h2: usize|
                        h2 != h && pre.spec_contains(h2) implies #[trigger] self.channel_of(h2)
                        == pre.channel_of(h2) by {
                        let j = pre.spec_index_of(h2);
                        assert(0 <= j < pre.senders@.len() && pre.senders@[j].handle == h2);
                        pre.lemma_at(j);
                        assert(j != i);
                        assert(self.senders@[j].handle == h2);
                        self.lemma_at(j);
                    }
                    self.lemma_at(i as int);
                    assert(self.channel_of(h) == qv);
                }
            },
            None => {
                self.senders.push(ConnChannel { handle: h, queue: q });
                proof {
                    let ghost n = pre.senders@.len() as int;
                    assert(self.senders@ =~= pre.senders@.push(ConnChannel {
                        handle: h,
                        queue: q,
                    }));
                    assert(self.senders@[n].handle == h);
                    assert forall|a: int, b: int|
                        0 <= a < b < self.senders@.len() implies (#[trigger] self.senders@[a]).handle
                        != (#[trigger] self.senders@[b]).handle by {
                        if b < n {
                            assert(pre.senders@[a].handle != pre.senders@[b].handle);
                        } else {
                            assert(self.senders@[b].handle == h);
                            assert(pre.senders@[a].handle != h);
                        }
                    }
                    assert forall|h2: usize| #[trigger] self.spec_contains(h2)
                        == (pre.spec_contains(h2) || h2 == h) by {
                        if self.spec_contains(h2) {
                            let j = self.spec_index_of(h2);
                            self.lemma_at(j);
                            if j < n {
                                pre.lemma_at(j);
                            } else {
                                assert(h2 == h);
                            }
                        }
                        if pre.spec_contains(h2) {
                            let j = pre.spec_index_of(h2);
                            assert(0 <= j < pre.senders@.len() && pre.senders@[j].handle == h2);
                            assert(self.senders@[j].handle == h2);
                            assert(self.spec_contains(h2));
                        }
                        if h2 == h {
                            assert(self.spec_contains(h2));
                        }
                    }
                    assert forall|h2: usize|
                        h2 != h && pre.spec_contains(h2) implies #[trigger] self.channel_of(h2)
                        == pre.channel_of(h2) by {
                        let j = pre.spec_index_of(h2);
                        assert(0 <= j < pre.senders@.len() && pre.senders@[j].handle == h2);
                        pre.lemma_at(j);
                        assert(self.senders@[j].handle == h2);
                        self.lemma_at(j);
                    }
                    self.lemma_at(n);
                    assert(self.channel_of(h) == qv);
                }
            },
        }
    }

    /// Unregister the connection with handle `h`, dropping its channel; a
    /// handle that is not registered leaves the set unchanged.
    pub fn remove(&mut self, h: usize)
        requires
            old(self).wf(),
        ensures
            final(self).wf(),
            final(self).close == old(self).close,
            !final(self).spec_contains(h),
            forall|h2: usize|
                h2 != h ==> #[trigger] final(self).spec_contains(h2)
                    == old(self).spec_contains(h2),
            forall|h2: usize|
                h2 != h && old(self).spec_contains(h2)
                    ==> #[trigger] final(self).channel_of(h2) == old(self).channel_of(h2),
            final(self).senders@.len()
                == old(self).senders@.len() - (if old(self).spec_contains(h) { 1int } else { 0 }),
    {
        let ghost pre = *self;
        let found = self.find(h);
        match found {
            Some(i) => {
                self.senders.remove(i);
                proof {
                    pre.lemma_at(i as int);
                    assert(self.senders@ =~= pre.senders@.remove(i as int));
                    assert forall|a: int, b: int|
                        0 <= a < b < self.senders@.len() implies (#[trigger] self.senders@[a]).handle
                        != (#[trigger] self.senders@[b]).handle by {
                        let pa = if a < i { a } else { a + 1 };
                        let pb = if b < i { b } else { b + 1 };
                        assert(self.senders@[a] == pre.senders@[pa]);
                        assert(self.senders@[b] == pre.senders@[pb]);
                        assert(pre.senders@[pa].handle != pre.senders@[pb].handle);
                    }
                    assert forall|h2: usize| #[trigger] self.spec_contains(h2) implies h2 != h
                        && pre.spec_contains(h2) by {
                        let j = self.spec_index_of(h2);
                        self.lemma_at(j);
                        let pj = if j < i { j } else { j + 1 };
                        assert(self.senders@[j] == pre.senders@[pj]);
                        pre.lemma_at(pj);
                        assert(pj != i);
                    }
                    assert forall|h2: usize|
                        h2 != h && pre.spec_contains(h2) implies #[trigger] self.spec_contains(
                        h2,
                    ) by {
                        let pj = pre.spec_index_of(h2);
                        assert(0 <= pj < pre.senders@.len() && pre.senders@[pj].handle == h2);
                        pre.lemma_at(pj);
                        assert(pj != i);
                        let j = if pj < i { pj } else { pj - 1 };
                        assert(self.senders@[j] == pre.senders@[pj]);
                        self.lemma_at(j);
                    }
                    assert forall|h2: usize|
                        h2 != h && pre.spec_contains(h2) implies #[trigger] self.channel_of(h2)
                        == pre.channel_of(h2) && self.spec_contains(h2) by {
                        let pj = pre.spec_index_of(h2);
                        assert(0 <= pj < pre.senders@.len() && pre.senders@[pj].handle == h2);
                        pre.lemma_at(pj);
                        assert(pj != i);
                        let j = if pj < i { pj } else { pj - 1 };
                        assert(self.senders@[j] == pre.senders@[pj]);
                        self.lemma_at(j);
                    }
                }
            },
            None => {
                proof {
                    assert forall|h2: usize|
                        h2 != h && pre.spec_contains(h2) implies #[trigger] self.channel_of(h2)
                        == pre.channel_of(h2) by {
                    }
                }
            },
        }
    }

    /// The events queued on the channel for handle `h`, handing them to the
    /// caller and leaving the channel empty.
    pub fn take_events(&mut self, h: usize) -> (evs: Vec<ConnectionEvent>)
        requires
            old(self).wf(),
            old(self).spec_contains(h),
        ensures
            final(self).wf(),
            final(self).close == old(self).close,
            evs@ == old(self).channel_of(h),
            final(self).channel_of(h).len() == 0,
            forall|h2: usize|
                #[trigger] final(self).spec_contains(h2) == old(self).spec_contains(h2),
            forall|h2: usize|
                h2 != h && old(self).spec_contains(h2)
                    ==> #[trigger] final(self).channel_of(h2) == old(self).channel_of(h2),
    {
        let ghost pre = *self;
        let found = self.find(h);
        match found {
            Some(i) => {
                let chan = self.senders.remove(i);
                self.senders.insert(i, ConnChannel { handle: h, queue: Vec::new() });
                proof {
                    pre.lemma_at(i as int);
                    assert(self.senders@ =~= pre.senders@.update(i as int, self.senders@[i as int]));
                    assert(self.senders@[i as int].handle == h
                        && self.senders@[i as int].queue@.len() == 0);
                    assert forall|a: int, b: int|
                        0 <= a < b < self.senders@.len() implies (#[trigger] self.senders@[a]).handle
                        != (#[trigger] self.senders@[b]).handle by {
                        assert(pre.senders@[a].handle != pre.senders@[b].handle);
                        assert(self.senders@[a].handle == pre.senders@[a].handle);
                        assert(self.senders@[b].handle == pre.senders@[b].handle);
                    }
                    assert forall|h2: usize| #[trigger] self.spec_contains(h2)
                        == pre.spec_contains(h2) by {
                        if self.spec_contains(h2) {
                            let j = self.spec_index_of(h2);
                            self.lemma_at(j);
                            assert(pre.senders@[j].handle == h2);
                            pre.lemma_at(j);
                        }
                        if pre.spec_contains(h2) {
                            let j = pre.spec_index_of(h2);
                            assert(0 <= j < pre.senders@.len() && pre.senders@[j].handle == h2);
                            assert(self.senders@[j].handle == h2);
                            assert(self.spec_contains(h2));
                        }
                    }
                    assert forall|h2: usize|
                        h2 != h && pre.spec_contains(h2) implies #[trigger] self.channel_of(h2)
                        == pre.channel_of(h2) by {
                        let j = pre.spec_index_of(h2);
                        assert(0 <= j < pre.senders@.len() && pre.senders@[j].handle == h2);
                        pre.lemma_at(j);
                        assert(j != i);
                        assert(self.senders@[j].handle == h2);
                        self.lemma_at(j);
                    }
                    self.lemma_at(i as int);
                    assert(pre.channel_of(h) == pre.senders@[i as int].queue@);
                }
                chan.queue
            },
            None => {
                proof {
                    assert(false);
                }
                Vec::new()
            },
        }
    }

    /// Record the close and put a Close event with its code and reason on
    /// every registered connection's channel.
    pub fn broadcast_close(&mut self, error_code: u64, reason: &Vec<u8>)
        requires
            old(self).wf(),
        ensures
            final(self).wf(),
            final(self).close matches Some(cr) && cr.error_code == error_code
                && cr.reason@ == reason@,
            forall|h2: usize|
                #[trigger] final(self).spec_contains(h2) == old(self).spec_contains(h2),
            forall|h2: usize|
                old(self).spec_contains(h2) ==> {
                    &&& (#[trigger] final(self).channel_of(h2)).len()
                        == old(self).channel_of(h2).len() + 1
                    &&& final(self).channel_of(h2).drop_last() == old(self).channel_of(h2)
                    &&& is_close_event(final(self).channel_of(h2).last(), error_code, reason@)
                },
    {
        let ghost pre = *self;
        self.close = Some(CloseReason { error_code, reason: copy_bytes(reason) });
        let mut done: Vec<ConnChannel> = Vec::new();
        while self.senders.len() > 0
            invariant
                self.close matches Some(cr) && cr.error_code == error_code
                    && cr.reason@ == reason@,
                done@.len() + self.senders@.len() == pre.senders@.len(),
                forall|j: int|
                    0 <= j < self.senders@.len()
                        ==> #[trigger] self.senders@[j] == pre.senders@[done@.len() + j],
                forall|j: int|
                    0 <= j < done@.len() ==> {
                        &&& (#[trigger] done@[j]).handle == pre.senders@[j].handle
                        &&& done@[j].queue@.len() == pre.senders@[j].queue@.len() + 1
                        &&& done@[j].queue@.drop_last() == pre.senders@[j].queue@
                        &&& is_close_event(done@[j].queue@.last(), error_code, reason@)
                    },
            decreases self.senders@.len(),
        {
            let mut chan = self.senders.remove(0);
            chan.queue.push(ConnectionEvent::Close {
                error_code,
                reason: copy_bytes(reason),
            });
            done.push(chan);
        }
        self.senders = done;
        proof {
            self.lemma_after_append(pre, error_code, reason@);
        }
    }

    /// Put a Ping event on every channel, waking every worker.
    pub fn broadcast_ping(&mut self)
        requires
            old(self).wf(),
        ensures
            final(self).wf(),
            final(self).close == old(self).close,
            forall|h2: usize|
                #[trigger] final(self).spec_contains(h2) == old(self).spec_contains(h2),
            forall|h2: usize|
                old(self).spec_contains(h2) ==> {
                    &&& (#[trigger] final(self).channel_of(h2)).len()
                        == old(self).channel_of(h2).len() + 1
                    &&& final(self).channel_of(h2).drop_last() == old(self).channel_of(h2)
                    &&& final(self).channel_of(h2).last() is Ping
                },
    {
        let ghost pre = *self;
        let mut done: Vec<ConnChannel> = Vec::new();
        while self.senders.len() > 0
            invariant
                self.close == pre.close,
                done@.len() + self.senders@.len() == pre.senders@.len(),
                forall|j: int|
                    0 <= j < self.senders@.len()
                        ==> #[trigger] self.senders@[j] == pre.senders@[done@.len() + j],
                forall|j: int|
                    0 <= j < done@.len() ==> {
                        &&& (#[trigger] done@[j]).handle == pre.senders@[j].handle
                        &&& done@[j].queue@.len() == pre.senders@[j].queue@.len() + 1
                        &&& done@[j].queue@.drop_last() == pre.senders@[j].queue@
                        &&& done@[j].queue@.last() is Ping
                    },
            decreases self.senders@.len(),
        {
            let mut chan = self.senders.remove(0);
            chan.queue.push(ConnectionEvent::Ping);
            done.push(chan);
        }
        self.senders = done;
        proof {
            self.lemma_after_ping(pre);
        }
    }

    /// After an elementwise rewrite that keeps every handle in place, the
    /// containment and per-handle channel facts follow from the per-index
    /// facts.
    proof fn lemma_after_append(self, pre: ConnectionSet, error_code: u64, reason: Seq<u8>)
        requires
            pre.wf(),
            self.senders@.len() == pre.senders@.len(),
            forall|j: int|
                0 <= j < self.senders@.len() ==> {
                    &&& (#[trigger] self.senders@[j]).handle == pre.senders@[j].handle
                    &&& self.senders@[j].queue@.len() == pre.senders@[j].queue@.len() + 1
                    &&& self.senders@[j].queue@.drop_last() == pre.senders@[j].queue@
                    &&& is_close_event(self.senders@[j].queue@.last(), error_code, reason)
                },
        ensures
            self.wf(),
            forall|h2: usize|
                #[trigger] self.spec_contains(h2) == pre.spec_contains(h2),
            forall|h2: usize|
                pre.spec_contains(h2) ==> {
                    &&& (#[trigger] self.channel_of(h2)).len() == pre.channel_of(h2).len() + 1
                    &&& self.channel_of(h2).drop_last() == pre.channel_of(h2)
                    &&& is_close_event(self.channel_of(h2).last(), error_code, reason)
                },
    {
        assert forall|a: int, b: int|
            0 <= a < b < self.senders@.len() implies (#[trigger] self.senders@[a]).handle
            != (#[trigger] self.senders@[b]).handle by {
            assert(pre.senders@[a].handle != pre.senders@[b].handle);
        }
        assert forall|h2: usize| #[trigger] self.spec_contains(h2) == pre.spec_contains(h2) by {
            if self.spec_contains(h2) {
                let j = self.spec_index_of(h2);
                self.lemma_at(j);
                assert(pre.senders@[j].handle == h2);
                pre.lemma_at(j);
            }
            if pre.spec_contains(h2) {
                let j = pre.spec_index_of(h2);
                assert(0 <= j < pre.senders@.len() && pre.senders@[j].handle == h2);
                assert(self.senders@[j].handle == h2);
                assert(self.spec_contains(h2));
            }
        }
        assert forall|h2: usize| pre.spec_contains(h2) implies {
            &&& (#[trigger] self.channel_of(h2)).len() == pre.channel_of(h2).len() + 1
            &&& self.channel_of(h2).drop_last() == pre.channel_of(h2)
            &&& is_close_event(self.channel_of(h2).last(), error_code, reason)
        } by {
            let j = pre.spec_index_of(h2);
            assert(0 <= j < pre.senders@.len() && pre.senders@[j].handle == h2);
            pre.lemma_at(j);
            assert(self.senders@[j].handle == h2);
            self.lemma_at(j);
        }
    }

    /// Counterpart of `lemma_after_append` for the Ping broadcast.
    proof fn lemma_after_ping(self, pre: ConnectionSet)
        requires
            pre.wf(),
            self.senders@.len() == pre.senders@.len(),
            forall|j: int|
                0 <= j < self.senders@.len() ==> {
                    &&& (#[trigger] self.senders@[j]).handle == pre.senders@[j].handle
                    &&& self.senders@[j].queue@.len() == pre.senders@[j].queue@.len() + 1
                    &&& self.senders@[j].queue@.drop_last() == pre.senders@[j].queue@
                    &&& self.senders@[j].queue@.last() is Ping
                },
        ensures
            self.wf(),
            forall|h2: usize|
                #[trigger] self.spec_contains(h2) == pre.spec_contains(h2),
            forall|h2: usize|
                pre.spec_contains(h2) ==> {
                    &&& (#[trigger] self.channel_of(h2)).len() == pre.channel_of(h2).len() + 1
                    &&& self.channel_of(h2).drop_last() == pre.channel_of(h2)
                    &&& self.channel_of(h2).last() is Ping
                },
    {
        assert forall|a: int, b: int|
            0 <= a < b < self.senders@.len() implies (#[trigger] self.senders@[a]).handle
            != (#[trigger] self.senders@[b]).handle by {
            assert(pre.senders@[a].handle != pre.senders@[b].handle);
        }
        assert forall|h2: usize| #[trigger] self.spec_contains(h2) == pre.spec_contains(h2) by {
            if self.spec_contains(h2) {
                let j = self.spec_index_of(h2);
                self.lemma_at(j);
                assert(pre.senders@[j].handle == h2);
                pre.lemma_at(j);
            }
            if pre.spec_contains(h2) {
                let j = pre.spec_index_of(h2);
                assert(0 <= j < pre.senders@.len() && pre.senders@[j].handle == h2);
                assert(self.senders@[j].handle == h2);
                assert(self.spec_contains(h2));
            }
        }
        assert forall|h2: usize| pre.spec_contains(h2) implies {
            &&& (#[trigger] self.channel_of(h2)).len() == pre.channel_of(h2).len() + 1
            &&& self.channel_of(h2).drop_last() == pre.channel_of(h2)
            &&& self.channel_of(h2).last() is Ping
        } by {
            let j = pre.spec_index_of(h2);
            assert(0 <= j < pre.senders@.len() && pre.senders@[j].handle == h2);
            pre.lemma_at(j);
            assert(self.senders@[j].handle == h2);
            self.lemma_at(j);
        }
    }

    /// Append a Proto event carrying `token` to the channel for handle `h`.
    pub fn send_proto(&mut self, h: usize, token: u64)
        requires
            old(self).wf(),
            old(self).spec_contains(h),
        ensures
            final(self).wf(),
            final(self).close == old(self).close,
            forall|h2: usize|
                #[trigger] final(self).spec_contains(h2) == old(self).spec_contains(h2),
            final(self).channel_of(h) == old(self).channel_of(h).push(
                ConnectionEvent::Proto(token),
            ),
            forall|h2: usize|
                h2 != h && old(self).spec_contains(h2)
                    ==> #[trigger] final(self).channel_of(h2) == old(self).channel_of(h2),
    {
        let ghost pre = *self;
        let found = self.find(h);
        match found {
            Some(i) => {
                let mut chan = self.senders.remove(i);
                chan.queue.push(ConnectionEvent::Proto(token));
                self.senders.insert(i, chan);
                proof {
                    pre.lemma_at(i as int);
                    assert(self.senders@ =~= pre.senders@.update(i as int, ConnChannel {
                        handle: h,
                        queue: self.senders@[i as int].queue,
                    }));
                    assert(self.senders@[i as int].queue@
                        == pre.senders@[i as int].queue@.push(ConnectionEvent::Proto(token)));
                    assert forall|a: int, b: int|
                        0 <= a < b < self.senders@.len() implies (#[trigger] self.senders@[a]).handle
                        != (#[trigger] self.senders@[b]).handle by {
                        assert(pre.senders@[a].handle != pre.senders@[b].handle);
                        assert(self.senders@[a].handle == pre.senders@[a].handle);
                        assert(self.senders@[b].handle == pre.senders@[b].handle);
                    }
                    assert forall|h2: usize| #[trigger] self.spec_contains(h2)
                        == pre.spec_contains(h2) by {
                        if self.spec_contains(h2) {
                            let j = self.spec_index_of(h2);
                            self.lemma_at(j);
                            assert(pre.senders@[j].handle == h2);
                            pre.lemma_at(j);
                        }
                        if pre.spec_contains(h2) {
                            let j = pre.spec_index_of(h2);
                            assert(0 <= j < pre.senders@.len() && pre.senders@[j].handle == h2);
                            assert(self.senders@[j].handle == h2);
                            assert(self.spec_contains(h2));
                        }
                    }
                    assert forall|h2: usize|
                        h2 != h && pre.spec_contains(h2) implies #[trigger] self.channel_of(h2)
                        == pre.channel_of(h2) by {
                        let j = pre.spec_index_of(h2);
                        assert(0 <= j < pre.senders@.len() && pre.senders@[j].handle == h2);
                        pre.lemma_at(j);
                        assert(j != i);
                        assert(self.senders@[j].handle == h2);
                        self.lemma_at(j);
                    }
                    self.lemma_at(i as int);
                }
            },
            None => {
                proof {
                    assert(false);
                }
            },
        }
    }

    /// Drop every channel, as the terminating driver does; the recorded close
    /// survives.
    pub fn clear(&mut self)
        ensures
            final(self).wf(),
            final(self).close == old(self).close,
            final(self).senders@.len() == 0,
            forall|h2: usize| !final(self).spec_contains(h2),
    {
        self.senders = Vec::new();
    }
}

} // verus!
