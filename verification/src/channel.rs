//! Per-room broadcast fan-out. A `RoomChannel` holds one bounded buffer per
//! subscribed connection; publishing appends the payload to every other
//! subscriber's buffer, dropping the oldest buffered payload when a slow
//! subscriber's buffer is full. Live delivery (the loop that drains a
//! subscriber's buffer into its transport) is the application's job.

use crate::assoc::{
    has_key, idx_of, lemma_key_at, lemma_push_new, lemma_remove_at, lemma_update_val, uniq_keys,
    value_of,
};
use vstd::prelude::*;
use vstd::std_specs::vec::vec_index_mut;

verus! {

/// How many payloads a subscriber may have buffered before the oldest is
/// dropped to make room.
pub const CHANNEL_CAPACITY: usize = 100;

/// One connection's place in a room channel: its identity and the payloads
/// broadcast by others that it has not yet drained.
pub struct Subscriber {
    pub conn_id: u64,
    pub queue: Vec<Vec<u8>>,
}

/// The payload bytes of a buffered queue.
pub open spec fn queue_view(q: Seq<Vec<u8>>) -> Seq<Seq<u8>> {
    q.map_values(|v: Vec<u8>| v@)
}

/// The association sequence a subscriber list denotes: connection id to
/// buffered payloads.
pub open spec fn sub_entries(ss: Seq<Subscriber>) -> Seq<(u64, Seq<Seq<u8>>)> {
    ss.map_values(|s: Subscriber| (s.conn_id, queue_view(s.queue@)))
}

/// Appending to a bounded buffer: when full, the oldest entry makes room.
pub open spec fn push_bounded(q: Seq<Seq<u8>>, p: Seq<u8>, cap: nat) -> Seq<Seq<u8>> {
    if q.len() < cap {
        q.push(p)
    } else {
        q.drop_first().push(p)
    }
}

/// The fan-out distribution point of one room, shared by all of the room's
/// connections.
pub struct RoomChannel {
    pub room_id: String,
    pub capacity: usize,
    pub subs: Vec<Subscriber>,
}

impl RoomChannel {
    /// Connection id to buffered payloads, for every subscriber.
    pub open spec fn queues(self) -> Seq<(u64, Seq<Seq<u8>>)> {
        sub_entries(self.subs@)
    }

    /// Well-formed: distinct subscriber ids, a positive bound, and no
    /// buffer beyond the bound.
    pub open spec fn wf(self) -> bool {
        &&& uniq_keys(self.queues())
        &&& self.capacity >= 1
        &&& forall|i: int|
            0 <= i < self.subs@.len() ==> (#[trigger] self.subs@[i]).queue@.len() <= self.capacity
    }

    /// Whether the connection is currently subscribed here.
    pub open spec fn subscribed(self, c: u64) -> bool {
        has_key(self.queues(), c)
    }

    /// The payloads buffered for a subscribed connection.
    pub open spec fn queue_of(self, c: u64) -> Seq<Seq<u8>> {
        value_of(self.queues(), c)
    }

    /// A fresh channel with no subscribers.
    pub fn new(room_id: String, capacity: usize) -> (r: Self)
        requires
            capacity >= 1,
        ensures
            r.wf(),
            r.room_id == room_id,
            r.capacity == capacity,
            r.queues().len() == 0,
            forall|c: u64| !r.subscribed(c),
    {
        let r = RoomChannel { room_id, capacity, subs: Vec::new() };
        proof {
            assert(r.queues().len() == 0);
        }
        r
    }

    /// The position of a subscriber, by connection id.
    fn find_sub(&self, conn_id: u64) -> (r: Option<usize>)
        ensures
            match r {
                Some(i) => i < self.subs@.len() && self.subs@[i as int].conn_id == conn_id,
                None => !self.subscribed(conn_id),
            },
    {
        let n = self.subs.len();
        let mut i: usize = 0;
        while i < n
            invariant
                n == self.subs@.len(),
                i <= n,
                forall|j: int| 0 <= j < i ==> (#[trigger] self.subs@[j]).conn_id != conn_id,
            decreases n - i,
        {
            if self.subs[i].conn_id == conn_id {
                return Some(i);
            }
            i = i + 1;
        }
        proof {
            assert forall|j: int| 0 <= j < self.queues().len() implies (#[trigger] self.queues()[j]).0
                != conn_id by {
                assert(self.queues()[j] == (self.subs@[j].conn_id, queue_view(self.subs@[j].queue@)));
            }
        }
        None
    }

    /// Whether the connection is currently subscribed.
    pub fn is_subscribed(&self, conn_id: u64) -> (r: bool)
        requires
            self.wf(),
        ensures
            r == self.subscribed(conn_id),
    {
        match self.find_sub(conn_id) {
            Some(i) => {
                proof {
                    lemma_key_at(self.queues(), conn_id, i as int);
                    assert(self.queues()[i as int] == (
                        self.subs@[i as int].conn_id,
                        queue_view(self.subs@[i as int].queue@),
                    ));
                }
                true
            },
            None => false,
        }
    }

    /// Adds the connection with an empty buffer; subscribing twice is a
    /// no-op.
    pub fn subscribe(&mut self, conn_id: u64)
        requires
            old(self).wf(),
        ensures
            final(self).wf(),
            final(self).room_id == old(self).room_id,
            final(self).capacity == old(self).capacity,
            final(self).subscribed(conn_id),
            old(self).subscribed(conn_id) ==> *final(self) == *old(self),
            !old(self).subscribed(conn_id) ==> final(self).queue_of(conn_id) == Seq::<
                Seq<u8>,
            >::empty(),
            forall|c: u64|
                c != conn_id ==> #[trigger] final(self).subscribed(c) == old(self).subscribed(c),
            forall|c: u64|
                c != conn_id && old(self).subscribed(c) ==> #[trigger] final(self).queue_of(c)
                    == old(self).queue_of(c),
    {
        match self.find_sub(conn_id) {
            Some(i) => {
                proof {
                    lemma_key_at(self.queues(), conn_id, i as int);
                }
            },
            None => {
                let ghost pre = self.queues();
                self.subs.push(Subscriber { conn_id, queue: Vec::new() });
                proof {
                    assert(self.queues() =~~= pre.push((conn_id, Seq::<Seq<u8>>::empty())));
                    lemma_push_new(pre, conn_id, Seq::<Seq<u8>>::empty());
                }
            },
        }
    }

    /// Removes the connection and its buffer; absent connections are left
    /// as they are.
    pub fn unsubscribe(&mut self, conn_id: u64)
        requires
            old(self).wf(),
        ensures
            final(self).wf(),
            final(self).room_id == old(self).room_id,
            final(self).capacity == old(self).capacity,
            !final(self).subscribed(conn_id),
            !old(self).subscribed(conn_id) ==> *final(self) == *old(self),
            forall|c: u64|
                c != conn_id ==> #[trigger] final(self).subscribed(c) == old(self).subscribed(c),
            forall|c: u64|
                c != conn_id && old(self).subscribed(c) ==> #[trigger] final(self).queue_of(c)
                    == old(self).queue_of(c),
    {
        match self.find_sub(conn_id) {
            Some(i) => {
                let ghost pre = self.queues();
                self.subs.remove(i);
                proof {
                    assert(self.queues() =~~= pre.remove(i as int));
                    lemma_remove_at(pre, i as int);
                }
            },
            None => {},
        }
    }

    /// Broadcasts a payload from `sender`: every other subscriber's buffer
    /// receives it (oldest dropped when the buffer is full); the sender's
    /// own buffer and the subscriber set are untouched.
    pub fn publish(&mut self, sender: u64, payload: &Vec<u8>)
        requires
            old(self).wf(),
        ensures
            final(self).wf(),
            final(self).room_id == old(self).room_id,
            final(self).capacity == old(self).capacity,
            forall|c: u64| #[trigger] final(self).subscribed(c) == old(self).subscribed(c),
            old(self).subscribed(sender) ==> final(self).queue_of(sender) == old(self).queue_of(
                sender,
            ),
            forall|c: u64|
                c != sender && old(self).subscribed(c) ==> #[trigger] final(self).queue_of(c)
                    == push_bounded(old(self).queue_of(c), payload@, old(self).capacity as nat),
    {
        let ghost g = *old(self);
        let cap = self.capacity;
        let n = self.subs.len();
        let mut i: usize = 0;
        while i < n
            invariant
                g.wf(),
                cap == g.capacity,
                n == g.subs@.len(),
                i <= n,
                self.capacity == g.capacity,
                self.room_id == g.room_id,
                self.subs@.len() == n,
                forall|j: int|
                    0 <= j < n ==> (#[trigger] self.subs@[j]).conn_id == g.subs@[j].conn_id,
                forall|j: int|
                    0 <= j < n ==> (#[trigger] self.subs@[j]).queue@.len() <= cap,
                forall|j: int|
                    i <= j < n ==> queue_view((#[trigger] self.subs@[j]).queue@) == queue_view(
                        g.subs@[j].queue@,
                    ),
                forall|j: int|
                    0 <= j < i && g.subs@[j].conn_id == sender ==> queue_view(
                        (#[trigger] self.subs@[j]).queue@,
                    ) == queue_view(g.subs@[j].queue@),
                forall|j: int|
                    0 <= j < i && g.subs@[j].conn_id != sender ==> queue_view(
                        (#[trigger] self.subs@[j]).queue@,
                    ) == push_bounded(queue_view(g.subs@[j].queue@), payload@, cap as nat),
            decreases n - i,
        {
            let ghost qpre = queue_view(self.subs@[i as int].queue@);
            let s = vec_index_mut(&mut self.subs, i);
            if s.conn_id != sender {
                if s.queue.len() >= cap {
                    let ghost qv = s.queue@;
                    s.queue.remove(0);
                    proof {
                        assert(queue_view(s.queue@) =~= qpre.drop_first());
                    }
                }
                let ghost qmid = queue_view(s.queue@);
                s.queue.push(payload.clone());
                proof {
                    assert(queue_view(s.queue@) =~= qmid.push(payload@));
                    assert(queue_view(s.queue@) == push_bounded(qpre, payload@, cap as nat));
                }
            }
            i = i + 1;
        }
        proof {
            assert(self.queues().len() == g.queues().len());
            assert forall|j: int| 0 <= j < n implies (#[trigger] self.queues()[j]).0
                == g.queues()[j].0 by {
                assert(self.queues()[j] == (self.subs@[j].conn_id, queue_view(self.subs@[j].queue@)));
                assert(g.queues()[j] == (g.subs@[j].conn_id, queue_view(g.subs@[j].queue@)));
            }
            assert forall|a: int, b: int| 0 <= a < b < self.queues().len() implies (
            #[trigger] self.queues()[a]).0 != (#[trigger] self.queues()[b]).0 by {
                assert(g.queues()[a].0 != g.queues()[b].0);
            }
            assert forall|c: u64| #[trigger] self.subscribed(c) == g.subscribed(c) by {
                if g.subscribed(c) {
                    let j = idx_of(g.queues(), c);
                    assert(0 <= j < g.queues().len() && g.queues()[j].0 == c);
                    assert(self.queues()[j].0 == c);
                    assert(self.subscribed(c));
                }
                if self.subscribed(c) {
                    let j = choose|j: int|
                        0 <= j < self.queues().len() && (#[trigger] self.queues()[j]).0 == c;
                    assert(g.queues()[j].0 == c);
                    assert(g.subscribed(c));
                }
            }
            if g.subscribed(sender) {
                let j = idx_of(g.queues(), sender);
                lemma_key_at(g.queues(), sender, j);
                assert(g.queues()[j] == (g.subs@[j].conn_id, queue_view(g.subs@[j].queue@)));
                assert(self.queues()[j] == (self.subs@[j].conn_id, queue_view(self.subs@[j].queue@)));
                lemma_key_at(self.queues(), sender, j);
            }
            assert forall|c: u64| c != sender && g.subscribed(c) implies #[trigger] self.queue_of(c)
                == push_bounded(g.queue_of(c), payload@, cap as nat) by {
                let j = idx_of(g.queues(), c);
                lemma_key_at(g.queues(), c, j);
                assert(g.queues()[j] == (g.subs@[j].conn_id, queue_view(g.subs@[j].queue@)));
                assert(self.queues()[j] == (self.subs@[j].conn_id, queue_view(self.subs@[j].queue@)));
                lemma_key_at(self.queues(), c, j);
                assert(g.subs@[j].conn_id == c);
            }
        }
    }

    /// Hands out the oldest buffered payload for the connection, if any.
    pub fn poll(&mut self, conn_id: u64) -> (r: Option<Vec<u8>>)
        requires
            old(self).wf(),
        ensures
            final(self).wf(),
            final(self).room_id == old(self).room_id,
            final(self).capacity == old(self).capacity,
            forall|c: u64| #[trigger] final(self).subscribed(c) == old(self).subscribed(c),
            !old(self).subscribed(conn_id) ==> r is None && *final(self) == *old(self),
            old(self).subscribed(conn_id) && old(self).queue_of(conn_id).len() == 0 ==> r is None
                && final(self).queue_of(conn_id) == old(self).queue_of(conn_id),
            old(self).subscribed(conn_id) && old(self).queue_of(conn_id).len() > 0 ==> {
                &&& r matches Some(p) && p@ == old(self).queue_of(conn_id)[0]
                &&& final(self).queue_of(conn_id) == old(self).queue_of(conn_id).drop_first()
            },
            forall|c: u64|
                c != conn_id && old(self).subscribed(c) ==> #[trigger] final(self).queue_of(c)
                    == old(self).queue_of(c),
    {
        match self.find_sub(conn_id) {
            Some(i) => {
                proof {
                    lemma_key_at(old(self).queues(), conn_id, i as int);
                    assert(old(self).queues()[i as int] == (
                        old(self).subs@[i as int].conn_id,
                        queue_view(old(self).subs@[i as int].queue@),
                    ));
                }
                let ghost pre = self.queues();
                let s = vec_index_mut(&mut self.subs, i);
                if s.queue.len() > 0 {
                    let ghost qv = queue_view(s.queue@);
                    let p = s.queue.remove(0);
                    proof {
                        assert(queue_view(s.queue@) =~= qv.drop_first());
                    }
                    let ghost post = (pre[i as int].0, queue_view(s.queue@));
                    proof {
                        assert(self.queues() =~~= pre.update(i as int, post));
                        lemma_update_val(pre, i as int, post.1);
                        lemma_key_at(self.queues(), conn_id, i as int);
                    }
                    Some(p)
                } else {
                    proof {
                        assert(self.subs@ =~= old(self).subs@);
                    }
                    None
                }
            },
            None => None,
        }
    }
}

} // verus!
