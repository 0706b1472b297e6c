//! The room registry: the single point of truth for rooms, their
//! participant counts, and their broadcast channels. Admission control
//! lives here: a connection enters a room only through `add_participant`,
//! which refuses to push a room past its capacity, and leaves through
//! `remove_participant`, which never drives the count below zero.

use crate::assoc::{
    has_key, idx_of, lemma_key_at, lemma_push_new, lemma_update_val, uniq_keys, value_of,
};
use crate::channel::{push_bounded, RoomChannel, CHANNEL_CAPACITY};
use crate::errors::{AppError, AppResult};
use vstd::prelude::*;
use vstd::std_specs::vec::vec_index_mut;

verus! {

/// One room: identity, display name, capacity, and the number of
/// participants currently admitted.
#[derive(Debug, Clone)]
pub struct Room {
    pub id: String,
    pub name: String,
    pub max_participants: u32,
    pub recording_enabled: bool,
    pub current_participants: u32,
}

impl Room {
    /// A field-for-field copy.
    pub fn snapshot(&self) -> (r: Room)
        ensures
            r == *self,
    {
        Room {
            id: self.id.clone(),
            name: self.name.clone(),
            max_participants: self.max_participants,
            recording_enabled: self.recording_enabled,
            current_participants: self.current_participants,
        }
    }
}

/// The association sequence a room list denotes: room id to room.
pub open spec fn room_entries(rs: Seq<Room>) -> Seq<(Seq<char>, Room)> {
    rs.map_values(|r: Room| (r.id@, r))
}

/// The association sequence a channel list denotes: room id to channel.
pub open spec fn stream_entries(cs: Seq<RoomChannel>) -> Seq<(Seq<char>, RoomChannel)> {
    cs.map_values(|c: RoomChannel| (c.room_id@, c))
}

/// How `publish` changes a registry: the rooms are untouched, the
/// target room's channel exists, every one of its subscribers except the
/// sender has the payload appended to its buffer (oldest dropped at the
/// bound), the sender's own buffer and the subscriber set are unchanged,
/// and every other room's channel is exactly what it was.
pub open spec fn publish_rel(
    pre: Rooms,
    post: Rooms,
    rid: Seq<char>,
    sender: u64,
    payload: Seq<u8>,
) -> bool {
    &&& post.rooms@ == pre.rooms@
    &&& post.has_stream(rid)
    &&& pre.has_stream(rid) ==> {
        &&& forall|c: u64| #[trigger]
            post.stream_at(rid).subscribed(c) == pre.stream_at(rid).subscribed(c)
        &&& pre.stream_at(rid).subscribed(sender) ==> post.stream_at(rid).queue_of(sender)
            == pre.stream_at(rid).queue_of(sender)
        &&& forall|c: u64|
            c != sender && pre.stream_at(rid).subscribed(c) ==> #[trigger] post.stream_at(
                rid,
            ).queue_of(c) == push_bounded(
                pre.stream_at(rid).queue_of(c),
                payload,
                CHANNEL_CAPACITY as nat,
            )
    }
    &&& !pre.has_stream(rid) ==> forall|c: u64| !#[trigger] post.stream_at(rid).subscribed(c)
    &&& forall|r2: Seq<char>| r2 != rid ==> #[trigger] post.has_stream(r2) == pre.has_stream(r2)
    &&& forall|r2: Seq<char>|
        r2 != rid && pre.has_stream(r2) ==> #[trigger] post.stream_at(r2) == pre.stream_at(r2)
}

/// The registry of rooms and of their lazily created fan-out channels.
pub struct Rooms {
    pub rooms: Vec<Room>,
    pub streams: Vec<RoomChannel>,
}

impl Rooms {
    /// Well-formed: room ids distinct, no room over capacity, channel ids
    /// distinct, every channel well-formed with the configured bound.
    pub open spec fn wf(self) -> bool {
        &&& uniq_keys(room_entries(self.rooms@))
        &&& forall|i: int|
            0 <= i < self.rooms@.len() ==> (#[trigger] self.rooms@[i]).current_participants
                <= self.rooms@[i].max_participants
        &&& uniq_keys(stream_entries(self.streams@))
        &&& forall|i: int|
            0 <= i < self.streams@.len() ==> (#[trigger] self.streams@[i]).wf()
                && self.streams@[i].capacity == CHANNEL_CAPACITY
    }

    /// Whether a room with this id exists.
    pub open spec fn has_room(self, rid: Seq<char>) -> bool {
        has_key(room_entries(self.rooms@), rid)
    }

    /// The room stored under this id.
    pub open spec fn room_at(self, rid: Seq<char>) -> Room {
        value_of(room_entries(self.rooms@), rid)
    }

    /// Whether a fan-out channel for this room exists yet.
    pub open spec fn has_stream(self, rid: Seq<char>) -> bool {
        has_key(stream_entries(self.streams@), rid)
    }

    /// The fan-out channel of this room.
    pub open spec fn stream_at(self, rid: Seq<char>) -> RoomChannel {
        value_of(stream_entries(self.streams@), rid)
    }

    /// An empty registry.
    pub fn new() -> (r: Self)
        ensures
            r.wf(),
            r.rooms@.len() == 0,
            r.streams@.len() == 0,
            forall|rid: Seq<char>| !r.has_room(rid),
            forall|rid: Seq<char>| !r.has_stream(rid),
    {
        let r = Rooms { rooms: Vec::new(), streams: Vec::new() };
        proof {
            assert(room_entries(r.rooms@).len() == 0);
            assert(stream_entries(r.streams@).len() == 0);
        }
        r
    }

    /// The position of a room, by id.
    fn find_room(&self, room_id: &String) -> (r: Option<usize>)
        ensures
            match r {
                Some(i) => i < self.rooms@.len() && self.rooms@[i as int].id@ == room_id@,
                None => !self.has_room(room_id@),
            },
    {
        let n = self.rooms.len();
        let mut i: usize = 0;
        while i < n
            invariant
                n == self.rooms@.len(),
                i <= n,
                forall|j: int| 0 <= j < i ==> (#[trigger] self.rooms@[j]).id@ != room_id@,
            decreases n - i,
        {
            if self.rooms[i].id == *room_id {
                return Some(i);
            }
            i = i + 1;
        }
        proof {
            let es = room_entries(self.rooms@);
            assert forall|j: int| 0 <= j < es.len() implies (#[trigger] es[j]).0 != room_id@ by {
                assert(es[j] == (self.rooms@[j].id@, self.rooms@[j]));
            }
        }
        None
    }

    /// The position of a channel, by room id.
    fn find_stream(&self, room_id: &String) -> (r: Option<usize>)
        ensures
            match r {
                Some(i) => i < self.streams@.len() && self.streams@[i as int].room_id@ == room_id@,
                None => !self.has_stream(room_id@),
            },
    {
        let n = self.streams.len();
        let mut i: usize = 0;
        while i < n
            invariant
                n == self.streams@.len(),
                i <= n,
                forall|j: int| 0 <= j < i ==> (#[trigger] self.streams@[j]).room_id@ != room_id@,
            decreases n - i,
        {
            if self.streams[i].room_id == *room_id {
                return Some(i);
            }
            i = i + 1;
        }
        proof {
            let es = stream_entries(self.streams@);
            assert forall|j: int| 0 <= j < es.len() implies (#[trigger] es[j]).0 != room_id@ by {
                assert(es[j] == (self.streams@[j].room_id@, self.streams@[j]));
            }
        }
        None
    }

    /// Creates a room with the given name and capacity, or returns the
    /// existing room unchanged: creation is idempotent and has no error
    /// path.
    pub fn create_room(&mut self, id: String, name: String, max_participants: u32) -> (r: AppResult<
        Room,
    >)
        requires
            old(self).wf(),
        ensures
            final(self).wf(),
            final(self).streams == old(self).streams,
            final(self).has_room(id@),
            r matches Ok(room) && room == final(self).room_at(id@),
            old(self).has_room(id@) ==> final(self).rooms@ == old(self).rooms@,
            !old(self).has_room(id@) ==> {
                &&& final(self).room_at(id@).id@ == id@
                &&& final(self).room_at(id@).name@ == name@
                &&& final(self).room_at(id@).max_participants == max_participants
                &&& final(self).room_at(id@).recording_enabled
                &&& final(self).room_at(id@).current_participants == 0
            },
            forall|rid: Seq<char>|
                rid != id@ ==> #[trigger] final(self).has_room(rid) == old(self).has_room(rid),
            forall|rid: Seq<char>|
                rid != id@ && old(self).has_room(rid) ==> #[trigger] final(self).room_at(rid)
                    == old(self).room_at(rid),
    {
        match self.find_room(&id) {
            Some(i) => {
                proof {
                    lemma_key_at(room_entries(self.rooms@), id@, i as int);
                    assert(room_entries(self.rooms@)[i as int] == (
                        self.rooms@[i as int].id@,
                        self.rooms@[i as int],
                    ));
                }
                Ok(self.rooms[i].snapshot())
            },
            None => {
                let room = Room {
                    id,
                    name,
                    max_participants,
                    recording_enabled: true,
                    current_participants: 0,
                };
                let snap = room.snapshot();
                let ghost groom = room;
                let ghost pre = room_entries(self.rooms@);
                self.rooms.push(room);
                proof {
                    assert(room_entries(self.rooms@) =~= pre.push((groom.id@, groom)));
                    lemma_push_new(pre, groom.id@, groom);
                }
                Ok(snap)
            },
        }
    }

    /// A point-in-time copy of every room.
    pub fn list_rooms(&self) -> (r: AppResult<Vec<Room>>)
        ensures
            r matches Ok(v) && v@ == self.rooms@,
    {
        let n = self.rooms.len();
        let mut out: Vec<Room> = Vec::new();
        let mut i: usize = 0;
        while i < n
            invariant
                n == self.rooms@.len(),
                i <= n,
                out@.len() == i,
                forall|j: int| 0 <= j < i ==> out@[j] == self.rooms@[j],
            decreases n - i,
        {
            out.push(self.rooms[i].snapshot());
            i = i + 1;
        }
        proof {
            assert(out@ =~= self.rooms@);
        }
        Ok(out)
    }

    /// The room stored under this id, or `NotFound` carrying the id.
    pub fn get_room(&self, room_id: &String) -> (r: AppResult<Room>)
        requires
            self.wf(),
        ensures
            self.has_room(room_id@) ==> (r matches Ok(room) && room == self.room_at(room_id@)),
            !self.has_room(room_id@) ==> (r matches Err(e) && e matches AppError::NotFound(m)
                && m@ == room_id@),
    {
        match self.find_room(room_id) {
            Some(i) => {
                proof {
                    lemma_key_at(room_entries(self.rooms@), room_id@, i as int);
                    assert(room_entries(self.rooms@)[i as int] == (
                        self.rooms@[i as int].id@,
                        self.rooms@[i as int],
                    ));
                }
                Ok(self.rooms[i].snapshot())
            },
            None => Err(AppError::NotFound(room_id.clone())),
        }
    }

    /// Admits one participant. Fails with `NotFound` when the room does
    /// not exist and with `TooManyConnections` when it is full; otherwise
    /// the count rises by exactly one and nothing else changes.
    pub fn add_participant(&mut self, room_id: &String) -> (r: AppResult<()>)
        requires
            old(self).wf(),
        ensures
            final(self).wf(),
            final(self).streams == old(self).streams,
            !old(self).has_room(room_id@) ==> final(self).rooms@ == old(self).rooms@ && (
            r matches Err(e) && e matches AppError::NotFound(m) && m@ == room_id@),
            old(self).has_room(room_id@) && old(self).room_at(room_id@).current_participants
                >= old(self).room_at(room_id@).max_participants ==> final(self).rooms@ == old(
                self,
            ).rooms@ && (r matches Err(e) && e matches AppError::TooManyConnections(m) && m@
                == room_id@),
            old(self).has_room(room_id@) && old(self).room_at(room_id@).current_participants < old(
                self,
            ).room_at(room_id@).max_participants ==> {
                &&& r is Ok
                &&& final(self).has_room(room_id@)
                &&& final(self).room_at(room_id@).current_participants == old(self).room_at(
                    room_id@,
                ).current_participants + 1
                &&& final(self).room_at(room_id@).id@ == old(self).room_at(room_id@).id@
                &&& final(self).room_at(room_id@).name@ == old(self).room_at(room_id@).name@
                &&& final(self).room_at(room_id@).max_participants == old(self).room_at(
                    room_id@,
                ).max_participants
                &&& final(self).room_at(room_id@).recording_enabled == old(self).room_at(
                    room_id@,
                ).recording_enabled
            },
            forall|rid: Seq<char>| #[trigger]
                final(self).has_room(rid) == old(self).has_room(rid),
            forall|rid: Seq<char>|
                rid != room_id@ && old(self).has_room(rid) ==> #[trigger] final(self).room_at(rid)
                    == old(self).room_at(rid),
    {
        match self.find_room(room_id) {
            None => Err(AppError::NotFound(room_id.clone())),
            Some(i) => {
                proof {
                    lemma_key_at(room_entries(self.rooms@), room_id@, i as int);
                    assert(room_entries(self.rooms@)[i as int] == (
                        self.rooms@[i as int].id@,
                        self.rooms@[i as int],
                    ));
                }
                let ghost pre = room_entries(self.rooms@);
                let room = vec_index_mut(&mut self.rooms, i);
                if room.current_participants >= room.max_participants {
                    let e = Err(AppError::TooManyConnections(room_id.clone()));
                    proof {
                        assert(self.rooms@ =~= old(self).rooms@);
                    }
                    e
                } else {
                    room.current_participants = room.current_participants + 1;
                    proof {
                        let nr = self.rooms@[i as int];
                        assert(room_entries(self.rooms@) =~= pre.update(i as int, (pre[i as int].0, nr)));
                        lemma_update_val(pre, i as int, nr);
                    }
                    Ok(())
                }
            },
        }
    }

    /// Releases one participant. Fails with `NotFound` when the room does
    /// not exist; otherwise the count falls by one, stopping at zero, and
    /// nothing else changes. Releasing an empty room is safe.
    pub fn remove_participant(&mut self, room_id: &String) -> (r: AppResult<()>)
        requires
            old(self).wf(),
        ensures
            final(self).wf(),
            final(self).streams == old(self).streams,
            !old(self).has_room(room_id@) ==> final(self).rooms@ == old(self).rooms@ && (
            r matches Err(e) && e matches AppError::NotFound(m) && m@ == room_id@),
            old(self).has_room(room_id@) ==> {
                &&& r is Ok
                &&& final(self).room_at(room_id@).current_participants == if old(self).room_at(
                    room_id@,
                ).current_participants > 0 {
                    old(self).room_at(room_id@).current_participants - 1
                } else {
                    0
                }
                &&& final(self).room_at(room_id@).id@ == old(self).room_at(room_id@).id@
                &&& final(self).room_at(room_id@).name@ == old(self).room_at(room_id@).name@
                &&& final(self).room_at(room_id@).max_participants == old(self).room_at(
                    room_id@,
                ).max_participants
                &&& final(self).room_at(room_id@).recording_enabled == old(self).room_at(
                    room_id@,
                ).recording_enabled
            },
            forall|rid: Seq<char>| #[trigger]
                final(self).has_room(rid) == old(self).has_room(rid),
            forall|rid: Seq<char>|
                rid != room_id@ && old(self).has_room(rid) ==> #[trigger] final(self).room_at(rid)
                    == old(self).room_at(rid),
    {
        match self.find_room(room_id) {
            None => Err(AppError::NotFound(room_id.clone())),
            Some(i) => {
                proof {
                    lemma_key_at(room_entries(self.rooms@), room_id@, i as int);
                    assert(room_entries(self.rooms@)[i as int] == (
                        self.rooms@[i as int].id@,
                        self.rooms@[i as int],
                    ));
                }
                let ghost pre = room_entries(self.rooms@);
                let room = vec_index_mut(&mut self.rooms, i);
                if room.current_participants > 0 {
                    room.current_participants = room.current_participants - 1;
                }
                proof {
                    let nr = self.rooms@[i as int];
                    assert(room_entries(self.rooms@) =~= pre.update(i as int, (pre[i as int].0, nr)));
                    lemma_update_val(pre, i as int, nr);
                }
                Ok(())
            },
        }
    }

    /// Makes sure the room's channel exists (creating it empty with the
    /// configured bound when absent) and returns its position.
    fn ensure_stream(&mut self, room_id: &String) -> (i: usize)
        requires
            old(self).wf(),
        ensures
            final(self).wf(),
            final(self).rooms@ == old(self).rooms@,
            i < final(self).streams@.len(),
            final(self).streams@[i as int].room_id@ == room_id@,
            final(self).has_stream(room_id@),
            final(self).stream_at(room_id@) == final(self).streams@[i as int],
            old(self).has_stream(room_id@) ==> final(self).streams@ == old(self).streams@,
            !old(self).has_stream(room_id@) ==> {
                &&& final(self).stream_at(room_id@).queues().len() == 0
                &&& forall|c: u64| !final(self).stream_at(room_id@).subscribed(c)
            },
            forall|rid: Seq<char>|
                rid != room_id@ ==> #[trigger] final(self).has_stream(rid) == old(self).has_stream(
                    rid,
                ),
            forall|rid: Seq<char>|
                rid != room_id@ && old(self).has_stream(rid) ==> #[trigger] final(self).stream_at(
                    rid,
                ) == old(self).stream_at(rid),
    {
        match self.find_stream(room_id) {
            Some(i) => {
                proof {
                    lemma_key_at(stream_entries(self.streams@), room_id@, i as int);
                    assert(stream_entries(self.streams@)[i as int] == (
                        self.streams@[i as int].room_id@,
                        self.streams@[i as int],
                    ));
                }
                i
            },
            None => {
                let ch = RoomChannel::new(room_id.clone(), CHANNEL_CAPACITY);
                let ghost gch = ch;
                let ghost pre = stream_entries(self.streams@);
                let i = self.streams.len();
                self.streams.push(ch);
                proof {
                    assert(stream_entries(self.streams@) =~= pre.push((gch.room_id@, gch)));
                    lemma_push_new(pre, gch.room_id@, gch);
                    lemma_key_at(stream_entries(self.streams@), room_id@, i as int);
                }
                i
            },
        }
    }

    /// Lazily creates the room's fan-out channel; `true` when this call
    /// created it.
    pub fn get_stream(&mut self, room_id: &String) -> (created: bool)
        requires
            old(self).wf(),
        ensures
            final(self).wf(),
            final(self).rooms@ == old(self).rooms@,
            final(self).has_stream(room_id@),
            created == !old(self).has_stream(room_id@),
            old(self).has_stream(room_id@) ==> final(self).streams@ == old(self).streams@,
            !old(self).has_stream(room_id@) ==> {
                &&& final(self).stream_at(room_id@).queues().len() == 0
                &&& final(self).stream_at(room_id@).capacity == CHANNEL_CAPACITY
            },
            forall|rid: Seq<char>|
                rid != room_id@ ==> #[trigger] final(self).has_stream(rid) == old(self).has_stream(
                    rid,
                ),
            forall|rid: Seq<char>|
                rid != room_id@ && old(self).has_stream(rid) ==> #[trigger] final(self).stream_at(
                    rid,
                ) == old(self).stream_at(rid),
    {
        let existed = match self.find_stream(room_id) {
            Some(i) => {
                proof {
                    lemma_key_at(stream_entries(self.streams@), room_id@, i as int);
                    assert(stream_entries(self.streams@)[i as int] == (
                        self.streams@[i as int].room_id@,
                        self.streams@[i as int],
                    ));
                }
                true
            },
            None => false,
        };
        let i = self.ensure_stream(room_id);
        proof {
            let es = stream_entries(self.streams@);
            assert(es[i as int] == (self.streams@[i as int].room_id@, self.streams@[i as int]));
        }
        !existed
    }

    /// Whether the connection currently holds a subscription in the
    /// room's channel.
    pub fn is_subscribed(&self, room_id: &String, conn_id: u64) -> (r: bool)
        requires
            self.wf(),
        ensures
            r == (self.has_stream(room_id@) && self.stream_at(room_id@).subscribed(conn_id)),
    {
        match self.find_stream(room_id) {
            Some(i) => {
                proof {
                    lemma_key_at(stream_entries(self.streams@), room_id@, i as int);
                    assert(stream_entries(self.streams@)[i as int] == (
                        self.streams@[i as int].room_id@,
                        self.streams@[i as int],
                    ));
                }
                self.streams[i].is_subscribed(conn_id)
            },
            None => false,
        }
    }

    /// Subscribes the connection to the room's channel, creating the
    /// channel first when it does not exist yet.
    pub fn subscribe(&mut self, room_id: &String, conn_id: u64)
        requires
            old(self).wf(),
        ensures
            final(self).wf(),
            final(self).rooms@ == old(self).rooms@,
            final(self).has_stream(room_id@),
            final(self).stream_at(room_id@).subscribed(conn_id),
            final(self).stream_at(room_id@).queue_of(conn_id) == if old(self).has_stream(room_id@)
                && old(self).stream_at(room_id@).subscribed(conn_id) {
                old(self).stream_at(room_id@).queue_of(conn_id)
            } else {
                Seq::<Seq<u8>>::empty()
            },
            old(self).has_stream(room_id@) ==> forall|c: u64|
                c != conn_id ==> #[trigger] final(self).stream_at(room_id@).subscribed(c) == old(
                    self,
                ).stream_at(room_id@).subscribed(c),
            old(self).has_stream(room_id@) ==> forall|c: u64|
                c != conn_id && old(self).stream_at(room_id@).subscribed(c)
                    ==> #[trigger] final(self).stream_at(room_id@).queue_of(c)
                    == old(self).stream_at(room_id@).queue_of(c),
            !old(self).has_stream(room_id@) ==> forall|c: u64|
                c != conn_id ==> !#[trigger] final(self).stream_at(room_id@).subscribed(c),
            forall|rid: Seq<char>|
                rid != room_id@ ==> #[trigger] final(self).has_stream(rid) == old(self).has_stream(
                    rid,
                ),
            forall|rid: Seq<char>|
                rid != room_id@ && old(self).has_stream(rid) ==> #[trigger] final(self).stream_at(
                    rid,
                ) == old(self).stream_at(rid),
    {
        let i = self.ensure_stream(room_id);
        let ghost mid = *self;
        let ghost pre = stream_entries(self.streams@);
        let ch = vec_index_mut(&mut self.streams, i);
        ch.subscribe(conn_id);
        proof {
            assert(pre[i as int] == (mid.streams@[i as int].room_id@, mid.streams@[i as int]));
            assert(pre[i as int].0 == room_id@);
            lemma_key_at(pre, room_id@, i as int);
            let nc = self.streams@[i as int];
            let upd = pre.update(i as int, (pre[i as int].0, nc));
            assert(stream_entries(self.streams@) =~= upd);
            lemma_update_val(pre, i as int, nc);
            lemma_key_at(stream_entries(self.streams@), room_id@, i as int);
            assert(stream_entries(self.streams@)[i as int] == (nc.room_id@, nc));
            assert forall|rid: Seq<char>| rid != room_id@ implies self.has_stream(rid) == old(
                self,
            ).has_stream(rid) by {
                assert(has_key(upd, rid) == has_key(pre, rid));
                assert(mid.has_stream(rid) == old(self).has_stream(rid));
            }
            assert forall|rid: Seq<char>| rid != room_id@ && old(self).has_stream(rid) implies self
                .stream_at(rid) == old(self).stream_at(rid) by {
                assert(mid.has_stream(rid) == old(self).has_stream(rid));
                assert(has_key(upd, rid) == has_key(pre, rid));
                assert(value_of(upd, rid) == value_of(pre, rid));
                assert(mid.stream_at(rid) == old(self).stream_at(rid));
            }
        }
    }

    /// Drops the connection's subscription in the room's channel, if both
    /// exist.
    pub fn unsubscribe(&mut self, room_id: &String, conn_id: u64)
        requires
            old(self).wf(),
        ensures
            final(self).wf(),
            final(self).rooms@ == old(self).rooms@,
            final(self).has_stream(room_id@) ==> !final(self).stream_at(room_id@).subscribed(
                conn_id,
            ),
            forall|rid: Seq<char>| #[trigger]
                final(self).has_stream(rid) == old(self).has_stream(rid),
            old(self).has_stream(room_id@) ==> forall|c: u64|
                c != conn_id ==> #[trigger] final(self).stream_at(room_id@).subscribed(c) == old(
                    self,
                ).stream_at(room_id@).subscribed(c),
            old(self).has_stream(room_id@) ==> forall|c: u64|
                c != conn_id && old(self).stream_at(room_id@).subscribed(c)
                    ==> #[trigger] final(self).stream_at(room_id@).queue_of(c)
                    == old(self).stream_at(room_id@).queue_of(c),
            forall|rid: Seq<char>|
                rid != room_id@ && old(self).has_stream(rid) ==> #[trigger] final(self).stream_at(
                    rid,
                ) == old(self).stream_at(rid),
    {
        match self.find_stream(room_id) {
            Some(i) => {
                proof {
                    lemma_key_at(stream_entries(self.streams@), room_id@, i as int);
                    assert(stream_entries(self.streams@)[i as int] == (
                        self.streams@[i as int].room_id@,
                        self.streams@[i as int],
                    ));
                }
                let ghost mid = *self;
                let ghost pre = stream_entries(self.streams@);
                let ch = vec_index_mut(&mut self.streams, i);
                ch.unsubscribe(conn_id);
                proof {
                    assert(pre[i as int] == (
                        mid.streams@[i as int].room_id@,
                        mid.streams@[i as int],
                    ));
                    assert(pre[i as int].0 == room_id@);
                    lemma_key_at(pre, room_id@, i as int);
                    let nc = self.streams@[i as int];
                    let upd = pre.update(i as int, (pre[i as int].0, nc));
                    assert(stream_entries(self.streams@) =~= upd);
                    lemma_update_val(pre, i as int, nc);
                    lemma_key_at(stream_entries(self.streams@), room_id@, i as int);
                    assert(stream_entries(self.streams@)[i as int] == (nc.room_id@, nc));
                    assert forall|rid: Seq<char>| rid != room_id@ implies self.has_stream(rid) == old(
                        self,
                    ).has_stream(rid) by {
                        assert(has_key(upd, rid) == has_key(pre, rid));
                        assert(mid.has_stream(rid) == old(self).has_stream(rid));
                    }
                    assert forall|rid: Seq<char>| rid != room_id@ && old(self).has_stream(rid) implies self
                        .stream_at(rid) == old(self).stream_at(rid) by {
                        assert(mid.has_stream(rid) == old(self).has_stream(rid));
                        assert(has_key(upd, rid) == has_key(pre, rid));
                        assert(value_of(upd, rid) == value_of(pre, rid));
                        assert(mid.stream_at(rid) == old(self).stream_at(rid));
                    }
                }
            },
            None => {},
        }
    }

    /// Publishes a frame payload into the room's channel: every other
    /// subscriber of that room receives it (oldest dropped beyond the
    /// bound), the sender's own buffer is untouched, and no channel of any
    /// other room changes in any way.
    pub fn publish(&mut self, room_id: &String, sender: u64, payload: &Vec<u8>)
        requires
            old(self).wf(),
        ensures
            final(self).wf(),
            publish_rel(*old(self), *final(self), room_id@, sender, payload@),
    {
        let i = self.ensure_stream(room_id);
        let ghost mid = *self;
        let ghost pre = stream_entries(self.streams@);
        let ch = vec_index_mut(&mut self.streams, i);
        ch.publish(sender, payload);
        proof {
            assert(pre[i as int] == (mid.streams@[i as int].room_id@, mid.streams@[i as int]));
            assert(pre[i as int].0 == room_id@);
            lemma_key_at(pre, room_id@, i as int);
            let nc = self.streams@[i as int];
            let upd = pre.update(i as int, (pre[i as int].0, nc));
            assert(stream_entries(self.streams@) =~= upd);
            lemma_update_val(pre, i as int, nc);
            lemma_key_at(stream_entries(self.streams@), room_id@, i as int);
            assert(stream_entries(self.streams@)[i as int] == (nc.room_id@, nc));
            assert forall|rid: Seq<char>| rid != room_id@ implies self.has_stream(rid) == old(
                self,
            ).has_stream(rid) by {
                assert(has_key(upd, rid) == has_key(pre, rid));
                assert(mid.has_stream(rid) == old(self).has_stream(rid));
            }
            assert forall|rid: Seq<char>| rid != room_id@ && old(self).has_stream(rid) implies self
                .stream_at(rid) == old(self).stream_at(rid) by {
                assert(mid.has_stream(rid) == old(self).has_stream(rid));
                assert(has_key(upd, rid) == has_key(pre, rid));
                assert(value_of(upd, rid) == value_of(pre, rid));
                assert(mid.stream_at(rid) == old(self).stream_at(rid));
            }
        }
    }

    /// Hands the connection the oldest payload buffered for it in the
    /// room's channel, if there is one.
    pub fn poll(&mut self, room_id: &String, conn_id: u64) -> (r: Option<Vec<u8>>)
        requires
            old(self).wf(),
        ensures
            final(self).wf(),
            final(self).rooms@ == old(self).rooms@,
            forall|rid: Seq<char>| #[trigger]
                final(self).has_stream(rid) == old(self).has_stream(rid),
            !old(self).has_stream(room_id@) ==> r is None && final(self).streams@ == old(
                self,
            ).streams@,
            old(self).has_stream(room_id@) && old(self).stream_at(room_id@).subscribed(conn_id)
                && old(self).stream_at(room_id@).queue_of(conn_id).len() > 0 ==> {
                &&& r matches Some(p) && p@ == old(self).stream_at(room_id@).queue_of(conn_id)[0]
                &&& final(self).stream_at(room_id@).queue_of(conn_id) == old(self).stream_at(
                    room_id@,
                ).queue_of(conn_id).drop_first()
            },
            old(self).has_stream(room_id@) && !(old(self).stream_at(room_id@).subscribed(conn_id)
                && old(self).stream_at(room_id@).queue_of(conn_id).len() > 0) ==> r is None,
            old(self).has_stream(room_id@) ==> forall|c: u64| #[trigger]
                final(self).stream_at(room_id@).subscribed(c) == old(self).stream_at(
                    room_id@,
                ).subscribed(c),
            old(self).has_stream(room_id@) ==> forall|c: u64|
                c != conn_id && old(self).stream_at(room_id@).subscribed(c)
                    ==> #[trigger] final(self).stream_at(room_id@).queue_of(c)
                    == old(self).stream_at(room_id@).queue_of(c),
            forall|rid: Seq<char>|
                rid != room_id@ && old(self).has_stream(rid) ==> #[trigger] final(self).stream_at(
                    rid,
                ) == old(self).stream_at(rid),
    {
        match self.find_stream(room_id) {
            Some(i) => {
                proof {
                    lemma_key_at(stream_entries(self.streams@), room_id@, i as int);
                    assert(stream_entries(self.streams@)[i as int] == (
                        self.streams@[i as int].room_id@,
                        self.streams@[i as int],
                    ));
                }
                let ghost mid = *self;
                let ghost pre = stream_entries(self.streams@);
                let ch = vec_index_mut(&mut self.streams, i);
                let r = ch.poll(conn_id);
                proof {
                    assert(pre[i as int] == (
                        mid.streams@[i as int].room_id@,
                        mid.streams@[i as int],
                    ));
                    assert(pre[i as int].0 == room_id@);
                    lemma_key_at(pre, room_id@, i as int);
                    let nc = self.streams@[i as int];
                    let upd = pre.update(i as int, (pre[i as int].0, nc));
                    assert(stream_entries(self.streams@) =~= upd);
                    lemma_update_val(pre, i as int, nc);
                    lemma_key_at(stream_entries(self.streams@), room_id@, i as int);
                    assert(stream_entries(self.streams@)[i as int] == (nc.room_id@, nc));
                    assert forall|rid: Seq<char>| rid != room_id@ implies self.has_stream(rid) == old(
                        self,
                    ).has_stream(rid) by {
                        assert(has_key(upd, rid) == has_key(pre, rid));
                        assert(mid.has_stream(rid) == old(self).has_stream(rid));
                    }
                    assert forall|rid: Seq<char>| rid != room_id@ && old(self).has_stream(rid) implies self
                        .stream_at(rid) == old(self).stream_at(rid) by {
                        assert(mid.has_stream(rid) == old(self).has_stream(rid));
                        assert(has_key(upd, rid) == has_key(pre, rid));
                        assert(value_of(upd, rid) == value_of(pre, rid));
                        assert(mid.stream_at(rid) == old(self).stream_at(rid));
                    }
                }
                r
            },
            None => None,
        }
    }
}

/// Admission invariant: whatever sequence of admissions and releases led
/// to a well-formed registry, no room holds more participants than its
/// capacity (and the unsigned count cannot be negative). Every operation
/// above returns a well-formed registry, so this holds at every point of
/// every call sequence.
pub proof fn lemma_admission_invariant(r: Rooms, rid: Seq<char>)
    requires
        r.wf(),
        r.has_room(rid),
    ensures
        r.room_at(rid).current_participants <= r.room_at(rid).max_participants,
{
    let es = room_entries(r.rooms@);
    let i = idx_of(es, rid);
    assert(0 <= i < es.len() && es[i].0 == rid);
    assert(es[i] == (r.rooms@[i].id@, r.rooms@[i]));
}

/// Broadcast fan-out: when connection `sender` publishes a payload in
/// room `rid`, every other connection then subscribed to that room has
/// the payload as the newest entry of its buffer, the sender's own
/// buffer is unchanged, and the channel of any different room is exactly
/// what it was.
pub proof fn lemma_broadcast_fanout(
    pre: Rooms,
    post: Rooms,
    rid: Seq<char>,
    sender: u64,
    payload: Seq<u8>,
    c: u64,
    other: Seq<char>,
)
    requires
        publish_rel(pre, post, rid, sender, payload),
        pre.has_stream(rid),
    ensures
        c != sender && pre.stream_at(rid).subscribed(c) ==> post.stream_at(rid).queue_of(c).len()
            >= 1 && post.stream_at(rid).queue_of(c).last() == payload,
        pre.stream_at(rid).subscribed(sender) ==> post.stream_at(rid).queue_of(sender)
            == pre.stream_at(rid).queue_of(sender),
        other != rid && pre.has_stream(other) ==> post.stream_at(other) == pre.stream_at(other),
{
}

} // verus!
