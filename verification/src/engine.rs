//! The stream ingestion engine: one value owning the room registry, the
//! deduplication cache, and the per-room recording machines. The
//! surrounding application runs the transport loops and the storage
//! calls; every decision — admission, parsing, dedup, fan-out, control
//! transitions, persistence accounting — is made and verified here.

use crate::assoc::{
    has_key, lemma_key_at, lemma_push_new, lemma_update_val, uniq_keys, value_of,
};
use crate::dedup::{fnv1a, DedupCache};
use crate::envelope::{parse_envelope, parse_spec, MessageModel};
use crate::errors::{AppError, AppResult};
use crate::models::{ControlAction, FrameType, WebSocketMessage};
use crate::recording::{control_step, ControlError, RecordingMachine};
use crate::rooms::{publish_rel, Rooms};
use vstd::prelude::*;
use vstd::std_specs::vec::vec_index_mut;

verus! {

/// Relies on uuid::Uuid::new_v4 and its hyphenated rendering: a random
/// version-4 UUID formatted as 36 characters. Nothing but the length is
/// promised of a random value.
#[verifier::external_body]
fn fresh_uuid() -> (r: String)
    ensures
        r@.len() == 36,
{
    uuid::Uuid::new_v4().to_string()
}

/// The association sequence a machine list denotes: room id to machine.
pub open spec fn rec_entries(ms: Seq<RecordingMachine>) -> Seq<(Seq<char>, RecordingMachine)> {
    ms.map_values(|m: RecordingMachine| (m.room_id@, m))
}

/// What handling one inbound unit came to.
#[derive(Debug, PartialEq)]
pub enum MessageOutcome {
    /// A media frame was broadcast; `persist` says whether it is new and
    /// owed to storage.
    FrameHandled { persist: bool },
    /// A control command reached the room's recording machine.
    ControlHandled(Result<(), ControlError>),
    /// The envelope was malformed; it is dropped and nothing changes.
    Malformed,
}

/// The engine: room registry, dedup cache, and one recording machine per
/// room that has seen a control command.
pub struct StreamEngine {
    pub rooms: Rooms,
    pub dedup: DedupCache,
    pub recorders: Vec<RecordingMachine>,
    pub fail_threshold: u32,
}

impl StreamEngine {
    /// Well-formed: both substates well-formed, machine ids distinct,
    /// every machine well-formed with this engine's failure threshold.
    pub open spec fn wf(self) -> bool {
        &&& self.rooms.wf()
        &&& self.dedup.wf()
        &&& uniq_keys(rec_entries(self.recorders@))
        &&& forall|i: int|
            0 <= i < self.recorders@.len() ==> (#[trigger] self.recorders@[i]).wf()
                && self.recorders@[i].fail_threshold == self.fail_threshold
        &&& self.fail_threshold >= 1
    }

    /// Whether a recording machine exists for this room yet.
    pub open spec fn has_recorder(self, rid: Seq<char>) -> bool {
        has_key(rec_entries(self.recorders@), rid)
    }

    /// The recording machine of this room.
    pub open spec fn recorder_at(self, rid: Seq<char>) -> RecordingMachine {
        value_of(rec_entries(self.recorders@), rid)
    }

    /// A machine that has seen nothing yet for room `rid`.
    pub open spec fn idle_recorder(m: RecordingMachine, rid: Seq<char>, threshold: u32) -> bool {
        &&& m.room_id@ == rid
        &&& m.current is None
        &&& m.completed@.len() == 0
        &&& m.fail_threshold == threshold
        &&& m.consecutive_failures == 0
    }

    /// A fresh engine: no rooms, an empty dedup cache with the given
    /// TTL, and recordings failing after `fail_threshold` consecutive
    /// persistence failures.
    pub fn new(dedup_ttl_ms: i64, fail_threshold: u32) -> (r: Self)
        requires
            dedup_ttl_ms >= 1,
            fail_threshold >= 1,
        ensures
            r.wf(),
            r.rooms.rooms@.len() == 0,
            r.rooms.streams@.len() == 0,
            r.dedup.ttl_ms == dedup_ttl_ms,
            r.dedup.entries@.len() == 0,
            r.recorders@.len() == 0,
            r.fail_threshold == fail_threshold,
            forall|rid: Seq<char>| !r.has_recorder(rid),
    {
        let r = StreamEngine {
            rooms: Rooms::new(),
            dedup: DedupCache::new(dedup_ttl_ms),
            recorders: Vec::new(),
            fail_threshold,
        };
        proof {
            assert(rec_entries(r.recorders@).len() == 0);
        }
        r
    }

    /// The position of a room's machine.
    fn find_recorder(&self, room_id: &String) -> (r: Option<usize>)
        ensures
            match r {
                Some(i) => i < self.recorders@.len() && self.recorders@[i as int].room_id@
                    == room_id@,
                None => !self.has_recorder(room_id@),
            },
    {
        let n = self.recorders.len();
        let mut i: usize = 0;
        while i < n
            invariant
                n == self.recorders@.len(),
                i <= n,
                forall|j: int| 0 <= j < i ==> (#[trigger] self.recorders@[j]).room_id@ != room_id@,
            decreases n - i,
        {
            if self.recorders[i].room_id == *room_id {
                return Some(i);
            }
            i = i + 1;
        }
        proof {
            let es = rec_entries(self.recorders@);
            assert forall|j: int| 0 <= j < es.len() implies (#[trigger] es[j]).0 != room_id@ by {
                assert(es[j] == (self.recorders@[j].room_id@, self.recorders@[j]));
            }
        }
        None
    }

    /// Makes sure the room's machine exists (idle when fresh) and
    /// returns its position.
    fn ensure_recorder(&mut self, room_id: &String) -> (i: usize)
        requires
            old(self).wf(),
        ensures
            final(self).wf(),
            final(self).rooms == old(self).rooms,
            final(self).dedup == old(self).dedup,
            final(self).fail_threshold == old(self).fail_threshold,
            i < final(self).recorders@.len(),
            final(self).recorders@[i as int].room_id@ == room_id@,
            final(self).has_recorder(room_id@),
            final(self).recorder_at(room_id@) == final(self).recorders@[i as int],
            old(self).has_recorder(room_id@) ==> final(self).recorders@ == old(self).recorders@,
            !old(self).has_recorder(room_id@) ==> Self::idle_recorder(
                final(self).recorder_at(room_id@),
                room_id@,
                old(self).fail_threshold,
            ),
            forall|rid: Seq<char>|
                rid != room_id@ ==> #[trigger] final(self).has_recorder(rid) == old(
                    self,
                ).has_recorder(rid),
            forall|rid: Seq<char>|
                rid != room_id@ && old(self).has_recorder(rid) ==> #[trigger] final(self).recorder_at(rid) == old(self).recorder_at(rid),
    {
        match self.find_recorder(room_id) {
            Some(i) => {
                proof {
                    lemma_key_at(rec_entries(self.recorders@), room_id@, i as int);
                    assert(rec_entries(self.recorders@)[i as int] == (
                        self.recorders@[i as int].room_id@,
                        self.recorders@[i as int],
                    ));
                }
                i
            },
            None => {
                let m = RecordingMachine::new(room_id.clone(), self.fail_threshold);
                let ghost gm = m;
                let ghost pre = rec_entries(self.recorders@);
                let i = self.recorders.len();
                self.recorders.push(m);
                proof {
                    assert(rec_entries(self.recorders@) =~= pre.push((gm.room_id@, gm)));
                    lemma_push_new(pre, gm.room_id@, gm);
                    lemma_key_at(rec_entries(self.recorders@), room_id@, i as int);
                }
                i
            },
        }
    }

    /// Admits the connection to the room and subscribes it to the
    /// room's fan-out channel. Admission is authoritative: a missing
    /// room or a full room rejects the connection and changes nothing.
    pub fn connect(&mut self, room_id: &String, conn_id: u64) -> (r: AppResult<()>)
        requires
            old(self).wf(),
        ensures
            final(self).wf(),
            final(self).dedup == old(self).dedup,
            final(self).recorders == old(self).recorders,
            !old(self).rooms.has_room(room_id@) ==> (r matches Err(e) && e matches
                AppError::NotFound(m) && m@ == room_id@) && final(self).rooms.rooms@ == old(
                self,
            ).rooms.rooms@ && final(self).rooms.streams@ == old(self).rooms.streams@,
            old(self).rooms.has_room(room_id@) && old(self).rooms.room_at(
                room_id@,
            ).current_participants >= old(self).rooms.room_at(room_id@).max_participants ==> (
            r matches Err(e) && e matches AppError::TooManyConnections(m) && m@ == room_id@)
                && final(self).rooms.rooms@ == old(self).rooms.rooms@ && final(self).rooms.streams@
                == old(self).rooms.streams@,
            old(self).rooms.has_room(room_id@) && old(self).rooms.room_at(
                room_id@,
            ).current_participants < old(self).rooms.room_at(room_id@).max_participants ==> {
                &&& r is Ok
                &&& final(self).rooms.room_at(room_id@).current_participants == old(
                    self,
                ).rooms.room_at(room_id@).current_participants + 1
                &&& final(self).rooms.room_at(room_id@).max_participants == old(
                    self,
                ).rooms.room_at(room_id@).max_participants
                &&& final(self).rooms.has_stream(room_id@)
                &&& final(self).rooms.stream_at(room_id@).subscribed(conn_id)
                &&& final(self).rooms.stream_at(room_id@).queue_of(conn_id) == if old(
                    self,
                ).rooms.has_stream(room_id@) && old(self).rooms.stream_at(room_id@).subscribed(
                    conn_id,
                ) {
                    old(self).rooms.stream_at(room_id@).queue_of(conn_id)
                } else {
                    Seq::<Seq<u8>>::empty()
                }
            },
            forall|rid: Seq<char>| #[trigger]
                final(self).rooms.has_room(rid) == old(self).rooms.has_room(rid),
            forall|rid: Seq<char>|
                rid != room_id@ && old(self).rooms.has_room(rid) ==> #[trigger] final(self).rooms.room_at(rid) == old(self).rooms.room_at(rid),
            forall|rid: Seq<char>|
                rid != room_id@ ==> #[trigger] final(self).rooms.has_stream(rid) == old(
                    self,
                ).rooms.has_stream(rid),
            forall|rid: Seq<char>|
                rid != room_id@ && old(self).rooms.has_stream(rid) ==> #[trigger] final(self).rooms.stream_at(rid) == old(self).rooms.stream_at(rid),
    {
        match self.rooms.add_participant(room_id) {
            Ok(()) => {
                let ghost mid = *self;
                self.rooms.subscribe(room_id, conn_id);
                proof {
                    assert forall|rid: Seq<char>| #[trigger] self.rooms.has_room(rid) == old(
                        self,
                    ).rooms.has_room(rid) by {
                        assert(mid.rooms.has_room(rid) == old(self).rooms.has_room(rid));
                        assert(self.rooms.rooms@ == mid.rooms.rooms@);
                    }
                    assert forall|rid: Seq<char>|
                        rid != room_id@ && old(self).rooms.has_room(rid) implies self.rooms.room_at(
                        rid,
                    ) == old(self).rooms.room_at(rid) by {
                        assert(mid.rooms.has_room(rid) == old(self).rooms.has_room(rid));
                        assert(mid.rooms.room_at(rid) == old(self).rooms.room_at(rid));
                        assert(self.rooms.rooms@ == mid.rooms.rooms@);
                    }
                }
                Ok(())
            },
            Err(e) => Err(e),
        }
    }

    /// Undoes a connection: drops its subscription and, exactly when the
    /// connection actually held one, releases its admission slot — so a
    /// repeated disconnect releases nothing twice. Safe on every exit
    /// path; releasing never drives the count below zero, and a missing
    /// room leaves the counts as they are.
    pub fn disconnect(&mut self, room_id: &String, conn_id: u64)
        requires
            old(self).wf(),
        ensures
            final(self).wf(),
            final(self).dedup == old(self).dedup,
            final(self).recorders == old(self).recorders,
            final(self).rooms.has_stream(room_id@) ==> !final(self).rooms.stream_at(
                room_id@,
            ).subscribed(conn_id),
            old(self).rooms.has_stream(room_id@) && old(self).rooms.stream_at(room_id@).subscribed(
                conn_id,
            ) && old(self).rooms.has_room(room_id@) ==> final(self).rooms.room_at(
                room_id@,
            ).current_participants == if old(self).rooms.room_at(room_id@).current_participants
                > 0 {
                old(self).rooms.room_at(room_id@).current_participants - 1
            } else {
                0
            },
            !(old(self).rooms.has_stream(room_id@) && old(self).rooms.stream_at(
                room_id@,
            ).subscribed(conn_id)) ==> final(self).rooms.rooms@ == old(self).rooms.rooms@,
            forall|rid: Seq<char>| #[trigger]
                final(self).rooms.has_room(rid) == old(self).rooms.has_room(rid),
            forall|rid: Seq<char>| #[trigger]
                final(self).rooms.has_stream(rid) == old(self).rooms.has_stream(rid),
            forall|rid: Seq<char>|
                rid != room_id@ && old(self).rooms.has_room(rid) ==> #[trigger] final(self).rooms.room_at(rid) == old(self).rooms.room_at(rid),
            forall|rid: Seq<char>|
                rid != room_id@ && old(self).rooms.has_stream(rid) ==> #[trigger] final(self).rooms.stream_at(rid) == old(self).rooms.stream_at(rid),
    {
        let held_slot = self.rooms.is_subscribed(room_id, conn_id);
        self.rooms.unsubscribe(room_id, conn_id);
        if held_slot {
            let ghost mid = *self;
            let released = self.rooms.remove_participant(room_id);
            proof {
                assert forall|rid: Seq<char>| #[trigger] self.rooms.has_stream(rid) == old(
                    self,
                ).rooms.has_stream(rid) by {
                    assert(mid.rooms.has_stream(rid) == old(self).rooms.has_stream(rid));
                    assert(self.rooms.streams == mid.rooms.streams);
                }
                assert forall|rid: Seq<char>|
                    rid != room_id@ && old(self).rooms.has_stream(rid) implies self.rooms.stream_at(
                    rid,
                ) == old(self).rooms.stream_at(rid) by {
                    assert(mid.rooms.has_stream(rid) == old(self).rooms.has_stream(rid));
                    assert(mid.rooms.stream_at(rid) == old(self).rooms.stream_at(rid));
                    assert(self.rooms.streams == mid.rooms.streams);
                }
            }
            match released {
                Ok(()) => {},
                Err(_) => {},
            }
        }
    }

    /// Routes one media frame: decides persistence (video is gated by
    /// the dedup cache, audio always persists) and broadcasts the
    /// payload to every other subscriber of the room in every case —
    /// persistence failure degrades durability, never liveness.
    pub fn process_frame(
        &mut self,
        room_id: &String,
        sender: u64,
        timestamp: i64,
        data: &Vec<u8>,
        frame_type: FrameType,
    ) -> (persist: bool)
        requires
            old(self).wf(),
            timestamp >= 0,
        ensures
            final(self).wf(),
            final(self).recorders == old(self).recorders,
            frame_type is Audio ==> persist && final(self).dedup == old(self).dedup,
            frame_type is Video ==> persist == !old(self).dedup.is_dup_spec(
                room_id@,
                fnv1a(data@),
                timestamp,
            ) && DedupCache::touched(
                old(self).dedup,
                final(self).dedup,
                room_id@,
                fnv1a(data@),
                timestamp,
            ),
            publish_rel(old(self).rooms, final(self).rooms, room_id@, sender, data@),
    {
        let persist = match frame_type {
            FrameType::Video => !self.dedup.is_duplicate(room_id, data, timestamp),
            FrameType::Audio => true,
        };
        self.rooms.publish(room_id, sender, data);
        persist
    }

    /// Applies one control command to the room's machine under a caller
    /// supplied recording id (used only by `StartRecording`).
    pub fn handle_control_action_with_id(
        &mut self,
        room_id: &String,
        action: ControlAction,
        recording_id: String,
        now: i64,
    ) -> (r: Result<(), ControlError>)
        requires
            old(self).wf(),
        ensures
            final(self).wf(),
            final(self).rooms == old(self).rooms,
            final(self).dedup == old(self).dedup,
            final(self).has_recorder(room_id@),
            old(self).has_recorder(room_id@) ==> control_step(
                action,
                old(self).recorder_at(room_id@),
                final(self).recorder_at(room_id@),
                recording_id,
                now,
                r,
            ),
            !old(self).has_recorder(room_id@) ==> exists|m0: RecordingMachine|
                #![auto]
                Self::idle_recorder(m0, room_id@, old(self).fail_threshold) && control_step(
                    action,
                    m0,
                    final(self).recorder_at(room_id@),
                    recording_id,
                    now,
                    r,
                ),
            forall|rid: Seq<char>|
                rid != room_id@ ==> #[trigger] final(self).has_recorder(rid) == old(
                    self,
                ).has_recorder(rid),
            forall|rid: Seq<char>|
                rid != room_id@ && old(self).has_recorder(rid) ==> #[trigger] final(self).recorder_at(rid) == old(self).recorder_at(rid),
    {
        let i = self.ensure_recorder(room_id);
        let ghost mid = *self;
        let ghost pre = rec_entries(self.recorders@);
        let m = vec_index_mut(&mut self.recorders, i);
        let r = m.apply_control(action, recording_id, now);
        proof {
            assert(pre[i as int] == (mid.recorders@[i as int].room_id@, mid.recorders@[i as int]));
            assert(pre[i as int].0 == room_id@);
            lemma_key_at(pre, room_id@, i as int);
            let nm = self.recorders@[i as int];
            let upd = pre.update(i as int, (pre[i as int].0, nm));
            assert(rec_entries(self.recorders@) =~= upd);
            lemma_update_val(pre, i as int, nm);
            lemma_key_at(rec_entries(self.recorders@), room_id@, i as int);
            assert(rec_entries(self.recorders@)[i as int] == (nm.room_id@, nm));
            assert forall|rid: Seq<char>| rid != room_id@ implies self.has_recorder(rid) == old(
                self,
            ).has_recorder(rid) by {
                assert(has_key(upd, rid) == has_key(pre, rid));
                assert(mid.has_recorder(rid) == old(self).has_recorder(rid));
            }
            assert forall|rid: Seq<char>| rid != room_id@ && old(self).has_recorder(rid) implies self
                .recorder_at(rid) == old(self).recorder_at(rid) by {
                assert(mid.has_recorder(rid) == old(self).has_recorder(rid));
                assert(has_key(upd, rid) == has_key(pre, rid));
                assert(value_of(upd, rid) == value_of(pre, rid));
                assert(mid.recorder_at(rid) == old(self).recorder_at(rid));
            }
        }
        r
    }

    /// Routes one control command to the room's recording machine,
    /// generating the fresh recording id that `StartRecording` needs.
    pub fn handle_control_action(
        &mut self,
        room_id: &String,
        action: ControlAction,
        now: i64,
    ) -> (r: Result<(), ControlError>)
        requires
            old(self).wf(),
        ensures
            final(self).wf(),
            final(self).rooms == old(self).rooms,
            final(self).dedup == old(self).dedup,
            final(self).has_recorder(room_id@),
            old(self).has_recorder(room_id@) ==> exists|id: String|
                #![auto]
                id@.len() == 36 && control_step(
                    action,
                    old(self).recorder_at(room_id@),
                    final(self).recorder_at(room_id@),
                    id,
                    now,
                    r,
                ),
            !old(self).has_recorder(room_id@) ==> exists|m0: RecordingMachine, id: String|
                #![auto]
                Self::idle_recorder(m0, room_id@, old(self).fail_threshold) && id@.len() == 36
                    && control_step(action, m0, final(self).recorder_at(room_id@), id, now, r),
            forall|rid: Seq<char>|
                rid != room_id@ ==> #[trigger] final(self).has_recorder(rid) == old(
                    self,
                ).has_recorder(rid),
            forall|rid: Seq<char>|
                rid != room_id@ && old(self).has_recorder(rid) ==> #[trigger] final(self).recorder_at(rid) == old(self).recorder_at(rid),
    {
        let id = fresh_uuid();
        self.handle_control_action_with_id(room_id, action, id, now)
    }

    /// Applies the outcome of one attempted persistence call for the
    /// room. Success clears the failure run and accounts the frame;
    /// failure lengthens the run and, at the threshold, fails the active
    /// recording. Returns whether a recording failed just now. Rooms
    /// without a machine have no active recording and are untouched.
    pub fn report_persist(&mut self, room_id: &String, ok: bool, bytes: u64, now: i64) -> (tripped:
        bool)
        requires
            old(self).wf(),
        ensures
            final(self).wf(),
            final(self).rooms == old(self).rooms,
            final(self).dedup == old(self).dedup,
            !old(self).has_recorder(room_id@) ==> final(self).recorders == old(self).recorders
                && !tripped,
            old(self).has_recorder(room_id@) ==> {
                let m0 = old(self).recorder_at(room_id@);
                let m1 = final(self).recorder_at(room_id@);
                &&& final(self).has_recorder(room_id@)
                &&& ok && m0.current is None ==> !tripped && m1 == (RecordingMachine {
                    consecutive_failures: 0,
                    ..m0
                })
                &&& ok && m0.current is Some ==> !tripped && m1 == (RecordingMachine {
                    consecutive_failures: 0,
                    current: Some(
                        crate::recording::Recording {
                            frame_count: crate::sat_inc64(m0.current->Some_0.frame_count),
                            size_bytes: crate::sat_add64(m0.current->Some_0.size_bytes, bytes),
                            ..m0.current->Some_0
                        },
                    ),
                    ..m0
                })
                &&& !ok && m0.current is None ==> !tripped && m1 == m0
                &&& !ok && m0.current is Some && crate::sat_inc32(m0.consecutive_failures)
                    < m0.fail_threshold ==> !tripped && m1 == (RecordingMachine {
                    consecutive_failures: crate::sat_inc32(m0.consecutive_failures),
                    ..m0
                })
                &&& !ok && m0.current is Some && crate::sat_inc32(m0.consecutive_failures)
                    >= m0.fail_threshold ==> {
                    &&& tripped
                    &&& m1.room_id == m0.room_id
                    &&& m1.fail_threshold == m0.fail_threshold
                    &&& m1.current is None
                    &&& m1.consecutive_failures == 0
                    &&& m1.completed@ == m0.completed@.push(
                        (crate::recording::Recording {
                            end_time: Some(now),
                            status: crate::recording::RecordingStatus::Failed,
                            ..m0.current->Some_0
                        }),
                    )
                }
            },
            forall|rid: Seq<char>|
                rid != room_id@ ==> #[trigger] final(self).has_recorder(rid) == old(
                    self,
                ).has_recorder(rid),
            forall|rid: Seq<char>|
                rid != room_id@ && old(self).has_recorder(rid) ==> #[trigger] final(self).recorder_at(rid) == old(self).recorder_at(rid),
    {
        match self.find_recorder(room_id) {
            None => false,
            Some(i) => {
                proof {
                    lemma_key_at(rec_entries(self.recorders@), room_id@, i as int);
                    assert(rec_entries(self.recorders@)[i as int] == (
                        self.recorders@[i as int].room_id@,
                        self.recorders@[i as int],
                    ));
                }
                let ghost mid = *self;
                let ghost pre = rec_entries(self.recorders@);
                let m = vec_index_mut(&mut self.recorders, i);
                let tripped = if ok {
                    m.record_persist_success();
                    m.record_frame(bytes);
                    false
                } else {
                    m.record_persist_failure(now)
                };
                proof {
                    assert(pre[i as int] == (
                        mid.recorders@[i as int].room_id@,
                        mid.recorders@[i as int],
                    ));
                    assert(pre[i as int].0 == room_id@);
                    lemma_key_at(pre, room_id@, i as int);
                    let nm = self.recorders@[i as int];
                    let upd = pre.update(i as int, (pre[i as int].0, nm));
                    assert(rec_entries(self.recorders@) =~= upd);
                    lemma_update_val(pre, i as int, nm);
                    lemma_key_at(rec_entries(self.recorders@), room_id@, i as int);
                    assert(rec_entries(self.recorders@)[i as int] == (nm.room_id@, nm));
                    assert forall|rid: Seq<char>| rid != room_id@ implies self.has_recorder(rid)
                        == old(self).has_recorder(rid) by {
                        assert(has_key(upd, rid) == has_key(pre, rid));
                        assert(mid.has_recorder(rid) == old(self).has_recorder(rid));
                    }
                    assert forall|rid: Seq<char>|
                        rid != room_id@ && old(self).has_recorder(rid) implies self.recorder_at(rid)
                        == old(self).recorder_at(rid) by {
                        assert(mid.has_recorder(rid) == old(self).has_recorder(rid));
                        assert(has_key(upd, rid) == has_key(pre, rid));
                        assert(value_of(upd, rid) == value_of(pre, rid));
                        assert(mid.recorder_at(rid) == old(self).recorder_at(rid));
                    }
                }
                tripped
            },
        }
    }

    /// Handles one raw inbound unit from a connection: parses the
    /// envelope, routes a frame through dedup and broadcast, routes a
    /// control command to the room's recording machine, and drops a
    /// malformed envelope without touching anything — malformed input is
    /// never fatal to the connection.
    pub fn handle_message(&mut self, room_id: &String, sender: u64, raw: &Vec<u8>, now: i64) -> (out:
        MessageOutcome)
        requires
            old(self).wf(),
        ensures
            final(self).wf(),
            parse_spec(raw@) is None ==> out == MessageOutcome::Malformed && *final(self) == *old(
                self,
            ),
            forall|f: crate::envelope::FrameModel|
                parse_spec(raw@) == Some(MessageModel::FrameMsg(f)) ==> {
                    &&& out == (MessageOutcome::FrameHandled {
                        persist: f.frame_type is Audio || !old(self).dedup.is_dup_spec(
                            room_id@,
                            fnv1a(f.data),
                            f.timestamp,
                        ),
                    })
                    &&& final(self).recorders == old(self).recorders
                    &&& f.frame_type is Audio ==> final(self).dedup == old(self).dedup
                    &&& f.frame_type is Video ==> DedupCache::touched(
                        old(self).dedup,
                        final(self).dedup,
                        room_id@,
                        fnv1a(f.data),
                        f.timestamp,
                    )
                    &&& publish_rel(old(self).rooms, final(self).rooms, room_id@, sender, f.data)
                },
            forall|a: ControlAction|
                parse_spec(raw@) == Some(MessageModel::ControlMsg(a)) ==> {
                    &&& out matches MessageOutcome::ControlHandled(r)
                    &&& final(self).rooms == old(self).rooms
                    &&& final(self).dedup == old(self).dedup
                    &&& final(self).has_recorder(room_id@)
                    &&& old(self).has_recorder(room_id@) ==> exists|id: String|
                        #![auto]
                        id@.len() == 36 && (out matches MessageOutcome::ControlHandled(r)
                            && control_step(
                            a,
                            old(self).recorder_at(room_id@),
                            final(self).recorder_at(room_id@),
                            id,
                            now,
                            r,
                        ))
                    &&& !old(self).has_recorder(room_id@) ==> exists|
                        m0: RecordingMachine,
                        id: String,
                    |
                        #![auto]
                        Self::idle_recorder(m0, room_id@, old(self).fail_threshold) && id@.len()
                            == 36 && (out matches MessageOutcome::ControlHandled(r) && control_step(
                            a,
                            m0,
                            final(self).recorder_at(room_id@),
                            id,
                            now,
                            r,
                        ))
                    &&& forall|rid: Seq<char>|
                        rid != room_id@ ==> #[trigger] final(self).has_recorder(rid) == old(
                            self,
                        ).has_recorder(rid)
                    &&& forall|rid: Seq<char>|
                        rid != room_id@ && old(self).has_recorder(rid)
                            ==> #[trigger] final(self).recorder_at(rid) == old(self).recorder_at(
                            rid,
                        )
                },
    {
        match parse_envelope(raw) {
            None => MessageOutcome::Malformed,
            Some(WebSocketMessage::Frame(frame)) => {
                proof {
                    crate::envelope::lemma_parse_timestamp_nonneg(
                        MessageModel::FrameMsg(frame@),
                        raw@,
                    );
                }
                let persist = self.process_frame(
                    room_id,
                    sender,
                    frame.timestamp,
                    &frame.data,
                    frame.frame_type,
                );
                MessageOutcome::FrameHandled { persist }
            },
            Some(WebSocketMessage::Control(action)) => {
                let r = self.handle_control_action(room_id, action, now);
                MessageOutcome::ControlHandled(r)
            },
        }
    }
}

} // verus!
