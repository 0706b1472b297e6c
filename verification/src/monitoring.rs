//! Application metrics and connection tracking. The collector is an
//! explicit instance handed to whoever records or reads (no process-wide
//! statics), counters saturate instead of wrapping, and the log filter
//! is a pure decision over level and module.

use crate::assoc::{
    has_key, lemma_key_at, lemma_push_new, lemma_update_val, uniq_keys, value_of,
};
use crate::errors::AppResult;
use crate::{sat_add64, sat_inc32};
use vstd::prelude::*;
use vstd::std_specs::vec::vec_index_mut;

verus! {

/// The association sequence a keyed counter list denotes.
pub open spec fn counter_entries(s: Seq<(String, u64)>) -> Seq<(Seq<char>, u64)> {
    s.map_values(|p: (String, u64)| (p.0@, p.1))
}

/// The counter stored under `k`, zero when absent.
pub open spec fn count_of(s: Seq<(Seq<char>, u64)>, k: Seq<char>) -> u64 {
    if has_key(s, k) {
        value_of(s, k)
    } else {
        0
    }
}

/// The exact (unbounded) sum of all counters.
pub open spec fn sum_of(s: Seq<(Seq<char>, u64)>) -> nat
    decreases s.len(),
{
    if s.len() == 0 {
        0
    } else {
        sum_of(s.drop_last()) + s.last().1 as nat
    }
}

/// A value clamped into the 64-bit range.
pub open spec fn sat_of(n: nat) -> u64 {
    if n > u64::MAX {
        u64::MAX
    } else {
        n as u64
    }
}

/// Distinct keys in a keyed counter list.
pub open spec fn counters_wf(s: Seq<(String, u64)>) -> bool {
    uniq_keys(counter_entries(s))
}

/// The position of a counter, by key.
fn find_counter(v: &Vec<(String, u64)>, key: &String) -> (r: Option<usize>)
    ensures
        match r {
            Some(i) => i < v@.len() && v@[i as int].0@ == key@,
            None => !has_key(counter_entries(v@), key@),
        },
{
    let n = v.len();
    let mut i: usize = 0;
    while i < n
        invariant
            n == v@.len(),
            i <= n,
            forall|j: int| 0 <= j < i ==> (#[trigger] v@[j]).0@ != key@,
        decreases n - i,
    {
        if v[i].0 == *key {
            return Some(i);
        }
        i = i + 1;
    }
    proof {
        let es = counter_entries(v@);
        assert forall|j: int| 0 <= j < es.len() implies (#[trigger] es[j]).0 != key@ by {
            assert(es[j] == (v@[j].0@, v@[j].1));
        }
    }
    None
}

/// Adds `amount` (saturating) to the counter under `key`, creating it
/// at `amount` when absent; every other counter stays put.
fn bump_counter(v: &mut Vec<(String, u64)>, key: &String, amount: u64)
    requires
        counters_wf(old(v)@),
    ensures
        counters_wf(final(v)@),
        count_of(counter_entries(final(v)@), key@) == sat_add64(
            count_of(counter_entries(old(v)@), key@),
            amount,
        ),
        has_key(counter_entries(final(v)@), key@),
        forall|k2: Seq<char>|
            k2 != key@ ==> #[trigger] has_key(counter_entries(final(v)@), k2) == has_key(
                counter_entries(old(v)@),
                k2,
            ),
        forall|k2: Seq<char>|
            k2 != key@ && has_key(counter_entries(old(v)@), k2) ==> #[trigger] count_of(
                counter_entries(final(v)@),
                k2,
            ) == count_of(counter_entries(old(v)@), k2),
{
    match find_counter(v, key) {
        Some(i) => {
            proof {
                lemma_key_at(counter_entries(v@), key@, i as int);
                assert(counter_entries(v@)[i as int] == (v@[i as int].0@, v@[i as int].1));
            }
            let ghost pre = counter_entries(v@);
            let e = vec_index_mut(v, i);
            if amount > u64::MAX - e.1 {
                e.1 = u64::MAX;
            } else {
                e.1 = e.1 + amount;
            }
            proof {
                let ne = v@[i as int];
                let upd = pre.update(i as int, (pre[i as int].0, ne.1));
                assert(counter_entries(v@) =~= upd);
                lemma_update_val(pre, i as int, ne.1);
                lemma_key_at(counter_entries(v@), key@, i as int);
                assert(counter_entries(v@)[i as int] == (ne.0@, ne.1));
                assert forall|k2: Seq<char>|
                    k2 != key@ && has_key(pre, k2) implies #[trigger] count_of(
                    counter_entries(v@),
                    k2,
                ) == count_of(pre, k2) by {
                    assert(value_of(upd, k2) == value_of(pre, k2));
                }
            }
        },
        None => {
            let entry = (key.clone(), amount);
            let ghost gentry = entry;
            let ghost pre = counter_entries(v@);
            v.push(entry);
            proof {
                assert(counter_entries(v@) =~= pre.push((gentry.0@, gentry.1)));
                lemma_push_new(pre, gentry.0@, gentry.1);
                assert forall|k2: Seq<char>|
                    k2 != key@ && has_key(pre, k2) implies #[trigger] count_of(
                    counter_entries(v@),
                    k2,
                ) == count_of(pre, k2) by {
                    assert(value_of(counter_entries(v@), k2) == value_of(pre, k2));
                }
            }
        },
    }
}

/// The counter under `key`, zero when absent.
fn read_counter(v: &Vec<(String, u64)>, key: &String) -> (r: u64)
    requires
        counters_wf(v@),
    ensures
        r == count_of(counter_entries(v@), key@),
{
    match find_counter(v, key) {
        Some(i) => {
            proof {
                lemma_key_at(counter_entries(v@), key@, i as int);
                assert(counter_entries(v@)[i as int] == (v@[i as int].0@, v@[i as int].1));
            }
            v[i].1
        },
        None => 0,
    }
}

/// The saturating sum of all counters.
fn sum_counters(v: &Vec<(String, u64)>) -> (r: u64)
    ensures
        r == sat_of(sum_of(counter_entries(v@))),
{
    let n = v.len();
    let mut acc: u64 = 0;
    let mut i: usize = 0;
    proof {
        assert(counter_entries(v@).subrange(0, 0) =~= Seq::<(Seq<char>, u64)>::empty());
    }
    while i < n
        invariant
            n == v@.len(),
            i <= n,
            acc == sat_of(sum_of(counter_entries(v@).subrange(0, i as int))),
        decreases n - i,
    {
        proof {
            let es = counter_entries(v@);
            assert(es.subrange(0, i + 1).drop_last() =~= es.subrange(0, i as int));
            assert(es.subrange(0, i + 1).last() == es[i as int]);
            assert(es[i as int] == (v@[i as int].0@, v@[i as int].1));
        }
        let add = v[i].1;
        if add > u64::MAX - acc {
            acc = u64::MAX;
        } else {
            acc = acc + add;
        }
        i = i + 1;
    }
    proof {
        assert(counter_entries(v@).subrange(0, n as int) =~= counter_entries(v@));
    }
    acc
}

/// Per-room transfer and error counters, read back by the analytics
/// surface.
#[derive(Debug, Clone, Copy, PartialEq, Eq, Structural)]
pub struct RoomMetrics {
    pub bytes_transferred: u64,
    pub frames_processed: u64,
    pub error_count: u64,
}

/// Per-user rollup over every room this collector has seen.
#[derive(Debug, Clone, Copy, PartialEq, Eq, Structural)]
pub struct UserMetrics {
    pub total_rooms: u64,
    pub total_storage: u64,
    pub total_bandwidth: u64,
}

/// The application's metrics collector: request, error, byte and frame
/// counters, each keyed by endpoint or room.
pub struct MetricsStore {
    pub requests: Vec<(String, u64)>,
    pub errors: Vec<(String, u64)>,
    pub bytes: Vec<(String, u64)>,
    pub frames: Vec<(String, u64)>,
}

impl MetricsStore {
    /// Well-formed: distinct keys in every counter family.
    pub open spec fn wf(self) -> bool {
        &&& counters_wf(self.requests@)
        &&& counters_wf(self.errors@)
        &&& counters_wf(self.bytes@)
        &&& counters_wf(self.frames@)
    }

    /// An empty collector.
    pub fn new() -> (r: Self)
        ensures
            r.wf(),
            r.requests@.len() == 0,
            r.errors@.len() == 0,
            r.bytes@.len() == 0,
            r.frames@.len() == 0,
    {
        let r = MetricsStore {
            requests: Vec::new(),
            errors: Vec::new(),
            bytes: Vec::new(),
            frames: Vec::new(),
        };
        proof {
            assert(counter_entries(r.requests@).len() == 0);
            assert(counter_entries(r.errors@).len() == 0);
            assert(counter_entries(r.bytes@).len() == 0);
            assert(counter_entries(r.frames@).len() == 0);
        }
        r
    }

    /// Counts one request against an endpoint.
    pub fn record_request(&mut self, endpoint: &String)
        requires
            old(self).wf(),
        ensures
            final(self).wf(),
            count_of(counter_entries(final(self).requests@), endpoint@) == sat_add64(
                count_of(counter_entries(old(self).requests@), endpoint@),
                1,
            ),
            final(self).errors == old(self).errors,
            final(self).bytes == old(self).bytes,
            final(self).frames == old(self).frames,
    {
        bump_counter(&mut self.requests, endpoint, 1);
    }

    /// Counts one error against an endpoint.
    pub fn record_error(&mut self, endpoint: &String)
        requires
            old(self).wf(),
        ensures
            final(self).wf(),
            count_of(counter_entries(final(self).errors@), endpoint@) == sat_add64(
                count_of(counter_entries(old(self).errors@), endpoint@),
                1,
            ),
            final(self).requests == old(self).requests,
            final(self).bytes == old(self).bytes,
            final(self).frames == old(self).frames,
    {
        bump_counter(&mut self.errors, endpoint, 1);
    }

    /// The total of all request counters, saturating.
    pub fn get_total_requests(&self) -> (r: u64)
        ensures
            r == sat_of(sum_of(counter_entries(self.requests@))),
    {
        sum_counters(&self.requests)
    }

    /// Accounts transferred bytes to a room.
    pub fn record_bytes(&mut self, room_id: String, bytes: u64)
        requires
            old(self).wf(),
        ensures
            final(self).wf(),
            count_of(counter_entries(final(self).bytes@), room_id@) == sat_add64(
                count_of(counter_entries(old(self).bytes@), room_id@),
                bytes,
            ),
            final(self).requests == old(self).requests,
            final(self).errors == old(self).errors,
            final(self).frames == old(self).frames,
    {
        bump_counter(&mut self.bytes, &room_id, bytes);
    }

    /// Accounts processed frames to a room.
    pub fn record_frames(&mut self, room_id: String, frames: u64)
        requires
            old(self).wf(),
        ensures
            final(self).wf(),
            count_of(counter_entries(final(self).frames@), room_id@) == sat_add64(
                count_of(counter_entries(old(self).frames@), room_id@),
                frames,
            ),
            final(self).requests == old(self).requests,
            final(self).errors == old(self).errors,
            final(self).bytes == old(self).bytes,
    {
        bump_counter(&mut self.frames, &room_id, frames);
    }

    /// Accounts errors to a room.
    pub fn record_errors(&mut self, room_id: String, count: u64)
        requires
            old(self).wf(),
        ensures
            final(self).wf(),
            count_of(counter_entries(final(self).errors@), room_id@) == sat_add64(
                count_of(counter_entries(old(self).errors@), room_id@),
                count,
            ),
            final(self).requests == old(self).requests,
            final(self).bytes == old(self).bytes,
            final(self).frames == old(self).frames,
    {
        bump_counter(&mut self.errors, &room_id, count);
    }

    /// The per-room rollup: bytes, frames, and errors recorded for it.
    pub fn get_room_metrics(&self, room_id: &String) -> (r: AppResult<RoomMetrics>)
        requires
            self.wf(),
        ensures
            r matches Ok(m) && m == (RoomMetrics {
                bytes_transferred: count_of(counter_entries(self.bytes@), room_id@),
                frames_processed: count_of(counter_entries(self.frames@), room_id@),
                error_count: count_of(counter_entries(self.errors@), room_id@),
            }),
    {
        Ok(
            RoomMetrics {
                bytes_transferred: read_counter(&self.bytes, room_id),
                frames_processed: read_counter(&self.frames, room_id),
                error_count: read_counter(&self.errors, room_id),
            },
        )
    }

    /// The whole-user rollup: how many rooms have processed frames, and
    /// the byte totals (storage and bandwidth both follow the byte
    /// counters).
    pub fn get_user_metrics(&self) -> (r: AppResult<UserMetrics>)
        requires
            self.wf(),
        ensures
            r matches Ok(m) && m == (UserMetrics {
                total_rooms: sat_of(self.frames@.len() as nat),
                total_storage: sat_of(sum_of(counter_entries(self.bytes@))),
                total_bandwidth: sat_of(sum_of(counter_entries(self.bytes@))),
            }),
    {
        let total = sum_counters(&self.bytes);
        Ok(
            UserMetrics {
                total_rooms: self.frames.len() as u64,
                total_storage: total,
                total_bandwidth: total,
            },
        )
    }
}

/// Per-room connection counters against a global per-room limit,
/// feeding the admission decision of the streaming endpoint.
pub struct ConnectionTracker {
    pub connections: Vec<(String, u32)>,
    pub max_connections: u32,
}

/// The association sequence a 32-bit keyed counter list denotes.
pub open spec fn conn_entries(s: Seq<(String, u32)>) -> Seq<(Seq<char>, u32)> {
    s.map_values(|p: (String, u32)| (p.0@, p.1))
}

/// The connection count stored under `k`, zero when absent.
pub open spec fn conn_count_of(s: Seq<(Seq<char>, u32)>, k: Seq<char>) -> u32 {
    if has_key(s, k) {
        value_of(s, k)
    } else {
        0
    }
}

impl ConnectionTracker {
    /// Well-formed: distinct room keys.
    pub open spec fn wf(self) -> bool {
        uniq_keys(conn_entries(self.connections@))
    }

    /// The tracked count for a room.
    pub open spec fn count(self, rid: Seq<char>) -> u32 {
        conn_count_of(conn_entries(self.connections@), rid)
    }

    /// A tracker with the default limit of 100 connections per room.
    pub fn new() -> (r: Self)
        ensures
            r.wf(),
            r.max_connections == 100,
            r.connections@.len() == 0,
    {
        let r = ConnectionTracker { connections: Vec::new(), max_connections: 100 };
        proof {
            assert(conn_entries(r.connections@).len() == 0);
        }
        r
    }

    /// A tracker with an explicit per-room limit.
    pub fn with_max_connections(max: u32) -> (r: Self)
        ensures
            r.wf(),
            r.max_connections == max,
            r.connections@.len() == 0,
    {
        let r = ConnectionTracker { connections: Vec::new(), max_connections: max };
        proof {
            assert(conn_entries(r.connections@).len() == 0);
        }
        r
    }

    /// The position of a room's counter.
    fn find_conn(&self, room_id: &String) -> (r: Option<usize>)
        ensures
            match r {
                Some(i) => i < self.connections@.len() && self.connections@[i as int].0@
                    == room_id@,
                None => !has_key(conn_entries(self.connections@), room_id@),
            },
    {
        let n = self.connections.len();
        let mut i: usize = 0;
        while i < n
            invariant
                n == self.connections@.len(),
                i <= n,
                forall|j: int| 0 <= j < i ==> (#[trigger] self.connections@[j]).0@ != room_id@,
            decreases n - i,
        {
            if self.connections[i].0 == *room_id {
                return Some(i);
            }
            i = i + 1;
        }
        proof {
            let es = conn_entries(self.connections@);
            assert forall|j: int| 0 <= j < es.len() implies (#[trigger] es[j]).0 != room_id@ by {
                assert(es[j] == (self.connections@[j].0@, self.connections@[j].1));
            }
        }
        None
    }

    /// Whether the room is still under the limit.
    pub fn check_limits(&self, room_id: &String) -> (r: bool)
        requires
            self.wf(),
        ensures
            r == (self.count(room_id@) < self.max_connections),
    {
        match self.find_conn(room_id) {
            Some(i) => {
                proof {
                    lemma_key_at(conn_entries(self.connections@), room_id@, i as int);
                    assert(conn_entries(self.connections@)[i as int] == (
                        self.connections@[i as int].0@,
                        self.connections@[i as int].1,
                    ));
                }
                self.connections[i].1 < self.max_connections
            },
            None => 0 < self.max_connections,
        }
    }

    /// Counts one more connection for the room (saturating).
    pub fn add_connection(&mut self, room_id: &String)
        requires
            old(self).wf(),
        ensures
            final(self).wf(),
            final(self).max_connections == old(self).max_connections,
            final(self).count(room_id@) == sat_inc32(old(self).count(room_id@)),
            forall|rid: Seq<char>|
                rid != room_id@ ==> #[trigger] final(self).count(rid) == old(self).count(rid),
    {
        match self.find_conn(room_id) {
            Some(i) => {
                proof {
                    lemma_key_at(conn_entries(self.connections@), room_id@, i as int);
                    assert(conn_entries(self.connections@)[i as int] == (
                        self.connections@[i as int].0@,
                        self.connections@[i as int].1,
                    ));
                }
                let ghost pre = conn_entries(self.connections@);
                let e = vec_index_mut(&mut self.connections, i);
                if e.1 < u32::MAX {
                    e.1 = e.1 + 1;
                }
                proof {
                    let ne = self.connections@[i as int];
                    let upd = pre.update(i as int, (pre[i as int].0, ne.1));
                    assert(conn_entries(self.connections@) =~= upd);
                    lemma_update_val(pre, i as int, ne.1);
                    lemma_key_at(conn_entries(self.connections@), room_id@, i as int);
                    assert(conn_entries(self.connections@)[i as int] == (ne.0@, ne.1));
                    assert forall|rid: Seq<char>| rid != room_id@ implies #[trigger] self.count(rid)
                        == old(self).count(rid) by {
                        assert(has_key(upd, rid) == has_key(pre, rid));
                        if has_key(pre, rid) {
                            assert(value_of(upd, rid) == value_of(pre, rid));
                        }
                    }
                }
            },
            None => {
                let entry = (room_id.clone(), 1u32);
                let ghost gentry = entry;
                let ghost pre = conn_entries(self.connections@);
                self.connections.push(entry);
                proof {
                    assert(conn_entries(self.connections@) =~= pre.push((gentry.0@, gentry.1)));
                    lemma_push_new(pre, gentry.0@, gentry.1);
                    assert forall|rid: Seq<char>| rid != room_id@ implies #[trigger] self.count(rid)
                        == old(self).count(rid) by {
                        if has_key(pre, rid) {
                            assert(value_of(conn_entries(self.connections@), rid) == value_of(
                                pre,
                                rid,
                            ));
                        }
                    }
                }
            },
        }
    }

    /// Lets one connection of the room go; the count never drops below
    /// zero, and untracked rooms stay untracked.
    pub fn remove_connection(&mut self, room_id: &String)
        requires
            old(self).wf(),
        ensures
            final(self).wf(),
            final(self).max_connections == old(self).max_connections,
            final(self).count(room_id@) == if old(self).count(room_id@) > 0 {
                (old(self).count(room_id@) - 1) as u32
            } else {
                0
            },
            forall|rid: Seq<char>|
                rid != room_id@ ==> #[trigger] final(self).count(rid) == old(self).count(rid),
    {
        match self.find_conn(room_id) {
            Some(i) => {
                proof {
                    lemma_key_at(conn_entries(self.connections@), room_id@, i as int);
                    assert(conn_entries(self.connections@)[i as int] == (
                        self.connections@[i as int].0@,
                        self.connections@[i as int].1,
                    ));
                }
                let ghost pre = conn_entries(self.connections@);
                let e = vec_index_mut(&mut self.connections, i);
                if e.1 > 0 {
                    e.1 = e.1 - 1;
                }
                proof {
                    let ne = self.connections@[i as int];
                    let upd = pre.update(i as int, (pre[i as int].0, ne.1));
                    assert(conn_entries(self.connections@) =~= upd);
                    lemma_update_val(pre, i as int, ne.1);
                    lemma_key_at(conn_entries(self.connections@), room_id@, i as int);
                    assert(conn_entries(self.connections@)[i as int] == (ne.0@, ne.1));
                    assert forall|rid: Seq<char>| rid != room_id@ implies #[trigger] self.count(rid)
                        == old(self).count(rid) by {
                        assert(has_key(upd, rid) == has_key(pre, rid));
                        if has_key(pre, rid) {
                            assert(value_of(upd, rid) == value_of(pre, rid));
                        }
                    }
                }
            },
            None => {},
        }
    }

    /// The tracked count for a room, zero when untracked.
    pub fn get_connection_count(&self, room_id: &String) -> (r: u32)
        requires
            self.wf(),
        ensures
            r == self.count(room_id@),
    {
        match self.find_conn(room_id) {
            Some(i) => {
                proof {
                    lemma_key_at(conn_entries(self.connections@), room_id@, i as int);
                    assert(conn_entries(self.connections@)[i as int] == (
                        self.connections@[i as int].0@,
                        self.connections@[i as int].1,
                    ));
                }
                self.connections[i].1
            },
            None => 0,
        }
    }
}

/// How long, in seconds, between forced allocator-trim passes.
pub const GC_INTERVAL_SECS: i64 = 3600;

/// The periodic trim loop's decision: whether enough time has passed
/// since the last pass. The loop itself (timer and allocator call) runs
/// in the application.
pub fn gc_due(last_gc: i64, now: i64) -> (r: bool)
    requires
        last_gc >= 0,
        now >= 0,
    ensures
        r == (now - last_gc > GC_INTERVAL_SECS),
{
    now - last_gc > GC_INTERVAL_SECS
}

/// A log severity, highest first.
#[derive(Debug, Clone, Copy, PartialEq, Eq, Structural)]
pub enum LogLevel {
    Error,
    Warn,
    Info,
    Debug,
    Trace,
}

/// The subsystem a log line comes from, as far as the filter cares.
#[derive(Debug, Clone, Copy, PartialEq, Eq, Structural)]
pub enum LogModule {
    Stream,
    Metrics,
    Auth,
    Storage,
    Other,
}

/// The filter's rule: errors and warnings always pass; info is rate
/// limited away for the high-volume stream and metrics modules; debug
/// and trace pass only for auth and storage.
pub open spec fn should_log_spec(level: LogLevel, module: LogModule) -> bool {
    match level {
        LogLevel::Error | LogLevel::Warn => true,
        LogLevel::Info => !(module is Stream || module is Metrics),
        LogLevel::Debug | LogLevel::Trace => module is Auth || module is Storage,
    }
}

/// Decides whether a log line at this level from this module is kept.
pub fn should_log(level: LogLevel, module: LogModule) -> (r: bool)
    ensures
        r == should_log_spec(level, module),
{
    match level {
        LogLevel::Error | LogLevel::Warn => true,
        LogLevel::Info => match module {
            LogModule::Stream | LogModule::Metrics => false,
            _ => true,
        },
        LogLevel::Debug | LogLevel::Trace => match module {
            LogModule::Auth | LogModule::Storage => true,
            _ => false,
        },
    }
}

} // verus!
