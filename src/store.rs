//! The persisted state that the engine reads and changes: backends, rooms,
//! rtcs, streams, recordings, agent connections, agent presence and the
//! tracking rows of orphaned rooms. Rows are kept in insertion order, so the
//! most recent row of a kind is the last one.
use vstd::prelude::*;
use crate::ids::{HandleId, SessionId};

verus! {

/// A media backend, registered once its session and control handle exist.
pub struct Backend {
    pub id: String,
    pub session_id: SessionId,
    pub handle_id: HandleId,
    pub capacity: Option<i32>,
    pub balancer_capacity: Option<i32>,
    pub group: Option<String>,
}

#[derive(Clone, Copy, Debug, PartialEq, Eq, Structural)]
pub enum SharingPolicy {
    /// No rtc of the room is shared.
    NotShared,
    Shared,
    Owned,
}

/// A room. A missing bound is unbounded.
pub struct Room {
    pub id: u128,
    pub opened_at: Option<i64>,
    pub closed_at: Option<i64>,
    pub audience: String,
    pub sharing_policy: SharingPolicy,
    pub host: Option<String>,
    pub classroom_id: Option<u128>,
    /// The backend that holds the room's media.
    pub backend_id: Option<String>,
    pub timed_out: bool,
}

/// One publisher or subscriber unit of a room.
pub struct Rtc {
    pub id: u128,
    pub room_id: u128,
    pub created_by: String,
}

/// The media path of one publisher through a backend handle.
pub struct Stream {
    pub id: u128,
    pub backend_id: String,
    pub handle_id: HandleId,
    pub rtc_id: u128,
    pub started_at: Option<i64>,
    pub stopped_at: Option<i64>,
}

#[derive(Clone, Copy, Debug, PartialEq, Eq, Structural)]
pub enum RecordingStatus {
    InProgress,
    Ready,
    Missing,
}

pub struct Recording {
    pub rtc_id: u128,
    pub status: RecordingStatus,
    pub started_at: Option<i64>,
    pub segments: Option<Vec<(i64, i64)>>,
    pub mjr_dumps_uris: Option<Vec<String>>,
}

/// An agent attached to a handle of a backend on behalf of a room.
pub struct AgentConnection {
    pub agent_id: String,
    pub room_id: u128,
    pub backend_id: String,
    pub handle_id: HandleId,
}

/// An agent present in a room.
#[derive(Debug)]
pub struct AgentPresence {
    pub agent_id: String,
    pub room_id: u128,
}

/// A room whose occupancy lapsed; it is closed once the deadline is past.
#[derive(Clone, Copy, Debug, PartialEq, Eq, Structural)]
pub struct OrphanedRoom {
    pub room_id: u128,
    pub deadline: i64,
}

/// Why a row was refused.
#[derive(Clone, Copy, Debug, PartialEq, Eq, Structural)]
pub enum StoreError {
    Duplicate,
    MissingReference,
    InvalidTimes,
}

impl Stream {
    /// A stream has a recorded start and no recorded stop.
    pub open spec fn is_active(&self) -> bool {
        self.started_at is Some && self.stopped_at is None
    }

    /// A stop is only ever recorded after a start, and never before it.
    pub open spec fn times_valid(&self) -> bool {
        match self.stopped_at {
            Some(t) => self.started_at matches Some(s) && s <= t,
            None => true,
        }
    }

    pub fn duplicate(&self) -> (r: Stream)
        ensures
            r == *self,
    {
        Stream {
            id: self.id,
            backend_id: self.backend_id.clone(),
            handle_id: self.handle_id,
            rtc_id: self.rtc_id,
            started_at: self.started_at,
            stopped_at: self.stopped_at,
        }
    }
}

impl Room {
    /// The room has a close bound that is not after `now`.
    pub open spec fn closed_at_time(&self, now: i64) -> bool {
        self.closed_at matches Some(t) && t <= now
    }

    pub fn is_closed(&self, now: i64) -> (r: bool)
        ensures
            r == self.closed_at_time(now),
    {
        match self.closed_at {
            Some(t) => t <= now,
            None => false,
        }
    }

    pub fn duplicate(&self) -> (r: Room)
        ensures
            r == *self,
    {
        Room {
            id: self.id,
            opened_at: self.opened_at,
            closed_at: self.closed_at,
            audience: self.audience.clone(),
            sharing_policy: self.sharing_policy,
            host: match &self.host {
                Some(h) => Some(h.clone()),
                None => None,
            },
            classroom_id: self.classroom_id,
            backend_id: match &self.backend_id {
                Some(b) => Some(b.clone()),
                None => None,
            },
            timed_out: self.timed_out,
        }
    }
}

/// A recording with a new status and, when given, its start, segments and
/// raw dump locations.
pub open spec fn updated_recording(
    rec: Recording,
    status: RecordingStatus,
    results: Option<(i64, Vec<(i64, i64)>, Option<Vec<String>>)>,
) -> Recording {
    match results {
        Some((started_at, segments, dumps)) => Recording {
            status,
            started_at: Some(started_at),
            segments: Some(segments),
            mjr_dumps_uris: dumps,
            ..rec
        },
        None => Recording { status, ..rec },
    }
}

pub open spec fn same_handle(a: Stream, b: Stream) -> bool {
    a.backend_id@ == b.backend_id@ && a.handle_id == b.handle_id
}

/// A stream of the handle that has not stopped yet.
pub open spec fn unstopped_on(backend_id: Seq<char>, handle_id: HandleId) -> spec_fn(Stream) -> bool {
    |s: Stream| s.backend_id@ == backend_id && s.handle_id == handle_id && s.stopped_at is None
}

/// Per backend handle, at most one stream has not stopped: the handle's
/// stream goes from not started to started to stopped, one at a time.
pub open spec fn one_open_stream_per_handle(s: Seq<Stream>) -> bool {
    forall|i: int, j: int|
        0 <= i < j < s.len() && s[i].stopped_at is None && s[j].stopped_at is None ==> !same_handle(
            #[trigger] s[i],
            #[trigger] s[j],
        )
}

/// Stopping streams, or changing anything but their handle and their stop,
/// keeps at most one open stream per handle.
pub proof fn lemma_open_streams_shrink(s: Seq<Stream>, t: Seq<Stream>)
    requires
        one_open_stream_per_handle(s),
        t.len() == s.len(),
        forall|k: int|
            0 <= k < t.len() ==> same_handle(#[trigger] t[k], s[k]) && (t[k].stopped_at is None ==> s[k].stopped_at
                is None),
    ensures
        one_open_stream_per_handle(t),
{
    assert forall|i: int, j: int|
        0 <= i < j < t.len() && t[i].stopped_at is None && t[j].stopped_at is None implies !same_handle(
            #[trigger] t[i],
            #[trigger] t[j],
        ) by {
        assert(same_handle(t[i], s[i]) && same_handle(t[j], s[j]));
        assert(!same_handle(s[i], s[j]));
    }
}

/// No two tracking rows are for the same room.
pub open spec fn orphans_unique(os: Seq<OrphanedRoom>) -> bool {
    forall|i: int, j: int| 0 <= i < j < os.len() ==> #[trigger] os[i].room_id != #[trigger] os[j].room_id
}

/// Keeping some tracking rows keeps them unique.
pub proof fn lemma_filter_orphans_unique(os: Seq<OrphanedRoom>, p: spec_fn(OrphanedRoom) -> bool)
    requires
        orphans_unique(os),
    ensures
        orphans_unique(os.filter(p)),
    decreases os.len(),
{
    reveal(Seq::filter);
    if os.len() > 0 {
        let d = os.drop_last();
        assert(orphans_unique(d)) by {
            assert forall|i: int, j: int| 0 <= i < j < d.len() implies #[trigger] d[i].room_id
                != #[trigger] d[j].room_id by {
                assert(d[i] == os[i] && d[j] == os[j]);
            }
        }
        lemma_filter_orphans_unique(d, p);
        let f = d.filter(p);
        if p(os.last()) {
            let g = f.push(os.last());
            assert(os.filter(p) == g);
            assert forall|i: int, j: int| 0 <= i < j < g.len() implies #[trigger] g[i].room_id
                != #[trigger] g[j].room_id by {
                if j == f.len() {
                    assert(f.contains(f[i]));
                    d.lemma_filter_contains_rev(p, f[i]);
                    let a = choose|a: int| 0 <= a < d.len() && d[a] == f[i];
                    assert(os[a] == d[a]);
                    assert(os[a].room_id != os[os.len() - 1].room_id);
                } else {
                    assert(g[i] == f[i] && g[j] == f[j]);
                }
            }
        }
    }
}

pub struct StoreView {
    pub backends: Seq<Backend>,
    pub rooms: Seq<Room>,
    pub rtcs: Seq<Rtc>,
    pub streams: Seq<Stream>,
    pub recordings: Seq<Recording>,
    pub connections: Seq<AgentConnection>,
    pub presences: Seq<AgentPresence>,
    pub orphans: Seq<OrphanedRoom>,
}

/// The index of the last element that satisfies `f`.
pub open spec fn last_match<T>(s: Seq<T>, f: spec_fn(T) -> bool) -> Option<int>
    decreases s.len(),
{
    if s.len() == 0 {
        None
    } else if f(s.last()) {
        Some(s.len() - 1)
    } else {
        last_match(s.drop_last(), f)
    }
}

pub proof fn lemma_last_match_step<T>(s: Seq<T>, f: spec_fn(T) -> bool, i: int)
    requires
        0 <= i < s.len(),
    ensures
        last_match(s.subrange(0, i + 1), f) == if f(s[i]) {
            Some(i)
        } else {
            last_match(s.subrange(0, i), f)
        },
{
    assert(s.subrange(0, i + 1).drop_last() =~= s.subrange(0, i));
}

pub proof fn lemma_last_match_facts<T>(s: Seq<T>, f: spec_fn(T) -> bool)
    ensures
        match last_match(s, f) {
            Some(i) => 0 <= i < s.len() && f(s[i]) && forall|j: int| i < j < s.len() ==> !f(s[j]),
            None => forall|j: int| 0 <= j < s.len() ==> !f(s[j]),
        },
    decreases s.len(),
{
    if s.len() > 0 {
        lemma_last_match_facts(s.drop_last(), f);
        assert(forall|j: int| 0 <= j < s.len() - 1 ==> s.drop_last()[j] == s[j]);
    }
}

/// The room of an rtc.
pub open spec fn rtc_with_id(rtc_id: u128) -> spec_fn(Rtc) -> bool {
    |r: Rtc| r.id == rtc_id
}

pub open spec fn rtc_room(rtcs: Seq<Rtc>, rtc_id: u128) -> Option<u128> {
    match last_match(rtcs, rtc_with_id(rtc_id)) {
        Some(i) => Some(rtcs[i].room_id),
        None => None,
    }
}

impl StoreView {
    /// Every stream and recording belongs to a known rtc, streams have valid
    /// times, a backend handle has at most one stream that has not stopped,
    /// and room, rtc, recording and tracking rows are unique by their keys.
    pub open spec fn wf(&self) -> bool {
        &&& forall|i: int|
            0 <= i < self.streams.len() ==> #[trigger] rtc_room(self.rtcs, self.streams[i].rtc_id)
                is Some && self.streams[i].times_valid()
        &&& forall|i: int, j: int|
            0 <= i < j < self.rooms.len() ==> #[trigger] self.rooms[i].id != #[trigger] self.rooms[j].id
        &&& forall|i: int, j: int|
            0 <= i < j < self.rtcs.len() ==> #[trigger] self.rtcs[i].id != #[trigger] self.rtcs[j].id
        &&& forall|i: int|
            0 <= i < self.recordings.len() ==> #[trigger] rtc_room(self.rtcs, self.recordings[i].rtc_id)
                is Some
        &&& forall|i: int, j: int|
            0 <= i < j < self.recordings.len() ==> #[trigger] self.recordings[i].rtc_id
                != #[trigger] self.recordings[j].rtc_id
        &&& orphans_unique(self.orphans)
        &&& one_open_stream_per_handle(self.streams)
    }
}

pub struct Store {
    pub(crate) backends: Vec<Backend>,
    pub(crate) rooms: Vec<Room>,
    pub(crate) rtcs: Vec<Rtc>,
    pub(crate) streams: Vec<Stream>,
    pub(crate) recordings: Vec<Recording>,
    pub(crate) connections: Vec<AgentConnection>,
    pub(crate) presences: Vec<AgentPresence>,
    pub(crate) orphans: Vec<OrphanedRoom>,
}

impl View for Store {
    type V = StoreView;

    closed spec fn view(&self) -> StoreView {
        StoreView {
            backends: self.backends@,
            rooms: self.rooms@,
            rtcs: self.rtcs@,
            streams: self.streams@,
            recordings: self.recordings@,
            connections: self.connections@,
            presences: self.presences@,
            orphans: self.orphans@,
        }
    }
}

impl Store {
    pub fn new() -> (r: Store)
        ensures
            r@.wf(),
            r@.backends.len() == 0,
            r@.rooms.len() == 0,
            r@.rtcs.len() == 0,
            r@.streams.len() == 0,
            r@.recordings.len() == 0,
            r@.connections.len() == 0,
            r@.presences.len() == 0,
            r@.orphans.len() == 0,
    {
        Store {
            backends: Vec::new(),
            rooms: Vec::new(),
            rtcs: Vec::new(),
            streams: Vec::new(),
            recordings: Vec::new(),
            connections: Vec::new(),
            presences: Vec::new(),
            orphans: Vec::new(),
        }
    }

    pub fn backends(&self) -> (r: &Vec<Backend>)
        ensures
            r@ == self@.backends,
    {
        &self.backends
    }

    pub fn rooms(&self) -> (r: &Vec<Room>)
        ensures
            r@ == self@.rooms,
    {
        &self.rooms
    }

    pub fn rtcs(&self) -> (r: &Vec<Rtc>)
        ensures
            r@ == self@.rtcs,
    {
        &self.rtcs
    }

    pub fn streams(&self) -> (r: &Vec<Stream>)
        ensures
            r@ == self@.streams,
    {
        &self.streams
    }

    pub fn recordings(&self) -> (r: &Vec<Recording>)
        ensures
            r@ == self@.recordings,
    {
        &self.recordings
    }

    pub fn connections(&self) -> (r: &Vec<AgentConnection>)
        ensures
            r@ == self@.connections,
    {
        &self.connections
    }

    pub fn presences(&self) -> (r: &Vec<AgentPresence>)
        ensures
            r@ == self@.presences,
    {
        &self.presences
    }

    pub fn orphans(&self) -> (r: &Vec<OrphanedRoom>)
        ensures
            r@ == self@.orphans,
    {
        &self.orphans
    }
}


impl Store {
    pub(crate) fn set_stream(&mut self, i: usize, st: Stream)
        requires
            i < old(self)@.streams.len(),
        ensures
            final(self)@ == (StoreView { streams: old(self)@.streams.update(i as int, st), ..old(self)@ }),
    {
        self.streams.set(i, st);
    }

    pub(crate) fn set_room(&mut self, i: usize, room: Room)
        requires
            i < old(self)@.rooms.len(),
        ensures
            final(self)@ == (StoreView { rooms: old(self)@.rooms.update(i as int, room), ..old(self)@ }),
    {
        self.rooms.set(i, room);
    }

    /// Changes the status of a recording, and its results when given.
    pub(crate) fn update_recording(
        &mut self,
        i: usize,
        status: RecordingStatus,
        results: Option<(i64, Vec<(i64, i64)>, Option<Vec<String>>)>,
    )
        requires
            i < old(self)@.recordings.len(),
        ensures
            final(self)@ == (StoreView {
                recordings: old(self)@.recordings.update(
                    i as int,
                    updated_recording(old(self)@.recordings[i as int], status, results),
                ),
                ..old(self)@
            }),
    {
        let mut v: Vec<Recording> = Vec::new();
        std::mem::swap(&mut self.recordings, &mut v);
        let ghost orig = v@;
        let rec = v.remove(i);
        let new_rec = match results {
            Some((started_at, segments, dumps)) => Recording {
                rtc_id: rec.rtc_id,
                status,
                started_at: Some(started_at),
                segments: Some(segments),
                mjr_dumps_uris: dumps,
            },
            None => Recording { status, ..rec },
        };
        v.insert(i, new_rec);
        proof {
            assert(v@ =~= orig.update(i as int, updated_recording(orig[i as int], status, results)));
        }
        self.recordings = v;
    }

    /// Removes every agent connection of a room.
    pub(crate) fn disconnect_room(&mut self, room_id: u128)
        ensures
            final(self)@ == (StoreView { connections: old(self)@.connections.filter(conn_outside_room(room_id)), ..old(self)@ }),
    {
        retain(
            &mut self.connections,
            |c: &AgentConnection| -> (b: bool) ensures b == (c.room_id != room_id) { c.room_id != room_id },
            Ghost(conn_outside_room(room_id)),
        );
    }

    /// Removes every agent connection on a backend.
    pub(crate) fn disconnect_backend(&mut self, backend_id: &String)
        ensures
            final(self)@ == (StoreView { connections: old(self)@.connections.filter(conn_off_backend(backend_id@)), ..old(self)@ }),
    {
        retain(
            &mut self.connections,
            |c: &AgentConnection| -> (b: bool) ensures b == (c.backend_id@ != backend_id@) { !(c.backend_id == *backend_id) },
            Ghost(conn_off_backend(backend_id@)),
        );
    }

    /// Removes every row of a backend.
    pub(crate) fn delete_backend(&mut self, backend_id: &String)
        ensures
            final(self)@ == (StoreView { backends: old(self)@.backends.filter(backend_other_than(backend_id@)), ..old(self)@ }),
    {
        retain(
            &mut self.backends,
            |x: &Backend| -> (b: bool) ensures b == (x.id@ != backend_id@) { !(x.id == *backend_id) },
            Ghost(backend_other_than(backend_id@)),
        );
    }

    /// Removes every presence row of a room.
    pub(crate) fn remove_presences(&mut self, room_id: u128)
        ensures
            final(self)@ == (StoreView { presences: old(self)@.presences.filter(presence_outside_room(room_id)), ..old(self)@ }),
    {
        retain(
            &mut self.presences,
            |a: &AgentPresence| -> (b: bool) ensures b == (a.room_id != room_id) { a.room_id != room_id },
            Ghost(presence_outside_room(room_id)),
        );
    }

    /// Removes the tracking rows of these rooms.
    pub(crate) fn remove_orphans(&mut self, ids: &Vec<u128>)
        ensures
            final(self)@ == (StoreView {
                orphans: old(self)@.orphans.filter(orphan_not_listed(ids@)),
                ..old(self)@
            }),
    {
        retain(
            &mut self.orphans,
            |o: &OrphanedRoom| -> (b: bool) ensures b == !ids@.contains(o.room_id) { !contains_id(ids, o.room_id) },
            Ghost(orphan_not_listed(ids@)),
        );
    }
}

/// Keeps the elements that pass `keep`, which decides `p`, in order.
pub(crate) fn retain<T, F: Fn(&T) -> bool>(v: &mut Vec<T>, keep: F, Ghost(p): Ghost<spec_fn(T) -> bool>)
    requires
        forall|x: &T| #[trigger] keep.requires((x,)),
        forall|x: &T, b: bool| keep.ensures((x,), b) ==> b == p(*x),
    ensures
        final(v)@ == old(v)@.filter(p),
{
    let ghost orig = v@;
    let mut i: usize = v.len();
    while i > 0
        invariant
            i <= orig.len(),
            forall|x: &T| #[trigger] keep.requires((x,)),
            forall|x: &T, b: bool| keep.ensures((x,), b) ==> b == p(*x),
            v@ == partly_filtered(orig, i as int, p),
        decreases i,
    {
        proof {
            lemma_partly_filtered_step(orig, p, i as int);
            assert(v@[i - 1] == orig[i - 1]);
        }
        if !keep(&v[i - 1]) {
            v.remove(i - 1);
        }
        i = i - 1;
    }
    proof {
        assert(orig.subrange(0, orig.len() as int) =~= orig);
        assert(v@ =~= orig.filter(p));
    }
}

pub fn contains_id(ids: &Vec<u128>, id: u128) -> (r: bool)
    ensures
        r == ids@.contains(id),
{
    let mut i: usize = 0;
    while i < ids.len()
        invariant
            i <= ids@.len(),
            forall|j: int| 0 <= j < i ==> ids@[j] != id,
        decreases ids@.len() - i,
    {
        if ids[i] == id {
            return true;
        }
        i = i + 1;
    }
    false
}

pub open spec fn conn_outside_room(room_id: u128) -> spec_fn(AgentConnection) -> bool {
    |c: AgentConnection| c.room_id != room_id
}

pub open spec fn conn_off_backend(backend_id: Seq<char>) -> spec_fn(AgentConnection) -> bool {
    |c: AgentConnection| c.backend_id@ != backend_id
}

pub open spec fn backend_other_than(backend_id: Seq<char>) -> spec_fn(Backend) -> bool {
    |b: Backend| b.id@ != backend_id
}

pub open spec fn presence_outside_room(room_id: u128) -> spec_fn(AgentPresence) -> bool {
    |a: AgentPresence| a.room_id != room_id
}

pub open spec fn orphan_not_listed(ids: Seq<u128>) -> spec_fn(OrphanedRoom) -> bool {
    |o: OrphanedRoom| !ids.contains(o.room_id)
}

/// The first `i` elements as they were, the rest filtered.
pub open spec fn partly_filtered<T>(s: Seq<T>, i: int, p: spec_fn(T) -> bool) -> Seq<T> {
    s.subrange(0, i) + s.subrange(i, s.len() as int).filter(p)
}

pub proof fn lemma_partly_filtered_step<T>(s: Seq<T>, p: spec_fn(T) -> bool, i: int)
    requires
        0 < i <= s.len(),
    ensures
        partly_filtered(s, i - 1, p) == if p(s[i - 1]) {
            partly_filtered(s, i, p)
        } else {
            partly_filtered(s, i, p).remove(i - 1)
        },
{
    lemma_filter_back_step(s, p, i);
    let f = s.subrange(i, s.len() as int).filter(p);
    if p(s[i - 1]) {
        assert(partly_filtered(s, i - 1, p) =~= partly_filtered(s, i, p));
    } else {
        assert(partly_filtered(s, i - 1, p) =~= partly_filtered(s, i, p).remove(i - 1));
    }
}

pub proof fn lemma_filter_back_step<T>(s: Seq<T>, p: spec_fn(T) -> bool, i: int)
    requires
        0 < i <= s.len(),
    ensures
        s.subrange(i - 1, s.len() as int).filter(p) == (if p(s[i - 1]) {
            seq![s[i - 1]]
        } else {
            Seq::<T>::empty()
        }) + s.subrange(i, s.len() as int).filter(p),
{
    assert(s.subrange(i - 1, s.len() as int) =~= seq![s[i - 1]] + s.subrange(i, s.len() as int));
    s.subrange(i, s.len() as int).lemma_filter_prepend(s[i - 1], p);
}

pub open spec fn room_with_id(room_id: u128) -> spec_fn(Room) -> bool {
    |r: Room| r.id == room_id
}

pub open spec fn recording_of_rtc(rtc_id: u128) -> spec_fn(Recording) -> bool {
    |r: Recording| r.rtc_id == rtc_id
}

pub fn find_room(rooms: &Vec<Room>, room_id: u128) -> (r: Option<usize>)
    ensures
        match last_match(rooms@, room_with_id(room_id)) {
            Some(i) => r matches Some(k) && k as int == i,
            None => r is None,
        },
{
    find_last(rooms, |x: &Room| -> (b: bool) ensures b == (x.id == room_id) { x.id == room_id }, Ghost(room_with_id(room_id)))
}

pub fn find_recording(recordings: &Vec<Recording>, rtc_id: u128) -> (r: Option<usize>)
    ensures
        match last_match(recordings@, recording_of_rtc(rtc_id)) {
            Some(i) => r matches Some(k) && k as int == i,
            None => r is None,
        },
{
    find_last(
        recordings,
        |x: &Recording| -> (b: bool) ensures b == (x.rtc_id == rtc_id) { x.rtc_id == rtc_id },
        Ghost(recording_of_rtc(rtc_id)),
    )
}

impl Store {
    /// Inserts or replaces the row of a backend.
    pub fn upsert_backend(&mut self, backend: Backend)
        requires
            old(self)@.wf(),
        ensures
            final(self)@ == (StoreView {
                backends: old(self)@.backends.filter(backend_other_than(backend.id@)).push(backend),
                ..old(self)@
            }),
            final(self)@.wf(),
    {
        self.delete_backend(&backend.id);
        self.backends.push(backend);
    }

    /// Inserts a room; a room with the same id is refused.
    pub fn insert_room(&mut self, room: Room) -> (r: Result<(), StoreError>)
        requires
            old(self)@.wf(),
        ensures
            final(self)@.wf(),
            match last_match(old(self)@.rooms, room_with_id(room.id)) {
                Some(_) => r == Err::<(), StoreError>(StoreError::Duplicate) && final(self)@ == old(self)@,
                None => r is Ok && final(self)@ == (StoreView { rooms: old(self)@.rooms.push(room), ..old(self)@ }),
            },
    {
        proof {
            lemma_last_match_facts(self@.rooms, room_with_id(room.id));
        }
        match find_room(&self.rooms, room.id) {
            Some(_) => Err(StoreError::Duplicate),
            None => {
                self.rooms.push(room);
                Ok(())
            },
        }
    }

    /// Inserts an rtc of a known room; a known rtc id is refused.
    pub fn insert_rtc(&mut self, rtc: Rtc) -> (r: Result<(), StoreError>)
        requires
            old(self)@.wf(),
        ensures
            final(self)@.wf(),
            if last_match(old(self)@.rtcs, rtc_with_id(rtc.id)) is Some {
                r == Err::<(), StoreError>(StoreError::Duplicate) && final(self)@ == old(self)@
            } else if last_match(old(self)@.rooms, room_with_id(rtc.room_id)) is None {
                r == Err::<(), StoreError>(StoreError::MissingReference) && final(self)@ == old(self)@
            } else {
                r is Ok && final(self)@ == (StoreView { rtcs: old(self)@.rtcs.push(rtc), ..old(self)@ })
            },
    {
        let ghost v = self@;
        proof {
            lemma_last_match_facts(v.rtcs, rtc_with_id(rtc.id));
        }
        if find_rtc(&self.rtcs, rtc.id).is_some() {
            return Err(StoreError::Duplicate);
        }
        if find_room(&self.rooms, rtc.room_id).is_none() {
            return Err(StoreError::MissingReference);
        }
        self.rtcs.push(rtc);
        proof {
            let w = self@;
            assert forall|x: u128| rtc_room(v.rtcs, x) is Some implies rtc_room(w.rtcs, x) == rtc_room(
                v.rtcs,
                x,
            ) by {
                lemma_last_match_facts(v.rtcs, rtc_with_id(x));
                assert(w.rtcs.drop_last() =~= v.rtcs);
            }
            assert forall|i: int| 0 <= i < w.streams.len() implies #[trigger] rtc_room(
                w.rtcs,
                w.streams[i].rtc_id,
            ) is Some && w.streams[i].times_valid() by {
                assert(rtc_room(v.rtcs, v.streams[i].rtc_id) is Some);
            }
            assert forall|i: int| 0 <= i < w.recordings.len() implies #[trigger] rtc_room(
                w.rtcs,
                w.recordings[i].rtc_id,
            ) is Some by {
                assert(rtc_room(v.rtcs, v.recordings[i].rtc_id) is Some);
            }
        }
        Ok(())
    }

    /// Inserts a stream of a known rtc with valid times.
    pub fn insert_stream(&mut self, stream: Stream) -> (r: Result<(), StoreError>)
        requires
            old(self)@.wf(),
        ensures
            final(self)@.wf(),
            if rtc_room(old(self)@.rtcs, stream.rtc_id) is None {
                r == Err::<(), StoreError>(StoreError::MissingReference) && final(self)@ == old(self)@
            } else if !stream.times_valid() {
                r == Err::<(), StoreError>(StoreError::InvalidTimes) && final(self)@ == old(self)@
            } else if stream.stopped_at is None && last_match(
                old(self)@.streams,
                unstopped_on(stream.backend_id@, stream.handle_id),
            ) is Some {
                r == Err::<(), StoreError>(StoreError::Duplicate) && final(self)@ == old(self)@
            } else {
                r is Ok && final(self)@ == (StoreView { streams: old(self)@.streams.push(stream), ..old(self)@ })
            },
    {
        proof {
            lemma_last_match_facts(self@.rtcs, rtc_with_id(stream.rtc_id));
        }
        if find_rtc(&self.rtcs, stream.rtc_id).is_none() {
            return Err(StoreError::MissingReference);
        }
        let valid = match stream.stopped_at {
            Some(t) => match stream.started_at {
                Some(s) => s <= t,
                None => false,
            },
            None => true,
        };
        if !valid {
            return Err(StoreError::InvalidTimes);
        }
        if stream.stopped_at.is_none() {
            let open = find_last(
                &self.streams,
                |s: &Stream| -> (b: bool) ensures b == (s.backend_id@ == stream.backend_id@ && s.handle_id == stream.handle_id && s.stopped_at is None) { s.backend_id == stream.backend_id && s.handle_id == stream.handle_id && s.stopped_at.is_none() },
                Ghost(unstopped_on(stream.backend_id@, stream.handle_id)),
            );
            if open.is_some() {
                return Err(StoreError::Duplicate);
            }
        }
        let ghost before = self@.streams;
        proof {
            lemma_last_match_facts(before, unstopped_on(stream.backend_id@, stream.handle_id));
        }
        self.streams.push(stream);
        proof {
            let t = self@.streams;
            assert forall|i: int, j: int|
                0 <= i < j < t.len() && t[i].stopped_at is None && t[j].stopped_at is None implies !same_handle(
                    #[trigger] t[i],
                    #[trigger] t[j],
                ) by {
                if j == before.len() {
                    assert(t[i] == before[i]);
                    assert(!unstopped_on(stream.backend_id@, stream.handle_id)(before[i]));
                } else {
                    assert(t[i] == before[i] && t[j] == before[j]);
                }
            }
        }
        Ok(())
    }

    /// Inserts the recording of a known rtc that has none yet.
    pub fn insert_recording(&mut self, recording: Recording) -> (r: Result<(), StoreError>)
        requires
            old(self)@.wf(),
        ensures
            final(self)@.wf(),
            if rtc_room(old(self)@.rtcs, recording.rtc_id) is None {
                r == Err::<(), StoreError>(StoreError::MissingReference) && final(self)@ == old(self)@
            } else if last_match(old(self)@.recordings, recording_of_rtc(recording.rtc_id)) is Some {
                r == Err::<(), StoreError>(StoreError::Duplicate) && final(self)@ == old(self)@
            } else {
                r is Ok && final(self)@ == (StoreView {
                    recordings: old(self)@.recordings.push(recording),
                    ..old(self)@
                })
            },
    {
        proof {
            lemma_last_match_facts(self@.rtcs, rtc_with_id(recording.rtc_id));
            lemma_last_match_facts(self@.recordings, recording_of_rtc(recording.rtc_id));
        }
        if find_rtc(&self.rtcs, recording.rtc_id).is_none() {
            return Err(StoreError::MissingReference);
        }
        if find_recording(&self.recordings, recording.rtc_id).is_some() {
            return Err(StoreError::Duplicate);
        }
        self.recordings.push(recording);
        Ok(())
    }

    pub fn insert_connection(&mut self, connection: AgentConnection)
        requires
            old(self)@.wf(),
        ensures
            final(self)@.wf(),
            final(self)@ == (StoreView { connections: old(self)@.connections.push(connection), ..old(self)@ }),
    {
        self.connections.push(connection);
    }

    pub fn insert_presence(&mut self, presence: AgentPresence)
        requires
            old(self)@.wf(),
        ensures
            final(self)@.wf(),
            final(self)@ == (StoreView { presences: old(self)@.presences.push(presence), ..old(self)@ }),
    {
        self.presences.push(presence);
    }

    /// Tracks a room as orphaned until the deadline, replacing an earlier row.
    pub fn upsert_orphan(&mut self, room_id: u128, deadline: i64)
        requires
            old(self)@.wf(),
        ensures
            final(self)@.wf(),
            final(self)@ == (StoreView {
                orphans: old(self)@.orphans.filter(orphan_not_listed(seq![room_id])).push(
                    OrphanedRoom { room_id, deadline },
                ),
                ..old(self)@
            }),
    {
        let mut ids: Vec<u128> = Vec::new();
        ids.push(room_id);
        proof {
            assert(ids@ =~= seq![room_id]);
        }
        proof {
            lemma_filter_orphans_unique(self@.orphans, orphan_not_listed(ids@));
        }
        self.remove_orphans(&ids);
        let ghost kept = self@.orphans;
        proof {
            assert forall|k: int| 0 <= k < kept.len() implies #[trigger] kept[k].room_id != room_id by {
                old(self)@.orphans.lemma_filter_pred(orphan_not_listed(seq![room_id]), k);
                assert(seq![room_id][0] == room_id);
            }
        }
        self.orphans.push(OrphanedRoom { room_id, deadline });
        proof {
            let os = self@.orphans;
            assert forall|i: int, j: int| 0 <= i < j < os.len() implies #[trigger] os[i].room_id
                != #[trigger] os[j].room_id by {
                if j == kept.len() {
                    assert(os[i] == kept[i]);
                } else {
                    assert(os[i] == kept[i] && os[j] == kept[j]);
                }
            }
        }
    }
}

/// The room of an rtc that is known to have one.
pub(crate) fn room_of_rtc(rtcs: &Vec<Rtc>, rtc_id: u128) -> (r: u128)
    requires
        rtc_room(rtcs@, rtc_id) is Some,
    ensures
        rtc_room(rtcs@, rtc_id) == Some(r),
{
    proof {
        lemma_last_match_facts(rtcs@, rtc_with_id(rtc_id));
    }
    match find_rtc(rtcs, rtc_id) {
        Some(i) => rtcs[i].room_id,
        None => 0,
    }
}

pub open spec fn backend_with_id(id: Seq<char>) -> spec_fn(Backend) -> bool {
    |b: Backend| b.id@ == id
}

/// The index of the backend with this id.
pub fn find_backend(backends: &Vec<Backend>, id: &String) -> (r: Option<usize>)
    ensures
        match last_match(backends@, backend_with_id(id@)) {
            Some(i) => r matches Some(k) && k as int == i,
            None => r is None,
        },
{
    find_last(backends, |x: &Backend| -> (b: bool) ensures b == (x.id@ == id@) { x.id == *id }, Ghost(backend_with_id(id@)))
}

/// The index of the last element that passes `test`, which decides `f`.
pub(crate) fn find_last<T, F: Fn(&T) -> bool>(v: &Vec<T>, test: F, Ghost(f): Ghost<spec_fn(T) -> bool>) -> (r:
    Option<usize>)
    requires
        forall|x: &T| #[trigger] test.requires((x,)),
        forall|x: &T, b: bool| test.ensures((x,), b) ==> b == f(*x),
    ensures
        match last_match(v@, f) {
            Some(i) => r matches Some(k) && k as int == i,
            None => r is None,
        },
{
    let mut found: Option<usize> = None;
    let mut i: usize = 0;
    while i < v.len()
        invariant
            i <= v@.len(),
            forall|x: &T| #[trigger] test.requires((x,)),
            forall|x: &T, b: bool| test.ensures((x,), b) ==> b == f(*x),
            match last_match(v@.subrange(0, i as int), f) {
                Some(k) => found matches Some(j) && j as int == k,
                None => found is None,
            },
        decreases v@.len() - i,
    {
        proof {
            lemma_last_match_step(v@, f, i as int);
        }
        if test(&v[i]) {
            found = Some(i);
        }
        i = i + 1;
    }
    proof {
        assert(v@.subrange(0, v@.len() as int) =~= v@);
    }
    found
}

/// The index of the rtc with this id.
pub fn find_rtc(rtcs: &Vec<Rtc>, rtc_id: u128) -> (r: Option<usize>)
    ensures
        match last_match(rtcs@, rtc_with_id(rtc_id)) {
            Some(i) => r matches Some(k) && k as int == i,
            None => r is None,
        },
{
    find_last(rtcs, |x: &Rtc| -> (b: bool) ensures b == (x.id == rtc_id) { x.id == rtc_id }, Ghost(rtc_with_id(rtc_id)))
}

} // verus!
