//! Periodic sweeps: closing orphaned rooms whose deadline has passed, and
//! the vacuum pass that starts the upload of recordings of finished rooms.
use vstd::prelude::*;
use crate::clock::now_millis;
use crate::store::{
    backend_with_id, find_backend, find_room, find_rtc, last_match, lemma_filter_orphans_unique,
    lemma_last_match_facts, orphan_not_listed, presence_outside_room, room_with_id, rtc_room,
    rtc_with_id, OrphanedRoom, Recording, RecordingStatus, Room, Store, StoreView,
};
use crate::upload::{config_spec, upload_config, UploadConfigs, UploadError, UploadStreamRequest};

verus! {

/// Where a notification is published.
pub enum Topic {
    /// The events topic of a room.
    Room(u128),
    /// The events topic of an audience.
    Audience(String),
}

/// A `room.close` notification.
pub struct RoomClose {
    pub topic: Topic,
    pub room: Room,
}

pub open spec fn closed_now(room: Room, now: i64) -> Room {
    Room { closed_at: Some(now), timed_out: true, ..room }
}

/// One tracking row: a room still open when its deadline has passed is
/// closed now, and the close goes out on the room's topic and on its
/// audience's topic.
pub open spec fn reap_step(v: StoreView, o: OrphanedRoom, now: i64) -> (StoreView, Seq<RoomClose>) {
    if o.deadline > now {
        (v, seq![])
    } else {
        match last_match(v.rooms, room_with_id(o.room_id)) {
            Some(j) => if !v.rooms[j].closed_at_time(now) {
                let c = closed_now(v.rooms[j], now);
                (
                    StoreView { rooms: v.rooms.update(j, c), ..v },
                    seq![
                        RoomClose { topic: Topic::Room(c.id), room: c },
                        RoomClose { topic: Topic::Audience(c.audience), room: c },
                    ],
                )
            } else {
                (v, seq![])
            },
            None => (v, seq![]),
        }
    }
}

/// The tracking rows taken in order.
pub open spec fn reap_spec(v: StoreView, os: Seq<OrphanedRoom>, now: i64) -> (StoreView, Seq<RoomClose>)
    decreases os.len(),
{
    if os.len() == 0 {
        (v, seq![])
    } else {
        let (w, n) = reap_spec(v, os.drop_last(), now);
        let (x, m) = reap_step(w, os.last(), now);
        (x, n + m)
    }
}

pub open spec fn past_deadline(now: i64) -> spec_fn(OrphanedRoom) -> bool {
    |o: OrphanedRoom| o.deadline <= now
}

pub open spec fn room_id_of() -> spec_fn(OrphanedRoom) -> u128 {
    |o: OrphanedRoom| o.room_id
}

/// The rooms whose tracking rows are past their deadline.
pub open spec fn due_rooms(os: Seq<OrphanedRoom>, now: i64) -> Seq<u128> {
    os.filter(past_deadline(now)).map_values(room_id_of())
}

/// The sweep over all tracking rows; the rows past their deadline are
/// removed afterwards, whatever became of their rooms.
pub open spec fn reap_result(v: StoreView, now: i64) -> (StoreView, Seq<RoomClose>) {
    let (w, n) = reap_spec(v, v.orphans, now);
    (StoreView { orphans: w.orphans.filter(orphan_not_listed(due_rooms(v.orphans, now))), ..w }, n)
}

pub proof fn lemma_reap_keeps(v: StoreView, os: Seq<OrphanedRoom>, now: i64)
    ensures
        ({
            let w = reap_spec(v, os, now).0;
            &&& w == (StoreView { rooms: w.rooms, ..v })
            &&& w.rooms.len() == v.rooms.len()
            &&& forall|j: int| 0 <= j < v.rooms.len() ==> #[trigger] w.rooms[j].id == v.rooms[j].id
        }),
    decreases os.len(),
{
    if os.len() > 0 {
        lemma_reap_keeps(v, os.drop_last(), now);
        let w = reap_spec(v, os.drop_last(), now).0;
        let o = os.last();
        if o.deadline <= now {
            if let Some(j) = last_match(w.rooms, room_with_id(o.room_id)) {
                lemma_last_match_facts(w.rooms, room_with_id(o.room_id));
                let x = reap_step(w, o, now).0;
                assert forall|k: int| 0 <= k < v.rooms.len() implies #[trigger] x.rooms[k].id == v.rooms[k].id by {
                    assert(w.rooms[k].id == v.rooms[k].id);
                }
            }
        }
    }
}

/// Some room with this id is closed at `now`.
pub open spec fn closed_room_with_id(w: StoreView, id: u128, now: i64) -> bool {
    exists|j: int| 0 <= j < w.rooms.len() && w.rooms[j].id == id && #[trigger] w.rooms[j].closed_at_time(now)
}

/// Some room with this id was open at `now`.
pub open spec fn open_room_with_id(v: StoreView, id: u128, now: i64) -> bool {
    exists|j: int| 0 <= j < v.rooms.len() && v.rooms[j].id == id && !#[trigger] v.rooms[j].closed_at_time(now)
}

pub open spec fn same_topic_kind(a: Topic, b: Topic) -> bool {
    (a is Room && b is Room) || (a is Audience && b is Audience)
}

pub proof fn lemma_reap_once(v: StoreView, os: Seq<OrphanedRoom>, now: i64)
    requires
        v.wf(),
    ensures
        ({
            let (w, n) = reap_spec(v, os, now);
            &&& forall|j: int|
                0 <= j < v.rooms.len() && #[trigger] v.rooms[j].closed_at_time(now) ==> w.rooms[j] == v.rooms[j]
            &&& forall|k: int| 0 <= k < n.len() ==> closed_room_with_id(w, #[trigger] n[k].room.id, now)
            &&& forall|k: int| 0 <= k < n.len() ==> open_room_with_id(v, #[trigger] n[k].room.id, now)
            &&& forall|a: int, b: int|
                0 <= a < b < n.len() && same_topic_kind(#[trigger] n[a].topic, #[trigger] n[b].topic)
                    ==> n[a].room.id != n[b].room.id
        }),
    decreases os.len(),
{
    if os.len() > 0 {
        lemma_reap_once(v, os.drop_last(), now);
        lemma_reap_keeps(v, os.drop_last(), now);
        let (w, n) = reap_spec(v, os.drop_last(), now);
        let o = os.last();
        let (x, m) = reap_step(w, o, now);
        if o.deadline <= now {
            if let Some(j) = last_match(w.rooms, room_with_id(o.room_id)) {
                lemma_last_match_facts(w.rooms, room_with_id(o.room_id));
                if !w.rooms[j].closed_at_time(now) {
                    let c = closed_now(w.rooms[j], now);
                    let all = n + m;
                    assert(x.rooms[j].closed_at_time(now));
                    assert forall|k: int| 0 <= k < n.len() implies closed_room_with_id(x, #[trigger] n[k].room.id, now) by {
                        assert(closed_room_with_id(w, n[k].room.id, now));
                        let jj = choose|jj: int| 0 <= jj < w.rooms.len() && w.rooms[jj].id == n[k].room.id
                            && #[trigger] w.rooms[jj].closed_at_time(now);
                        assert(jj != j);
                        assert(x.rooms[jj] == w.rooms[jj]);
                    }
                    assert(!v.rooms[j].closed_at_time(now)) by {
                        if v.rooms[j].closed_at_time(now) {
                            assert(w.rooms[j] == v.rooms[j]);
                        }
                    }
                    assert forall|k: int| 0 <= k < all.len() implies open_room_with_id(v, #[trigger] all[k].room.id, now) by {
                        if k < n.len() {
                            assert(all[k] == n[k]);
                        } else {
                            assert(all[k].room.id == w.rooms[j].id);
                            assert(w.rooms[j].id == v.rooms[j].id);
                        }
                    }
                    assert forall|k: int| 0 <= k < all.len() implies closed_room_with_id(x, #[trigger] all[k].room.id, now) by {
                        if k < n.len() {
                            assert(all[k] == n[k]);
                        } else {
                            assert(all[k].room.id == w.rooms[j].id);
                            assert(x.rooms[j].id == w.rooms[j].id);
                        }
                    }
                    assert forall|a: int, b: int|
                        0 <= a < b < all.len() && same_topic_kind(#[trigger] all[a].topic, #[trigger] all[b].topic)
                            implies all[a].room.id != all[b].room.id by {
                        if b >= n.len() && a < n.len() {
                            assert(all[a] == n[a]);
                            assert(closed_room_with_id(w, n[a].room.id, now));
                            let jj = choose|jj: int| 0 <= jj < w.rooms.len() && w.rooms[jj].id == n[a].room.id
                                && #[trigger] w.rooms[jj].closed_at_time(now);
                            assert(jj != j);
                            assert(v.rooms[jj].id != v.rooms[j].id || jj == j);
                            assert(all[b].room.id == w.rooms[j].id);
                        } else if a < n.len() {
                            assert(all[a] == n[a] && all[b] == n[b]);
                        }
                    }
                    assert forall|jj: int| 0 <= jj < v.rooms.len() && #[trigger] v.rooms[jj].closed_at_time(now)
                        implies x.rooms[jj] == v.rooms[jj] by {
                        if jj == j {
                            assert(w.rooms[j] == v.rooms[j]);
                        }
                    }
                }
            }
        }
    }
}

/// An orphaned-room sweep leaves every room that was already closed as it
/// was, notifies only about rooms that were open, and never sends two close
/// notifications of one kind for one room.
pub proof fn lemma_reap_never_closes_twice(v: StoreView, now: i64)
    requires
        v.wf(),
    ensures
        ({
            let (w, n) = reap_result(v, now);
            &&& forall|j: int|
                0 <= j < v.rooms.len() && #[trigger] v.rooms[j].closed_at_time(now) ==> w.rooms[j] == v.rooms[j]
            &&& forall|k: int| 0 <= k < n.len() ==> open_room_with_id(v, #[trigger] n[k].room.id, now)
            &&& forall|a: int, b: int|
                0 <= a < b < n.len() && same_topic_kind(#[trigger] n[a].topic, #[trigger] n[b].topic)
                    ==> n[a].room.id != n[b].room.id
        }),
{
    lemma_reap_once(v, v.orphans, now);
}

pub open spec fn not_due(now: i64) -> spec_fn(OrphanedRoom) -> bool {
    |o: OrphanedRoom| o.deadline > now
}

proof fn lemma_filter_agree(s: Seq<OrphanedRoom>, p: spec_fn(OrphanedRoom) -> bool, q: spec_fn(OrphanedRoom) -> bool)
    requires
        forall|i: int| 0 <= i < s.len() ==> p(#[trigger] s[i]) == q(s[i]),
    ensures
        s.filter(p) == s.filter(q),
    decreases s.len(),
{
    reveal(Seq::filter);
    if s.len() > 0 {
        let d = s.drop_last();
        assert forall|i: int| 0 <= i < d.len() implies p(#[trigger] d[i]) == q(d[i]) by {
            assert(d[i] == s[i]);
        }
        lemma_filter_agree(d, p, q);
        assert(p(s[s.len() - 1]) == q(s[s.len() - 1]));
    }
}

/// The sweep removes exactly the tracking rows past their deadline.
pub proof fn lemma_reap_removes_due_rows(v: StoreView, now: i64)
    requires
        v.wf(),
    ensures
        reap_result(v, now).0.orphans == v.orphans.filter(not_due(now)),
{
    lemma_reap_keeps(v, v.orphans, now);
    let os = v.orphans;
    let f = os.filter(past_deadline(now));
    let due = due_rooms(os, now);
    let p = orphan_not_listed(due);
    assert forall|i: int| 0 <= i < os.len() implies p(#[trigger] os[i]) == not_due(now)(os[i]) by {
        let o = os[i];
        if o.deadline <= now {
            os.lemma_filter_contains(past_deadline(now), i);
            let k = choose|k: int| 0 <= k < f.len() && f[k] == o;
            assert(due[k] == o.room_id);
            assert(due.contains(o.room_id));
        }
        if due.contains(o.room_id) {
            let k = choose|k: int| 0 <= k < due.len() && due[k] == o.room_id;
            assert(due[k] == f[k].room_id);
            os.lemma_filter_pred(past_deadline(now), k);
            assert(f.contains(f[k]));
            os.lemma_filter_contains_rev(past_deadline(now), f[k]);
            let a = choose|a: int| 0 <= a < os.len() && os[a] == f[k];
            if a != i {
                if a < i {
                    assert(os[a].room_id != os[i].room_id);
                } else {
                    assert(os[i].room_id != os[a].room_id);
                }
            }
        }
    }
    lemma_filter_agree(os, p, not_due(now));
}

impl Store {
    /// Closes the orphaned rooms whose deadline is past and that are still
    /// open, and removes the tracking rows that are past their deadline.
    pub fn close_orphaned_rooms(&mut self, now: i64) -> (r: Vec<RoomClose>)
        requires
            old(self)@.wf(),
        ensures
            final(self)@.wf(),
            (final(self)@, r@) == reap_result(old(self)@, now),
    {
        let ghost v = self@;
        let mut out: Vec<RoomClose> = Vec::new();
        let mut ids: Vec<u128> = Vec::new();
        let n = self.orphans().len();
        let mut i: usize = 0;
        while i < n
            invariant
                v.wf(),
                n == v.orphans.len(),
                i <= n,
                (self@, out@) == reap_spec(v, v.orphans.subrange(0, i as int), now),
                ids@ == due_rooms(v.orphans.subrange(0, i as int), now),
            decreases n - i,
        {
            let ghost prev = self@;
            let ghost before = out@;
            proof {
                let sub = v.orphans.subrange(0, i + 1);
                assert(sub.drop_last() =~= v.orphans.subrange(0, i as int));
                lemma_reap_keeps(v, v.orphans.subrange(0, i as int), now);
                v.orphans.subrange(0, i as int).lemma_filter_push(v.orphans[i as int], past_deadline(now));
                assert(sub =~= v.orphans.subrange(0, i as int).push(v.orphans[i as int]));
            }
            let o = self.orphans()[i];
            if o.deadline <= now {
                ids.push(o.room_id);
                proof {
                    let f = v.orphans.subrange(0, i as int).filter(past_deadline(now));
                    assert(ids@ =~= f.push(o).map_values(room_id_of()));
                }
                proof {
                    lemma_last_match_facts(prev.rooms, room_with_id(o.room_id));
                }
                match find_room(self.rooms(), o.room_id) {
                    Some(j) => {
                        if !self.rooms()[j].is_closed(now) {
                            let room = self.rooms()[j].duplicate();
                            let closed = Room { closed_at: Some(now), timed_out: true, ..room };
                            let audience = closed.audience.clone();
                            out.push(RoomClose { topic: Topic::Room(closed.id), room: closed.duplicate() });
                            out.push(RoomClose { topic: Topic::Audience(audience), room: closed.duplicate() });
                            self.set_room(j, closed);
                            proof {
                                let c = closed_now(prev.rooms[j as int], now);
                                assert(out@ =~= before + seq![
                                    RoomClose { topic: Topic::Room(c.id), room: c },
                                    RoomClose { topic: Topic::Audience(c.audience), room: c },
                                ]);
                            }
                        } else {
                            proof {
                                assert(out@ =~= before + Seq::<RoomClose>::empty());
                            }
                        }
                    },
                    None => {
                        proof {
                            assert(out@ =~= before + Seq::<RoomClose>::empty());
                        }
                    },
                }
            } else {
                proof {
                    assert(out@ =~= before + Seq::<RoomClose>::empty());
                }
            }
            i = i + 1;
        }
        proof {
            assert(v.orphans.subrange(0, n as int) =~= v.orphans);
            lemma_reap_keeps(v, v.orphans, now);
        }
        proof {
            lemma_filter_orphans_unique(v.orphans, orphan_not_listed(ids@));
        }
        self.remove_orphans(&ids);
        proof {
            let w = self@;
            assert forall|a: int, b: int| 0 <= a < b < w.rooms.len() implies #[trigger] w.rooms[a].id
                != #[trigger] w.rooms[b].id by {
                assert(v.rooms[a].id != v.rooms[b].id);
            }
        }
        out
    }
}

impl Store {
    /// Runs the orphaned-room sweep at the current time.
    pub fn close_orphaned_rooms_now(&mut self) -> (r: Vec<RoomClose>)
        requires
            old(self)@.wf(),
        ensures
            final(self)@.wf(),
            exists|now: i64| (final(self)@, r@) == reap_result(old(self)@, now),
    {
        let now = now_millis();
        self.close_orphaned_rooms(now)
    }
}

// ---------------------------------------------------------------------------
// Vacuum

/// The upload of the recording of an rtc of a finished room.
pub struct UploadTask {
    pub room_id: u128,
    pub rtc_id: u128,
    pub backend_id: String,
    /// This is the room's first task of the pass: its start announces the
    /// room closed.
    pub announce_close: bool,
}


/// A backend is in the deployment group asked for, if any was.
pub open spec fn in_group(backend_group: Option<String>, group: Option<Seq<char>>) -> bool {
    match group {
        None => true,
        Some(g) => backend_group matches Some(x) && x@ == g,
    }
}

/// The upload owed for a recording: it is in progress, its room is closed
/// at `now`, and the room's backend is known and in the group.
pub open spec fn task_of(v: StoreView, rec: Recording, group: Option<Seq<char>>, now: i64) -> Option<UploadTask> {
    if rec.status != RecordingStatus::InProgress {
        None
    } else {
        match rtc_room(v.rtcs, rec.rtc_id) {
            None => None,
            Some(room_id) => match last_match(v.rooms, room_with_id(room_id)) {
                None => None,
                Some(j) => {
                    let room = v.rooms[j];
                    if !room.closed_at_time(now) {
                        None
                    } else {
                        match room.backend_id {
                            None => None,
                            Some(b) => match last_match(v.backends, backend_with_id(b@)) {
                                None => None,
                                Some(k) => if in_group(v.backends[k].group, group) {
                                    Some(UploadTask { room_id, rtc_id: rec.rtc_id, backend_id: b, announce_close: false })
                                } else {
                                    None
                                },
                            },
                        }
                    }
                },
            },
        }
    }
}

pub open spec fn tasks_spec(v: StoreView, recs: Seq<Recording>, group: Option<Seq<char>>, now: i64) -> Seq<
    UploadTask,
>
    decreases recs.len(),
{
    if recs.len() == 0 {
        seq![]
    } else {
        let prev = tasks_spec(v, recs.drop_last(), group, now);
        match task_of(v, recs.last(), group, now) {
            Some(t) => prev.push(UploadTask { announce_close: !has_room_task(prev, t.room_id), ..t }),
            None => prev,
        }
    }
}

/// Some task of the list is for the room.
pub open spec fn has_room_task(tasks: Seq<UploadTask>, room_id: u128) -> bool {
    exists|k: int| 0 <= k < tasks.len() && #[trigger] tasks[k].room_id == room_id
}

/// The task at `b` has its room announced by a task no later than it.
pub open spec fn announced_by_then(ts: Seq<UploadTask>, b: int) -> bool {
    exists|a: int| 0 <= a <= b && #[trigger] ts[a].announce_close && ts[a].room_id == ts[b].room_id
}

/// Each room of a vacuum pass is announced closed by exactly one of its
/// tasks, the first one.
#[verifier::rlimit(50)]
pub proof fn lemma_tasks_announce_each_room_once(
    v: StoreView,
    recs: Seq<Recording>,
    group: Option<Seq<char>>,
    now: i64,
)
    ensures
        ({
            let ts = tasks_spec(v, recs, group, now);
            &&& forall|a: int, b: int|
                0 <= a < b < ts.len() && #[trigger] ts[a].announce_close && #[trigger] ts[b].announce_close
                    ==> ts[a].room_id != ts[b].room_id
            &&& forall|b: int| 0 <= b < ts.len() ==> #[trigger] announced_by_then(ts, b)
        }),
    decreases recs.len(),
{
    if recs.len() > 0 {
        lemma_tasks_announce_each_room_once(v, recs.drop_last(), group, now);
        let prev = tasks_spec(v, recs.drop_last(), group, now);
        let ts = tasks_spec(v, recs, group, now);
        if let Some(t) = task_of(v, recs.last(), group, now) {
            let n = prev.len() as int;
            let nt = UploadTask { announce_close: !has_room_task(prev, t.room_id), ..t };
            assert(ts == prev.push(nt));
            assert forall|a: int, b: int|
                0 <= a < b < ts.len() && #[trigger] ts[a].announce_close && #[trigger] ts[b].announce_close
                    implies ts[a].room_id != ts[b].room_id by {
                assert(ts[a] == prev[a]);
                if b == n {
                    if prev[a].room_id == t.room_id {
                        assert(has_room_task(prev, t.room_id));
                    }
                } else {
                    assert(ts[b] == prev[b]);
                }
            }
            assert forall|b: int| 0 <= b < ts.len() implies #[trigger] announced_by_then(ts, b) by {
                if b < n {
                    assert(announced_by_then(prev, b));
                    let a = choose|a: int| 0 <= a <= b && #[trigger] prev[a].announce_close && prev[a].room_id == prev[b].room_id;
                    assert(ts[a] == prev[a] && ts[b] == prev[b]);
                    assert(ts[a].announce_close);
                } else if has_room_task(prev, t.room_id) {
                    let k = choose|k: int| 0 <= k < prev.len() && #[trigger] prev[k].room_id == t.room_id;
                    assert(announced_by_then(prev, k));
                    let a = choose|a: int| 0 <= a <= k && #[trigger] prev[a].announce_close && prev[a].room_id == prev[k].room_id;
                    assert(ts[a] == prev[a]);
                    assert(ts[a].announce_close);
                } else {
                    assert(ts[b].announce_close);
                }
            }
        }
    }
}

fn tasks_have_room(tasks: &Vec<UploadTask>, room_id: u128) -> (r: bool)
    ensures
        r == has_room_task(tasks@, room_id),
{
    let mut i: usize = 0;
    while i < tasks.len()
        invariant
            i <= tasks@.len(),
            forall|k: int| 0 <= k < i ==> #[trigger] tasks@[k].room_id != room_id,
        decreases tasks@.len() - i,
    {
        if tasks[i].room_id == room_id {
            proof {
                assert(tasks@[i as int].room_id == room_id);
            }
            return true;
        }
        i = i + 1;
    }
    false
}


fn group_matches(backend_group: &Option<String>, group: Option<&String>) -> (r: bool)
    ensures
        r == in_group(
            *backend_group,
            match group {
                Some(g) => Some(g@),
                None => None,
            },
        ),
{
    match group {
        None => true,
        Some(g) => match backend_group {
            Some(x) => *x == *g,
            None => false,
        },
    }
}

impl Store {
    fn task_for(&self, rec: &Recording, group: Option<&String>, now: i64) -> (r: Option<UploadTask>)
        ensures
            r == task_of(
                self@,
                *rec,
                match group {
                    Some(g) => Some(g@),
                    None => None,
                },
                now,
            ),
    {
        let ghost v = self@;
        if rec.status != RecordingStatus::InProgress {
            return None;
        }
        proof {
            lemma_last_match_facts(v.rtcs, rtc_with_id(rec.rtc_id));
        }
        let i = match find_rtc(self.rtcs(), rec.rtc_id) {
            Some(i) => i,
            None => return None,
        };
        let room_id = self.rtcs()[i].room_id;
        proof {
            lemma_last_match_facts(v.rooms, room_with_id(room_id));
        }
        let j = match find_room(self.rooms(), room_id) {
            Some(j) => j,
            None => return None,
        };
        let room = &self.rooms()[j];
        if !room.is_closed(now) {
            return None;
        }
        let b = match &room.backend_id {
            Some(b) => b,
            None => return None,
        };
        proof {
            lemma_last_match_facts(v.backends, backend_with_id(b@));
        }
        let k = match find_backend(self.backends(), b) {
            Some(k) => k,
            None => return None,
        };
        if group_matches(&self.backends()[k].group, group) {
            Some(UploadTask { room_id, rtc_id: rec.rtc_id, backend_id: b.clone(), announce_close: false })
        } else {
            None
        }
    }

    /// The uploads a vacuum pass owes: one per recording in progress of a
    /// closed room whose backend is in the group, in the order of the
    /// recordings.
    pub fn vacuum_tasks(&self, group: Option<&String>, now: i64) -> (r: Vec<UploadTask>)
        ensures
            r@ == tasks_spec(
                self@,
                self@.recordings,
                match group {
                    Some(g) => Some(g@),
                    None => None,
                },
                now,
            ),
    {
        let ghost v = self@;
        let ghost g = match group {
            Some(g) => Some(g@),
            None => None,
        };
        let recs = self.recordings();
        let mut out: Vec<UploadTask> = Vec::new();
        let mut i: usize = 0;
        while i < recs.len()
            invariant
                v == self@,
                recs@ == v.recordings,
                g == (match group {
                    Some(g) => Some(g@),
                    None => None,
                }),
                i <= v.recordings.len(),
                out@ == tasks_spec(v, v.recordings.subrange(0, i as int), g, now),
            decreases v.recordings.len() - i,
        {
            proof {
                assert(v.recordings.subrange(0, i + 1).drop_last() =~= v.recordings.subrange(0, i as int));
            }
            match self.task_for(&recs[i], group, now) {
                Some(t) => {
                    let seen = tasks_have_room(&out, t.room_id);
                    out.push(UploadTask { announce_close: !seen, ..t });
                },
                None => {},
            }
            i = i + 1;
        }
        proof {
            assert(v.recordings.subrange(0, v.recordings.len() as int) =~= v.recordings);
        }
        out
    }

    /// Starts an upload: the room's presence rows are removed and the
    /// request for the room's upload target is built. The first task of a
    /// room also announces the room closed, as soon as the request goes out.
    pub fn start_upload(&mut self, task: &UploadTask, configs: &UploadConfigs) -> (r: Result<
        UploadStart,
        UploadError,
    >)
        requires
            old(self)@.wf(),
        ensures
            final(self)@.wf(),
            final(self)@ == (StoreView {
                presences: old(self)@.presences.filter(presence_outside_room(task.room_id)),
                ..old(self)@
            }),
            match last_match(old(self)@.rooms, room_with_id(task.room_id)) {
                None => r == Err::<UploadStart, UploadError>(UploadError::RoomNotFound),
                Some(j) => match config_spec(*configs, old(self)@.rooms[j]) {
                    Err(e) => r == Err::<UploadStart, UploadError>(e),
                    Ok(c) => r matches Ok(st) && st.request.id == task.rtc_id && st.request.backend@
                        == c.backend@ && st.request.bucket@ == c.bucket@ && st.close == (if task.announce_close {
                        Some(RoomClose { topic: Topic::Room(task.room_id), room: old(self)@.rooms[j] })
                    } else {
                        None
                    }),
                },
            },
    {
        self.remove_presences(task.room_id);
        proof {
            lemma_last_match_facts(self@.rooms, room_with_id(task.room_id));
        }
        let j = match find_room(self.rooms(), task.room_id) {
            Some(j) => j,
            None => return Err(UploadError::RoomNotFound),
        };
        let request = match upload_config(configs, &self.rooms()[j]) {
            Ok(c) => UploadStreamRequest { id: task.rtc_id, backend: c.backend.clone(), bucket: c.bucket.clone() },
            Err(e) => return Err(e),
        };
        let close = if task.announce_close {
            Some(RoomClose { topic: Topic::Room(task.room_id), room: self.rooms()[j].duplicate() })
        } else {
            None
        };
        Ok(UploadStart { request, close })
    }
}

/// An upload request of a vacuum pass, with the close notification of its
/// room for the first upload of that room.
pub struct UploadStart {
    pub request: UploadStreamRequest,
    pub close: Option<RoomClose>,
}

} // verus!

