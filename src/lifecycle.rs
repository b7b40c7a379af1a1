//! The stream lifecycle driven by backend events. Per backend handle a
//! stream goes from "no stream" to "started" to "stopped"; every transition
//! that changes a stream yields one stream-update notification for the room
//! of the stream.
use vstd::prelude::*;
use crate::ids::HandleId;
use crate::store::{
    backend_other_than, conn_off_backend, conn_outside_room, find_last, last_match,
    lemma_last_match_facts, lemma_open_streams_shrink, room_of_rtc, rtc_room, same_handle,
    unstopped_on, Store, StoreView, Stream,
};

verus! {

/// A stream-update notification for the topic of a room.
pub struct StreamUpdate {
    pub room_id: u128,
    pub stream: Stream,
}

/// A stream of the handle that has not started yet.
pub open spec fn unstarted_on(backend_id: Seq<char>, handle_id: HandleId) -> spec_fn(Stream) -> bool {
    |s: Stream| s.backend_id@ == backend_id && s.handle_id == handle_id && s.started_at is None
}


/// A stream of the backend that is active.
pub open spec fn active_on(backend_id: Seq<char>) -> spec_fn(Stream) -> bool {
    |s: Stream| s.backend_id@ == backend_id && s.is_active()
}

/// A stream is stopped at `now`, or at its start if the clock reads earlier.
pub open spec fn stop_time(s: Stream, now: i64) -> i64 {
    match s.started_at {
        Some(t) => if t > now {
            t
        } else {
            now
        },
        None => now,
    }
}

pub open spec fn started(s: Stream, now: i64) -> Stream {
    Stream { started_at: Some(now), ..s }
}

pub open spec fn stopped(s: Stream, now: i64) -> Stream {
    Stream { stopped_at: Some(stop_time(s, now)), ..s }
}

pub open spec fn update_of(v: StoreView, s: Stream) -> StreamUpdate {
    StreamUpdate { room_id: rtc_room(v.rtcs, s.rtc_id)->Some_0, stream: s }
}

/// WebRtcUp: the latest stream of the handle that has not started is
/// started, and one notification goes out. Without one, nothing happens:
/// the handle is not a publisher's.
pub open spec fn webrtc_up_spec(v: StoreView, backend_id: Seq<char>, handle_id: HandleId, now: i64) -> (
    StoreView,
    Seq<StreamUpdate>,
) {
    match last_match(v.streams, unstarted_on(backend_id, handle_id)) {
        None => (v, seq![]),
        Some(i) => {
            let st = started(v.streams[i], now);
            (StoreView { streams: v.streams.update(i, st), ..v }, seq![update_of(v, st)])
        },
    }
}

/// HangUp or Detached: the latest stream of the handle that has not stopped
/// is stopped if it had started; then the agents of its room are
/// disconnected and one notification goes out. A stream that never started
/// is left as it is.
pub open spec fn hangup_spec(v: StoreView, backend_id: Seq<char>, handle_id: HandleId, now: i64) -> (
    StoreView,
    Seq<StreamUpdate>,
) {
    match last_match(v.streams, unstopped_on(backend_id, handle_id)) {
        None => (v, seq![]),
        Some(i) => {
            let s = v.streams[i];
            if s.started_at is None {
                (v, seq![])
            } else {
                let st = stopped(s, now);
                let room = rtc_room(v.rtcs, s.rtc_id)->Some_0;
                (
                    StoreView {
                        streams: v.streams.update(i, st),
                        connections: v.connections.filter(conn_outside_room(room)),
                        ..v
                    },
                    seq![update_of(v, st)],
                )
            }
        },
    }
}

pub open spec fn stop_if_active(backend_id: Seq<char>, now: i64) -> spec_fn(Stream) -> Stream {
    |s: Stream| if active_on(backend_id)(s) {
        stopped(s, now)
    } else {
        s
    }
}

/// A backend went offline: its active streams are stopped, its agent
/// connections and its row are removed, and one notification goes out per
/// stream that was active, in the order of the streams.
pub open spec fn offline_spec(v: StoreView, backend_id: Seq<char>, now: i64) -> (StoreView, Seq<StreamUpdate>) {
    (
        StoreView {
            backends: v.backends.filter(backend_other_than(backend_id)),
            streams: v.streams.map_values(stop_if_active(backend_id, now)),
            connections: v.connections.filter(conn_off_backend(backend_id)),
            ..v
        },
        v.streams.filter(active_on(backend_id)).map_values(|s: Stream| update_of(v, stopped(s, now))),
    )
}

/// The latest stream of the handle that has not started (`unstarted`) or
/// not stopped (otherwise).
fn latest_stream(streams: &Vec<Stream>, backend_id: &String, handle_id: HandleId, unstarted: bool) -> (r:
    Option<usize>)
    ensures
        match last_match(
            streams@,
            if unstarted {
                unstarted_on(backend_id@, handle_id)
            } else {
                unstopped_on(backend_id@, handle_id)
            },
        ) {
            Some(i) => r matches Some(k) && k as int == i,
            None => r is None,
        },
{
    if unstarted {
        find_last(
            streams,
            |s: &Stream| -> (b: bool) ensures b == (s.backend_id@ == backend_id@ && s.handle_id == handle_id && s.started_at is None) { s.backend_id == *backend_id && s.handle_id == handle_id && s.started_at.is_none() },
            Ghost(unstarted_on(backend_id@, handle_id)),
        )
    } else {
        find_last(
            streams,
            |s: &Stream| -> (b: bool) ensures b == (s.backend_id@ == backend_id@ && s.handle_id == handle_id && s.stopped_at is None) { s.backend_id == *backend_id && s.handle_id == handle_id && s.stopped_at.is_none() },
            Ghost(unstopped_on(backend_id@, handle_id)),
        )
    }
}

impl Store {
    /// Applies a WebRtcUp event of a handle of a backend.
    pub fn handle_webrtc_up(&mut self, backend_id: &String, handle_id: HandleId, now: i64) -> (r: Vec<
        StreamUpdate,
    >)
        requires
            old(self)@.wf(),
        ensures
            (final(self)@, r@) == webrtc_up_spec(old(self)@, backend_id@, handle_id, now),
            final(self)@.wf(),
    {
        let ghost v = self@;
        let mut out: Vec<StreamUpdate> = Vec::new();
        match latest_stream(self.streams(), backend_id, handle_id, true) {
            None => {
                proof {
                    assert(out@ =~= Seq::<StreamUpdate>::empty());
                }
            },
            Some(i) => {
                proof {
                    lemma_last_match_facts(v.streams, unstarted_on(backend_id@, handle_id));
                }
                let old_stream = self.streams()[i].duplicate();
                let st = Stream { started_at: Some(now), ..old_stream };
                let room_id = room_of_rtc(self.rtcs(), st.rtc_id);
                out.push(StreamUpdate { room_id, stream: st.duplicate() });
                self.set_stream(i, st);
                proof {
                    assert(out@ =~= seq![update_of(v, started(v.streams[i as int], now))]);
                    let w = self@;
                    assert forall|k: int| 0 <= k < w.streams.len() implies #[trigger] rtc_room(
                        w.rtcs,
                        w.streams[k].rtc_id,
                    ) is Some && w.streams[k].times_valid() by {
                        assert(rtc_room(v.rtcs, v.streams[k].rtc_id) is Some);
                    }
                    lemma_open_streams_shrink(v.streams, w.streams);
                }
            },
        }
        out
    }

    /// Applies a HangUp or Detached event of a handle of a backend.
    pub fn handle_hangup_detach(&mut self, backend_id: &String, handle_id: HandleId, now: i64) -> (r:
        Vec<StreamUpdate>)
        requires
            old(self)@.wf(),
        ensures
            (final(self)@, r@) == hangup_spec(old(self)@, backend_id@, handle_id, now),
            final(self)@.wf(),
    {
        let ghost v = self@;
        let mut out: Vec<StreamUpdate> = Vec::new();
        match latest_stream(self.streams(), backend_id, handle_id, false) {
            None => {
                proof {
                    assert(out@ =~= Seq::<StreamUpdate>::empty());
                }
            },
            Some(i) => {
                proof {
                    lemma_last_match_facts(v.streams, unstopped_on(backend_id@, handle_id));
                }
                let old_stream = self.streams()[i].duplicate();
                match old_stream.started_at {
                    None => {
                        proof {
                            assert(out@ =~= Seq::<StreamUpdate>::empty());
                        }
                    },
                    Some(t) => {
                        let stop = if t > now {
                            t
                        } else {
                            now
                        };
                        let st = Stream { stopped_at: Some(stop), ..old_stream };
                        let room_id = room_of_rtc(self.rtcs(), st.rtc_id);
                        out.push(StreamUpdate { room_id, stream: st.duplicate() });
                        self.set_stream(i, st);
                        self.disconnect_room(room_id);
                        proof {
                            assert(out@ =~= seq![update_of(v, stopped(v.streams[i as int], now))]);
                            let w = self@;
                            assert forall|k: int| 0 <= k < w.streams.len() implies #[trigger] rtc_room(
                                w.rtcs,
                                w.streams[k].rtc_id,
                            ) is Some && w.streams[k].times_valid() by {
                                assert(rtc_room(v.rtcs, v.streams[k].rtc_id) is Some);
                            }
                            lemma_open_streams_shrink(v.streams, w.streams);
                        }
                    },
                }
            },
        }
        out
    }

    /// Applies the event that a backend went offline.
    pub fn handle_backend_offline(&mut self, backend_id: &String, now: i64) -> (r: Vec<StreamUpdate>)
        requires
            old(self)@.wf(),
        ensures
            (final(self)@, r@) == offline_spec(old(self)@, backend_id@, now),
            final(self)@.wf(),
    {
        let ghost v = self@;
        let ghost p = active_on(backend_id@);
        let ghost f = stop_if_active(backend_id@, now);
        let ghost g = |s: Stream| update_of(v, stopped(s, now));
        let mut out: Vec<StreamUpdate> = Vec::new();
        let n = self.streams().len();
        let mut i: usize = 0;
        while i < n
            invariant
                v.wf(),
                n == v.streams.len(),
                i <= n,
                p == active_on(backend_id@),
                f == stop_if_active(backend_id@, now),
                g == (|s: Stream| update_of(v, stopped(s, now))),
                self@ == (StoreView { streams: self@.streams, ..v }),
                self@.streams.len() == n,
                forall|j: int| 0 <= j < i ==> self@.streams[j] == f(v.streams[j]),
                forall|j: int| i <= j < n ==> self@.streams[j] == v.streams[j],
                out@ == v.streams.subrange(0, i as int).filter(p).map_values(g),
            decreases n - i,
        {
            let ghost before = out@;
            proof {
                assert(v.streams.subrange(0, i + 1) =~= v.streams.subrange(0, i as int).push(
                    v.streams[i as int],
                ));
                v.streams.subrange(0, i as int).lemma_filter_push(v.streams[i as int], p);
            }
            let s = self.streams()[i].duplicate();
            let active = s.backend_id == *backend_id && s.started_at.is_some() && s.stopped_at.is_none();
            if active {
                let t = match s.started_at {
                    Some(t) => t,
                    None => now,
                };
                let stop = if t > now {
                    t
                } else {
                    now
                };
                let st = Stream { stopped_at: Some(stop), ..s };
                proof {
                    assert(rtc_room(v.rtcs, v.streams[i as int].rtc_id) is Some);
                }
                let room_id = room_of_rtc(self.rtcs(), st.rtc_id);
                out.push(StreamUpdate { room_id, stream: st.duplicate() });
                self.set_stream(i, st);
                proof {
                    let sub = v.streams.subrange(0, i as int).filter(p);
                    assert(out@ =~= sub.push(v.streams[i as int]).map_values(g));
                }
            } else {
                proof {
                    assert(out@ =~= v.streams.subrange(0, i + 1).filter(p).map_values(g));
                }
            }
            i = i + 1;
        }
        proof {
            assert(self@.streams =~= v.streams.map_values(f));
            assert(v.streams.subrange(0, n as int) =~= v.streams);
        }
        self.disconnect_backend(backend_id);
        self.delete_backend(backend_id);
        proof {
            let w = self@;
            assert forall|k: int| 0 <= k < w.streams.len() implies #[trigger] rtc_room(
                w.rtcs,
                w.streams[k].rtc_id,
            ) is Some && w.streams[k].times_valid() by {
                assert(rtc_room(v.rtcs, v.streams[k].rtc_id) is Some);
            }
            lemma_open_streams_shrink(v.streams, w.streams);
        }
        out
    }
}

// ---------------------------------------------------------------------------
// Guarantees

/// A WebRtcUp event for a handle without a stream waiting to start changes
/// nothing and notifies nobody.
pub proof fn lemma_webrtc_up_without_stream_is_noop(
    v: StoreView,
    backend_id: Seq<char>,
    handle_id: HandleId,
    now: i64,
)
    requires
        forall|i: int| 0 <= i < v.streams.len() ==> !#[trigger] unstarted_on(backend_id, handle_id)(v.streams[i]),
    ensures
        webrtc_up_spec(v, backend_id, handle_id, now) == (v, Seq::<StreamUpdate>::empty()),
{
    lemma_last_match_facts(v.streams, unstarted_on(backend_id, handle_id));
    if let Some(i) = last_match(v.streams, unstarted_on(backend_id, handle_id)) {
        assert(unstarted_on(backend_id, handle_id)(v.streams[i]));
    }
}

/// A HangUp that follows a WebRtcUp which started a stream on the same
/// handle yields exactly one stream update, and its stream stops no earlier
/// than it started.
pub proof fn lemma_hangup_after_webrtc_up(
    v: StoreView,
    backend_id: Seq<char>,
    handle_id: HandleId,
    up_at: i64,
    down_at: i64,
)
    requires
        v.wf(),
        last_match(v.streams, unstarted_on(backend_id, handle_id)) is Some,
    ensures
        ({
            let w = webrtc_up_spec(v, backend_id, handle_id, up_at).0;
            let n = hangup_spec(w, backend_id, handle_id, down_at).1;
            &&& n.len() == 1
            &&& n[0].stream.started_at matches Some(s)
            &&& n[0].stream.stopped_at matches Some(e)
            &&& s <= e
        }),
{
    let up = unstarted_on(backend_id, handle_id);
    let down = unstopped_on(backend_id, handle_id);
    lemma_last_match_facts(v.streams, up);
    let i = last_match(v.streams, up)->Some_0;
    assert(rtc_room(v.rtcs, v.streams[i].rtc_id) is Some && v.streams[i].times_valid());
    let w = webrtc_up_spec(v, backend_id, handle_id, up_at).0;
    assert(down(w.streams[i]));
    lemma_last_match_facts(w.streams, down);
    let k = last_match(w.streams, down)->Some_0;
    if k != i {
        assert(w.streams[k] == v.streams[k]);
        assert(!up(v.streams[k]));
    }
}

/// The HangUp that follows a WebRtcUp on the same handle stops the very
/// stream the WebRtcUp started: a handle has one open stream at a time.
pub proof fn lemma_hangup_stops_the_stream_just_started(
    v: StoreView,
    backend_id: Seq<char>,
    handle_id: HandleId,
    up_at: i64,
    down_at: i64,
)
    requires
        v.wf(),
        last_match(v.streams, unstarted_on(backend_id, handle_id)) is Some,
    ensures
        ({
            let i = last_match(v.streams, unstarted_on(backend_id, handle_id))->Some_0;
            let w = webrtc_up_spec(v, backend_id, handle_id, up_at).0;
            let n = hangup_spec(w, backend_id, handle_id, down_at).1;
            &&& n.len() == 1
            &&& n[0].stream.id == v.streams[i].id
            &&& n[0].stream.rtc_id == v.streams[i].rtc_id
            &&& n[0].stream.started_at == Some(up_at)
            &&& n[0].stream.stopped_at == Some(stop_time(started(v.streams[i], up_at), down_at))
        }),
{
    let up = unstarted_on(backend_id, handle_id);
    let down = unstopped_on(backend_id, handle_id);
    lemma_last_match_facts(v.streams, up);
    let i = last_match(v.streams, up)->Some_0;
    assert(rtc_room(v.rtcs, v.streams[i].rtc_id) is Some && v.streams[i].times_valid());
    let w = webrtc_up_spec(v, backend_id, handle_id, up_at).0;
    assert(down(w.streams[i]));
    lemma_last_match_facts(w.streams, down);
    let k = last_match(w.streams, down)->Some_0;
    if k != i {
        assert(w.streams[k] == v.streams[k]);
        assert(v.streams[k].stopped_at is None && v.streams[i].stopped_at is None);
        if i < k {
            assert(!same_handle(v.streams[i], v.streams[k]));
        } else {
            assert(!same_handle(v.streams[k], v.streams[i]));
        }
    }
}

/// When a backend goes offline, every stream active on it is stopped, the
/// other streams are kept as they were, no row of the backend is left, and
/// exactly one update goes out per stream that was active.
pub proof fn lemma_offline_stops_each_active_stream(v: StoreView, backend_id: Seq<char>, now: i64)
    ensures
        ({
            let (w, n) = offline_spec(v, backend_id, now);
            let was_active = v.streams.filter(active_on(backend_id));
            &&& n.len() == was_active.len()
            &&& forall|k: int| 0 <= k < n.len() ==> #[trigger] n[k].stream == stopped(was_active[k], now)
            &&& w.streams.len() == v.streams.len()
            &&& forall|i: int|
                0 <= i < v.streams.len() && #[trigger] active_on(backend_id)(v.streams[i]) ==> {
                    &&& w.streams[i].stopped_at is Some
                    &&& !w.streams[i].is_active()
                }
            &&& forall|i: int|
                0 <= i < v.streams.len() && !#[trigger] active_on(backend_id)(v.streams[i])
                    ==> w.streams[i] == v.streams[i]
            &&& forall|j: int| 0 <= j < w.backends.len() ==> #[trigger] w.backends[j].id@ != backend_id
        }),
{
    let (w, n) = offline_spec(v, backend_id, now);
    assert forall|j: int| 0 <= j < w.backends.len() implies #[trigger] w.backends[j].id@ != backend_id by {
        v.backends.lemma_filter_pred(backend_other_than(backend_id), j);
    }
}

/// When the clock reads no earlier than the start of any stream active on
/// the backend, each of those streams stops exactly at `now`.
pub proof fn lemma_offline_stops_at_now(v: StoreView, backend_id: Seq<char>, now: i64)
    requires
        forall|i: int|
            0 <= i < v.streams.len() && #[trigger] active_on(backend_id)(v.streams[i]) ==> (v.streams[i].started_at
                matches Some(t) && t <= now),
    ensures
        ({
            let n = offline_spec(v, backend_id, now).1;
            forall|k: int| 0 <= k < n.len() ==> #[trigger] n[k].stream.stopped_at == Some(now)
        }),
{
    let was_active = v.streams.filter(active_on(backend_id));
    let n = offline_spec(v, backend_id, now).1;
    assert forall|k: int| 0 <= k < n.len() implies #[trigger] n[k].stream.stopped_at == Some(now) by {
        let s = was_active[k];
        v.streams.lemma_filter_pred(active_on(backend_id), k);
        assert(was_active.contains(s));
        v.streams.lemma_filter_contains_rev(active_on(backend_id), s);
        let i = choose|i: int| 0 <= i < v.streams.len() && v.streams[i] == s;
        assert(active_on(backend_id)(v.streams[i]));
    }
}

} // verus!


