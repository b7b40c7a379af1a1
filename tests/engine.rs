use conference::events::{HandleEvent, IncomingEvent, StatusEvent, StatusOutcome, EventResponse, TimeoutEvent};
use conference::ids::{HandleId, SessionId};
use conference::pool::HandlePool;
use conference::protocol::{
    classify_upload_event, create_pool_handle_requests, ErrorKind, ErrorScope, IncomingResponse,
    Outbound, PluginData,
};
use conference::room::{check_room, reader_configs, RoomError, RoomTimeRequirement};
use conference::store::{
    AgentConnection, AgentPresence, Backend, Recording, RecordingStatus, Room, Rtc, SharingPolicy,
    Store, StoreError, Stream,
};
use conference::sweep::Topic;
use conference::transaction::{
    register, resolve, CreateSessionTransaction, RequestOrigin, TokenError, Transaction,
    TransactionData, TransactionKind, UploadStreamTransaction,
};
use conference::upload::{
    record_name, record_path, upload_config, UploadConfig, UploadConfigs, UploadError,
    UploadResponse,
};

const RTC_A: u128 = 0x67e55044_10b1_426f_9247_bb680e5fe0c8;
const RTC_B: u128 = 0x67e55044_10b1_426f_9247_bb680e5fe0c9;
const RTC_C: u128 = 0x67e55044_10b1_426f_9247_bb680e5fe0ca;
const ROOM: u128 = 0x0000_0000_0000_4000_8000_0000_0000_0001;
const CLASSROOM: u128 = 0x1111_1111_1111_4111_8111_1111_1111_1111;

fn s(x: &str) -> String {
    x.to_string()
}

fn room(id: u128, closed_at: Option<i64>, policy: SharingPolicy) -> Room {
    Room {
        id,
        opened_at: Some(0),
        closed_at,
        audience: s("example.org"),
        sharing_policy: policy,
        host: None,
        classroom_id: None,
        backend_id: Some(s("janus")),
        timed_out: false,
    }
}

fn rtc(id: u128, room_id: u128, by: &str) -> Rtc {
    Rtc { id, room_id, created_by: s(by) }
}

fn stream(id: u128, backend: &str, handle: i64, rtc_id: u128, started: Option<i64>, stopped: Option<i64>) -> Stream {
    Stream {
        id,
        backend_id: s(backend),
        handle_id: HandleId(handle),
        rtc_id,
        started_at: started,
        stopped_at: stopped,
    }
}

fn recording(rtc_id: u128, status: RecordingStatus) -> Recording {
    Recording { rtc_id, status, started_at: None, segments: None, mjr_dumps_uris: None }
}

fn configs() -> UploadConfigs {
    UploadConfigs {
        shared: vec![(s("example.org"), UploadConfig { bucket: s("shared-bucket"), backend: s("yandex") })],
        owned: vec![(s("example.org"), UploadConfig { bucket: s("owned-bucket"), backend: s("yandex") })],
    }
}

fn store_with_room() -> Store {
    let mut st = Store::new();
    st.insert_room(room(ROOM, Some(100), SharingPolicy::Shared)).unwrap();
    st.insert_rtc(rtc(RTC_A, ROOM, "web.alice.example.org")).unwrap();
    st.insert_rtc(rtc(RTC_B, ROOM, "web.bob.example.org")).unwrap();
    st.insert_rtc(rtc(RTC_C, ROOM, "web.carol.example.org")).unwrap();
    st
}

fn done(id: u128) -> UploadResponse {
    UploadResponse::Done { id, segments: vec![(0, 1000)], started_at: 1_600_000_000_000, mjr_dumps_uris: None }
}

// ---------------------------------------------------------------------------
// Tokens

fn sample_transactions() -> Vec<Transaction> {
    let origin = || RequestOrigin {
        agent_id: s("web.alice.example.org"),
        correlation_data: s("corr-1"),
        method: s("rtc_signal.create"),
    };
    let mut data = TransactionData::new(-42);
    data.set_capacity(10);
    data.set_group("east");
    vec![
        Transaction { trace_id: s("t"), kind: None },
        Transaction {
            trace_id: s("trace-ü"),
            kind: Some(TransactionKind::CreateSession(CreateSessionTransaction {
                capacity: Some(i32::MIN),
                balancer_capacity: Some(i32::MAX),
                group: Some(s("grüppe")),
                janus_url: None,
            })),
        },
        Transaction { trace_id: s(""), kind: Some(TransactionKind::CreateControlHandle(data)) },
        Transaction { trace_id: s("p"), kind: Some(TransactionKind::CreatePoolHandle(SessionId(i64::MIN))) },
        Transaction { trace_id: s("c"), kind: Some(TransactionKind::CreateStream(origin())) },
        Transaction { trace_id: s("r"), kind: Some(TransactionKind::ReadStream(origin())) },
        Transaction { trace_id: s("k"), kind: Some(TransactionKind::Trickle(origin())) },
        Transaction {
            trace_id: s("u"),
            kind: Some(TransactionKind::UploadStream(UploadStreamTransaction {
                rtc_id: u128::MAX,
                start_timestamp: i64::MAX,
            })),
        },
        Transaction { trace_id: s("a"), kind: Some(TransactionKind::AgentSpeaking) },
        Transaction { trace_id: s("s"), kind: Some(TransactionKind::ServicePing) },
    ]
}

#[test]
fn token_round_trip_for_every_kind() {
    for t in sample_transactions() {
        let token = register(&t);
        let back = resolve(&token).expect("token resolves");
        assert_eq!(back.trace_id, t.trace_id);
        assert_eq!(register(&back), token);
    }
}

#[test]
fn token_round_trip_keeps_fields() {
    let t = &sample_transactions()[7];
    match resolve(&register(t)).unwrap().kind {
        Some(TransactionKind::UploadStream(u)) => {
            assert_eq!(u.rtc_id, u128::MAX);
            assert_eq!(u.start_timestamp, i64::MAX);
        }
        _ => panic!("wrong kind"),
    }
    let t = &sample_transactions()[2];
    match resolve(&register(t)).unwrap().kind {
        Some(TransactionKind::CreateControlHandle(d)) => {
            assert_eq!(d.session_id(), -42);
            assert_eq!(d.capacity(), Some(10));
            assert_eq!(d.balancer_capacity(), None);
            assert_eq!(d.group(), Some("east"));
            assert_eq!(d.janus_url(), None);
        }
        _ => panic!("wrong kind"),
    }
}

#[test]
fn token_is_hex_of_length_prefixed_fields() {
    let token = register(&Transaction { trace_id: s("t"), kind: None });
    assert_eq!(token, b"00000000000000017400".to_vec());
    let token = register(&Transaction { trace_id: s(""), kind: Some(TransactionKind::AgentSpeaking) });
    assert_eq!(token, b"00000000000000000107".to_vec());
}

#[test]
fn tokens_that_are_not_hex_are_refused() {
    assert!(matches!(resolve(&b"0g".to_vec()), Err(TokenError::NotHex)));
    assert!(matches!(resolve(&b"000".to_vec()), Err(TokenError::NotHex)));
    assert!(matches!(resolve(&b"00AA".to_vec()), Err(TokenError::NotHex)));
}

#[test]
fn malformed_tokens_are_refused() {
    assert!(matches!(resolve(&b"".to_vec()), Err(TokenError::Malformed)));
    // trailing byte after a complete transaction
    assert!(matches!(resolve(&b"0000000000000001740000".to_vec()), Err(TokenError::Malformed)));
    // unknown kind tag
    assert!(matches!(resolve(&b"00000000000000000109".to_vec()), Err(TokenError::Malformed)));
    // text that is not UTF-8
    assert!(matches!(resolve(&b"0000000000000001ff00".to_vec()), Err(TokenError::Malformed)));
}

// ---------------------------------------------------------------------------
// Stream lifecycle

#[test]
fn webrtc_up_without_waiting_stream_changes_nothing() {
    let mut st = store_with_room();
    st.insert_stream(stream(1, "janus", 7, RTC_A, Some(5), None)).unwrap();
    let notes = st.handle_webrtc_up(&s("janus"), HandleId(8), 10);
    assert!(notes.is_empty());
    let notes = st.handle_webrtc_up(&s("janus"), HandleId(7), 10);
    assert!(notes.is_empty());
    assert_eq!(st.streams()[0].started_at, Some(5));
    assert_eq!(st.streams()[0].stopped_at, None);
}

#[test]
fn hangup_after_webrtc_up_notifies_once() {
    let mut st = store_with_room();
    st.insert_stream(stream(1, "janus", 7, RTC_A, None, None)).unwrap();
    st.insert_connection(AgentConnection {
        agent_id: s("web.bob.example.org"),
        room_id: ROOM,
        backend_id: s("janus"),
        handle_id: HandleId(9),
    });
    let up = st.handle_webrtc_up(&s("janus"), HandleId(7), 1_000);
    assert_eq!(up.len(), 1);
    assert_eq!(up[0].room_id, ROOM);
    assert_eq!(up[0].stream.started_at, Some(1_000));
    let down = st.handle_hangup_detach(&s("janus"), HandleId(7), 2_000);
    assert_eq!(down.len(), 1);
    assert_eq!(down[0].stream.id, 1);
    assert_eq!(down[0].stream.started_at, Some(1_000));
    assert_eq!(down[0].stream.stopped_at, Some(2_000));
    assert!(st.connections().is_empty());
    let again = st.handle_hangup_detach(&s("janus"), HandleId(7), 3_000);
    assert!(again.is_empty());
}

#[test]
fn hangup_never_stops_before_start() {
    let mut st = store_with_room();
    st.insert_stream(stream(1, "janus", 7, RTC_A, None, None)).unwrap();
    st.handle_webrtc_up(&s("janus"), HandleId(7), 5_000);
    let down = st.handle_hangup_detach(&s("janus"), HandleId(7), 4_000);
    assert_eq!(down.len(), 1);
    assert_eq!(down[0].stream.stopped_at, Some(5_000));
}

#[test]
fn hangup_without_start_is_noop() {
    let mut st = store_with_room();
    st.insert_stream(stream(1, "janus", 7, RTC_A, None, None)).unwrap();
    let down = st.handle_hangup_detach(&s("janus"), HandleId(7), 4_000);
    assert!(down.is_empty());
    assert_eq!(st.streams()[0].stopped_at, None);
}

#[test]
fn backend_offline_stops_each_active_stream_once() {
    let mut st = store_with_room();
    st.upsert_backend(Backend {
        id: s("janus"),
        session_id: SessionId(1),
        handle_id: HandleId(2),
        capacity: None,
        balancer_capacity: None,
        group: None,
    });
    st.upsert_backend(Backend {
        id: s("other"),
        session_id: SessionId(3),
        handle_id: HandleId(4),
        capacity: None,
        balancer_capacity: None,
        group: None,
    });
    st.insert_stream(stream(1, "janus", 7, RTC_A, Some(10), None)).unwrap();
    st.insert_stream(stream(2, "janus", 8, RTC_B, Some(10), Some(20))).unwrap();
    st.insert_stream(stream(3, "janus", 9, RTC_C, Some(30), None)).unwrap();
    st.insert_stream(stream(4, "other", 9, RTC_C, Some(30), None)).unwrap();
    st.insert_stream(stream(5, "janus", 6, RTC_C, None, None)).unwrap();
    st.insert_connection(AgentConnection {
        agent_id: s("web.alice.example.org"),
        room_id: ROOM,
        backend_id: s("janus"),
        handle_id: HandleId(7),
    });
    st.insert_connection(AgentConnection {
        agent_id: s("web.dave.example.org"),
        room_id: ROOM,
        backend_id: s("other"),
        handle_id: HandleId(9),
    });
    let notes = st.handle_backend_offline(&s("janus"), 100);
    let ids: Vec<u128> = notes.iter().map(|n| n.stream.id).collect();
    assert_eq!(ids, vec![1, 3]);
    assert!(notes.iter().all(|n| n.stream.stopped_at == Some(100) && n.room_id == ROOM));
    assert_eq!(st.streams()[0].stopped_at, Some(100));
    assert_eq!(st.streams()[1].stopped_at, Some(20));
    assert_eq!(st.streams()[3].stopped_at, None);
    assert_eq!(st.streams()[4].stopped_at, None);
    assert_eq!(st.backends().len(), 1);
    assert_eq!(st.backends()[0].id, "other");
    assert_eq!(st.connections().len(), 1);
    assert_eq!(st.connections()[0].backend_id, "other");
}

#[test]
fn handle_events_drive_the_lifecycle() {
    let mut st = store_with_room();
    st.insert_stream(stream(1, "janus", 7, RTC_A, None, None)).unwrap();
    let ev = |h| HandleEvent { session_id: 1, handle_id: HandleId(h), opaque_id: s("o") };
    assert!(st.handle_event(&s("janus"), &IncomingEvent::Media(ev(7)), 1).is_empty());
    assert_eq!(st.handle_event(&s("janus"), &IncomingEvent::WebRtcUp(ev(7)), 2).len(), 1);
    assert_eq!(st.handle_event(&s("janus"), &IncomingEvent::Detached(ev(7)), 3).len(), 1);
    assert_eq!(st.streams()[0].stopped_at, Some(3));
}

// ---------------------------------------------------------------------------
// Uploads

#[test]
fn upload_event_waits_for_every_recording() {
    let mut st = store_with_room();
    for id in [RTC_A, RTC_B, RTC_C] {
        st.insert_recording(recording(id, RecordingStatus::InProgress)).unwrap();
    }
    assert!(st.handle_upload_response(done(RTC_A), &configs()).unwrap().is_none());
    assert!(st.handle_upload_response(done(RTC_B), &configs()).unwrap().is_none());
    let event = st
        .handle_upload_response(UploadResponse::Missing { id: RTC_C }, &configs())
        .unwrap()
        .expect("room complete");
    assert_eq!(event.id, ROOM);
    assert_eq!(event.rtcs.len(), 3);
    assert_eq!(event.rtcs[0].status, RecordingStatus::Ready);
    assert_eq!(
        event.rtcs[0].uri.as_deref(),
        Some("s3://shared-bucket/67e55044-10b1-426f-9247-bb680e5fe0c8.source.webm")
    );
    assert_eq!(event.rtcs[1].created_by, "web.bob.example.org");
    assert!(event.rtcs[1].uri.is_some());
    assert_eq!(event.rtcs[2].status, RecordingStatus::Missing);
    assert!(event.rtcs[2].uri.is_none());
    assert_eq!(st.recordings()[0].started_at, Some(1_600_000_000_000));
    assert_eq!(st.recordings()[0].segments, Some(vec![(0, 1000)]));
    // a repeated answer for a final recording owes nothing more
    assert!(st.handle_upload_response(done(RTC_A), &configs()).unwrap().is_none());
}

#[test]
fn upload_event_after_third_ready() {
    let mut st = store_with_room();
    st.insert_recording(recording(RTC_A, RecordingStatus::Ready)).unwrap();
    st.insert_recording(recording(RTC_B, RecordingStatus::Ready)).unwrap();
    st.insert_recording(recording(RTC_C, RecordingStatus::InProgress)).unwrap();
    let event = st.handle_upload_response(done(RTC_C), &configs()).unwrap().unwrap();
    assert_eq!(event.rtcs.len(), 3);
    assert!(event.rtcs.iter().all(|e| e.uri.is_some()));
}

#[test]
fn already_running_changes_nothing() {
    let mut st = store_with_room();
    st.insert_recording(recording(RTC_A, RecordingStatus::InProgress)).unwrap();
    let r = st.handle_upload_response(UploadResponse::AlreadyRunning { id: RTC_A }, &configs());
    assert!(matches!(r, Ok(None)));
    assert_eq!(st.recordings()[0].status, RecordingStatus::InProgress);
    assert_eq!(st.recordings()[0].started_at, None);
}

#[test]
fn upload_of_unknown_recording_fails() {
    let mut st = store_with_room();
    let r = st.handle_upload_response(done(RTC_A), &configs());
    assert!(matches!(r, Err(UploadError::RecordingNotFound)));
    let r = st.handle_upload_response(UploadResponse::Missing { id: RTC_A }, &configs());
    assert!(matches!(r, Err(UploadError::RecordingNotFound)));
}

#[test]
fn upload_needs_a_known_room() {
    let mut st = Store::new();
    st.insert_room(room(ROOM, Some(1), SharingPolicy::Shared)).unwrap();
    st.insert_rtc(rtc(RTC_A, ROOM, "web.alice.example.org")).unwrap();
    st.insert_recording(recording(RTC_A, RecordingStatus::InProgress)).unwrap();
    let task = conference::sweep::UploadTask { room_id: 99, rtc_id: RTC_A, backend_id: s("janus"), announce_close: true };
    assert!(matches!(st.start_upload(&task, &configs()), Err(UploadError::RoomNotFound)));
}

#[test]
fn record_names_follow_the_sharing_policy() {
    let rec = recording(RTC_A, RecordingStatus::Ready);
    let shared = room(ROOM, None, SharingPolicy::Shared);
    assert_eq!(record_name(&rec, &shared), "67e55044-10b1-426f-9247-bb680e5fe0c8.source.webm");
    let mut owned = room(ROOM, None, SharingPolicy::Owned);
    assert_eq!(record_name(&rec, &owned), "67e55044-10b1-426f-9247-bb680e5fe0c8.source.webm");
    owned.classroom_id = Some(CLASSROOM);
    assert_eq!(
        record_name(&rec, &owned),
        "11111111-1111-4111-8111-111111111111/67e55044-10b1-426f-9247-bb680e5fe0c8.source.webm"
    );
    let mut shared_with_class = shared;
    shared_with_class.classroom_id = Some(CLASSROOM);
    assert_eq!(record_name(&rec, &shared_with_class), "67e55044-10b1-426f-9247-bb680e5fe0c8.source.webm");
    assert_eq!(record_path(Some(&s("c")), &s("r")), "c/r.source.webm");
    assert_eq!(record_path(None, &s("r")), "r.source.webm");
}

#[test]
fn upload_config_by_policy_and_audience() {
    let cfg = configs();
    let shared = room(ROOM, None, SharingPolicy::Shared);
    assert_eq!(upload_config(&cfg, &shared).unwrap().bucket, "shared-bucket");
    let owned = room(ROOM, None, SharingPolicy::Owned);
    assert_eq!(upload_config(&cfg, &owned).unwrap().bucket, "owned-bucket");
    let none = room(ROOM, None, SharingPolicy::NotShared);
    assert!(matches!(upload_config(&cfg, &none), Err(UploadError::NotImplemented)));
    let mut other = room(ROOM, None, SharingPolicy::Shared);
    other.audience = s("other.org");
    assert!(matches!(upload_config(&cfg, &other), Err(UploadError::ConfigKeyMissing)));
}

#[test]
fn vacuum_pass_over_finished_rooms() {
    let mut st = store_with_room();
    st.upsert_backend(Backend {
        id: s("janus"),
        session_id: SessionId(1),
        handle_id: HandleId(2),
        capacity: None,
        balancer_capacity: None,
        group: Some(s("east")),
    });
    st.insert_room(room(2, None, SharingPolicy::Shared)).unwrap();
    st.insert_rtc(rtc(5, 2, "web.erin.example.org")).unwrap();
    st.insert_recording(recording(RTC_A, RecordingStatus::InProgress)).unwrap();
    st.insert_recording(recording(RTC_B, RecordingStatus::Ready)).unwrap();
    st.insert_recording(recording(5, RecordingStatus::InProgress)).unwrap();
    st.insert_presence(AgentPresence { agent_id: s("web.alice.example.org"), room_id: ROOM });
    st.insert_presence(AgentPresence { agent_id: s("web.erin.example.org"), room_id: 2 });

    assert!(st.vacuum_tasks(Some(&s("west")), 1_000).is_empty());
    assert!(st.vacuum_tasks(None, 50).is_empty());
    let tasks = st.vacuum_tasks(Some(&s("east")), 1_000);
    assert_eq!(tasks.len(), 1);
    assert_eq!(tasks[0].rtc_id, RTC_A);
    assert_eq!(tasks[0].room_id, ROOM);
    assert_eq!(tasks[0].backend_id, "janus");

    assert!(tasks[0].announce_close);
    let start = st.start_upload(&tasks[0], &configs()).unwrap();
    assert_eq!(start.request.id, RTC_A);
    assert_eq!(start.request.bucket, "shared-bucket");
    assert_eq!(start.request.backend, "yandex");
    assert!(matches!(start.close.as_ref().map(|c| &c.topic), Some(Topic::Room(ROOM))));
    assert_eq!(st.presences().len(), 1);
    assert_eq!(st.presences()[0].room_id, 2);
    let r = st.handle_upload_response(UploadResponse::AlreadyRunning { id: RTC_A }, &configs());
    assert!(matches!(r, Ok(None)));
}

#[test]
fn vacuum_announces_each_room_once() {
    let mut st = store_with_room();
    st.upsert_backend(Backend {
        id: s("janus"),
        session_id: SessionId(1),
        handle_id: HandleId(2),
        capacity: None,
        balancer_capacity: None,
        group: None,
    });
    for id in [RTC_A, RTC_B, RTC_C] {
        st.insert_recording(recording(id, RecordingStatus::InProgress)).unwrap();
    }
    let tasks = st.vacuum_tasks(None, 1_000);
    assert_eq!(tasks.len(), 3);
    let flags: Vec<bool> = tasks.iter().map(|t| t.announce_close).collect();
    assert_eq!(flags, vec![true, false, false]);
    let closes = tasks
        .iter()
        .filter_map(|t| st.start_upload(t, &configs()).unwrap().close)
        .count();
    assert_eq!(closes, 1);
}

// ---------------------------------------------------------------------------
// Orphaned rooms

#[test]
fn orphan_sweep_closes_open_rooms_once() {
    let mut st = Store::new();
    st.insert_room(room(1, None, SharingPolicy::Shared)).unwrap();
    st.insert_room(room(2, Some(10), SharingPolicy::Shared)).unwrap();
    st.insert_room(room(3, None, SharingPolicy::Shared)).unwrap();
    st.upsert_orphan(1, 50);
    st.upsert_orphan(2, 50);
    st.upsert_orphan(3, 500);
    st.upsert_orphan(1, 60);
    assert_eq!(st.orphans().len(), 3);
    let notes = st.close_orphaned_rooms(100);
    assert_eq!(notes.len(), 2);
    assert!(matches!(notes[0].topic, Topic::Room(1)));
    assert!(matches!(&notes[1].topic, Topic::Audience(a) if a == "example.org"));
    assert_eq!(notes[0].room.closed_at, Some(100));
    assert!(notes[0].room.timed_out);
    assert_eq!(st.rooms()[0].closed_at, Some(100));
    assert_eq!(st.rooms()[1].closed_at, Some(10));
    assert!(!st.rooms()[1].timed_out);
    assert_eq!(st.orphans().len(), 1);
    assert_eq!(st.orphans()[0].room_id, 3);
    assert!(st.close_orphaned_rooms(100).is_empty());
}

#[test]
fn orphan_sweep_at_current_time_closes_past_deadlines() {
    let mut st = Store::new();
    st.insert_room(room(1, None, SharingPolicy::Shared)).unwrap();
    st.upsert_orphan(1, 0);
    let notes = st.close_orphaned_rooms_now();
    assert_eq!(notes.len(), 2);
    assert!(st.orphans().is_empty());
}

// ---------------------------------------------------------------------------
// Protocol

#[test]
fn upload_plugin_data_is_classified() {
    let data = |status: Option<&str>| PluginData {
        status: status.map(s),
        id: Some(RTC_A),
        state: None,
        started_at: Some(1_000),
        time: Some(vec![(1, 2)]),
        mjr_dumps_uris: None,
    };
    assert!(matches!(classify_upload_event(data(Some("404")), RTC_B), Ok(UploadResponse::Missing { id }) if id == RTC_B));
    assert!(matches!(classify_upload_event(data(Some("500")), RTC_B), Err(ErrorKind::BackendRequestFailed)));
    assert!(matches!(classify_upload_event(data(None), RTC_B), Err(ErrorKind::MessageParsingFailed)));
    assert!(matches!(
        classify_upload_event(data(Some("200")), RTC_B),
        Ok(UploadResponse::Done { id, started_at: 1_000, .. }) if id == RTC_A
    ));
    let mut running = data(Some("200"));
    running.state = Some(s("already_running"));
    assert!(matches!(classify_upload_event(running, RTC_B), Ok(UploadResponse::AlreadyRunning { id }) if id == RTC_A));
    let mut late = data(Some("200"));
    late.started_at = Some(u64::MAX);
    assert!(matches!(classify_upload_event(late, RTC_B), Err(ErrorKind::MessageParsingFailed)));
}

#[test]
fn session_success_warms_pool_and_asks_for_control_handle() {
    let mut st = Store::new();
    let t = Transaction {
        trace_id: s("tr"),
        kind: Some(TransactionKind::CreateSession(CreateSessionTransaction {
            capacity: Some(4),
            balancer_capacity: Some(2),
            group: Some(s("east")),
            janus_url: Some(s("http://janus")),
        })),
    };
    let resp = IncomingResponse::Success { transaction: register(&t), id: 77 };
    let out = st.handle_response(&s("janus"), resp, &configs()).unwrap();
    assert_eq!(out.len(), 2);
    assert!(matches!(&out[0], Outbound::StartHandlePool { session_id: 77, capacity: Some(4), .. }));
    let token = match &out[1] {
        Outbound::CreateHandle(req) => {
            assert_eq!(req.session_id, 77);
            assert_eq!(req.plugin, "janus.plugin.conference");
            req.transaction.clone()
        }
        _ => panic!("expected a handle request"),
    };
    let control = resolve(&token).unwrap();
    assert_eq!(control.trace_id, "tr");
    match control.kind {
        Some(TransactionKind::CreateControlHandle(d)) => {
            assert_eq!(d.session_id(), 77);
            assert_eq!(d.capacity(), Some(4));
            assert_eq!(d.balancer_capacity(), Some(2));
            assert_eq!(d.group(), Some("east"));
            assert_eq!(d.janus_url(), Some("http://janus"));
        }
        _ => panic!("expected a control handle transaction"),
    }
    // the control handle answer registers the backend
    let resp = IncomingResponse::Success { transaction: token, id: 88 };
    let out = st.handle_response(&s("janus"), resp, &configs()).unwrap();
    assert!(out.is_empty());
    assert_eq!(st.backends().len(), 1);
    assert_eq!(st.backends()[0].handle_id, HandleId(88));
    assert_eq!(st.backends()[0].session_id, SessionId(77));
    assert_eq!(st.backends()[0].group.as_deref(), Some("east"));
}

#[test]
fn error_messages_and_bad_tokens_are_permanent_failures() {
    let mut st = Store::new();
    let r = st.handle_response(&s("janus"), IncomingResponse::Error { scope: ErrorScope::Session, reason: s("x") }, &configs());
    assert!(matches!(r, Err(ErrorKind::MessageParsingFailed)));
    let r = st.handle_response(&s("janus"), IncomingResponse::Ack { transaction: b"zz".to_vec() }, &configs());
    assert!(matches!(r, Err(ErrorKind::MessageParsingFailed)));
}

#[test]
fn stream_events_answer_the_requester() {
    let mut st = Store::new();
    let origin = RequestOrigin { agent_id: s("web.alice.example.org"), correlation_data: s("c1"), method: s("m") };
    let token = register(&Transaction { trace_id: s("t"), kind: Some(TransactionKind::CreateStream(origin)) });
    let data = |status: &str| PluginData {
        status: Some(s(status)),
        id: None,
        state: None,
        started_at: None,
        time: None,
        mjr_dumps_uris: None,
    };
    let ok = IncomingResponse::Event { transaction: token.clone(), plugin_data: Some(data("200")), jsep: Some(s("{\"type\":\"answer\"}")) };
    let out = st.handle_response(&s("janus"), ok, &configs()).unwrap();
    assert!(matches!(&out[0], Outbound::Reply { to, jsep: Some(j) } if to.correlation_data == "c1" && j.contains("answer")));
    let failed = IncomingResponse::Event { transaction: token.clone(), plugin_data: Some(data("500")), jsep: None };
    let out = st.handle_response(&s("janus"), failed, &configs()).unwrap();
    assert!(matches!(&out[0], Outbound::ReplyError { error: ErrorKind::BackendRequestFailed, .. }));
    let no_jsep = IncomingResponse::Event { transaction: token.clone(), plugin_data: Some(data("200")), jsep: None };
    let out = st.handle_response(&s("janus"), no_jsep, &configs()).unwrap();
    assert!(matches!(&out[0], Outbound::ReplyError { error: ErrorKind::MessageParsingFailed, .. }));
    let no_data = IncomingResponse::Event { transaction: token, plugin_data: None, jsep: None };
    assert!(matches!(st.handle_response(&s("janus"), no_data, &configs()), Err(ErrorKind::MessageParsingFailed)));
}

#[test]
fn trickle_ack_and_pool_handles() {
    let mut st = Store::new();
    let origin = RequestOrigin { agent_id: s("a"), correlation_data: s("c"), method: s("m") };
    let token = register(&Transaction { trace_id: s("t"), kind: Some(TransactionKind::Trickle(origin)) });
    let out = st.handle_response(&s("janus"), IncomingResponse::Ack { transaction: token }, &configs()).unwrap();
    assert!(matches!(&out[0], Outbound::Reply { jsep: None, .. }));
    let reqs = create_pool_handle_requests(&s("janus"), &s("t"), 5, 3);
    assert_eq!(reqs.len(), 3);
    let out = st
        .handle_response(&s("janus"), IncomingResponse::Success { transaction: reqs[0].transaction.clone(), id: 9 }, &configs())
        .unwrap();
    assert!(matches!(&out[0], Outbound::PoolHandleCreated { handle_id: 9, .. }));
}

#[test]
fn upload_stream_event_updates_recording() {
    let mut st = store_with_room();
    st.insert_recording(recording(RTC_A, RecordingStatus::InProgress)).unwrap();
    let token = register(&Transaction {
        trace_id: s("t"),
        kind: Some(TransactionKind::UploadStream(UploadStreamTransaction { rtc_id: RTC_A, start_timestamp: 1 })),
    });
    let data = PluginData { status: Some(s("404")), id: None, state: None, started_at: None, time: None, mjr_dumps_uris: None };
    let resp = IncomingResponse::Event { transaction: token, plugin_data: Some(data), jsep: None };
    let out = st.handle_response(&s("janus"), resp, &configs()).unwrap();
    assert!(out.is_empty());
    assert_eq!(st.recordings()[0].status, RecordingStatus::Missing);
}

#[test]
fn status_events_open_sessions_or_stop_streams() {
    let mut st = store_with_room();
    st.insert_stream(stream(1, "janus", 7, RTC_A, Some(1), None)).unwrap();
    let online = StatusEvent { online: true, capacity: Some(3), balancer_capacity: None, group: None, janus_url: None };
    match st.handle_status_event(&s("janus"), &s("t"), &online, 10) {
        StatusOutcome::CreateSession(req) => match resolve(&req.transaction).unwrap().kind {
            Some(TransactionKind::CreateSession(c)) => assert_eq!(c.capacity, Some(3)),
            _ => panic!("expected a session transaction"),
        },
        _ => panic!("expected a session request"),
    }
    let offline = StatusEvent { online: false, capacity: None, balancer_capacity: None, group: None, janus_url: None };
    match st.handle_status_event(&s("janus"), &s("t"), &offline, 10) {
        StatusOutcome::Offline(n) => assert_eq!(n.len(), 1),
        _ => panic!("expected stopped streams"),
    }
}

// ---------------------------------------------------------------------------
// Events, rooms, store

#[test]
fn event_kinds_and_ids() {
    let h = HandleEvent { session_id: 1, handle_id: HandleId::stub_id(), opaque_id: s("op") };
    let ev = IncomingEvent::WebRtcUp(h);
    assert_eq!(ev.event_kind(), "WebRtcUp");
    assert_eq!(ev.opaque_id().map(|x| x.as_str()), Some("op"));
    assert_eq!(ev.trace_id(), None);
    assert_eq!(IncomingEvent::Timeout(TimeoutEvent { session_id: 1 }).event_kind(), "Media");
    let speaking = IncomingEvent::Event(EventResponse {
        transaction: Transaction { trace_id: s("tr"), kind: Some(TransactionKind::AgentSpeaking) },
    });
    assert_eq!(speaking.event_kind(), "AgentSpeaking");
    assert_eq!(speaking.trace_id().map(|x| x.as_str()), Some("tr"));
    assert_eq!(speaking.opaque_id(), None);
    let empty = IncomingEvent::Event(EventResponse { transaction: Transaction { trace_id: s(""), kind: None } });
    assert_eq!(empty.event_kind(), "EmptyTran");
    let ping = IncomingEvent::Event(EventResponse {
        transaction: Transaction { trace_id: s("p"), kind: Some(TransactionKind::ServicePing) },
    });
    assert_eq!(ping.event_kind(), "EmptyTran");
    assert_eq!(HandleId::stub_id(), HandleId(123));
}

#[test]
fn room_time_requirements() {
    let mut r = room(ROOM, Some(100), SharingPolicy::Shared);
    r.opened_at = Some(10);
    assert!(check_room(r.duplicate(), RoomTimeRequirement::Any, 500).is_ok());
    assert!(check_room(r.duplicate(), RoomTimeRequirement::Open, 50).is_ok());
    assert!(matches!(check_room(r.duplicate(), RoomTimeRequirement::Open, 5), Err(RoomError::RoomClosed)));
    assert!(matches!(check_room(r.duplicate(), RoomTimeRequirement::Open, 101), Err(RoomError::RoomClosed)));
    assert!(check_room(r.duplicate(), RoomTimeRequirement::NotClosed, 5).is_ok());
    r.opened_at = None;
    assert!(matches!(check_room(r.duplicate(), RoomTimeRequirement::NotClosed, 5), Err(RoomError::RoomClosed)));
    assert!(check_room(r.duplicate(), RoomTimeRequirement::NotClosedOrUnboundedOpen, 5).is_ok());
    assert!(check_room(r, RoomTimeRequirement::NotClosedOrUnboundedOpen, 101).is_err());
}

#[test]
fn presence_checks() {
    let mut st = store_with_room();
    st.insert_presence(AgentPresence { agent_id: s("web.alice.example.org"), room_id: ROOM });
    assert!(st.check_room_presence(ROOM, &s("web.alice.example.org")).is_ok());
    assert!(matches!(st.check_room_presence(ROOM, &s("web.bob.example.org")), Err(RoomError::AgentNotEnteredTheRoom)));
}

#[test]
fn reader_configs_follow_the_host() {
    let rtcs = vec![rtc(1, ROOM, "web.alice.example.org"), rtc(2, ROOM, "web.bob.example.org"), rtc(3, ROOM, "m.bob.example.org")];
    let mut r = room(ROOM, None, SharingPolicy::Owned);
    let items = reader_configs(&r, &rtcs, &s("bob.example.org")).unwrap();
    assert_eq!(items.len(), 3);
    assert!(items.iter().all(|i| i.stream_id == 2 && i.receive_video && i.receive_audio));
    r.host = Some(s("web.alice.example.org"));
    let items = reader_configs(&r, &rtcs, &s("alice.example.org")).unwrap();
    assert_eq!(items[0].stream_id, 1);
    assert!(items[0].receive_video);
    assert!(!items[1].receive_video);
    assert_eq!(items[2].reader_id, "m.bob.example.org");
    assert!(matches!(reader_configs(&r, &rtcs, &s("carol.example.org")), Err(RoomError::AgentNotConnected)));
}

#[test]
fn store_refuses_bad_rows() {
    let mut st = store_with_room();
    assert_eq!(st.insert_room(room(ROOM, None, SharingPolicy::Shared)), Err(StoreError::Duplicate));
    assert_eq!(st.insert_rtc(rtc(RTC_A, ROOM, "x")), Err(StoreError::Duplicate));
    assert_eq!(st.insert_rtc(rtc(9, 12345, "x")), Err(StoreError::MissingReference));
    assert_eq!(st.insert_stream(stream(1, "j", 1, 9, None, None)), Err(StoreError::MissingReference));
    assert_eq!(st.insert_stream(stream(1, "j", 1, RTC_A, None, Some(3))), Err(StoreError::InvalidTimes));
    assert_eq!(st.insert_stream(stream(1, "j", 1, RTC_A, Some(5), Some(3))), Err(StoreError::InvalidTimes));
    assert_eq!(st.insert_recording(recording(9, RecordingStatus::Ready)), Err(StoreError::MissingReference));
    st.insert_recording(recording(RTC_A, RecordingStatus::Ready)).unwrap();
    assert_eq!(st.insert_recording(recording(RTC_A, RecordingStatus::Ready)), Err(StoreError::Duplicate));
    assert!(st.streams().is_empty());
}

#[test]
fn random_ids_are_drawn() {
    let a = HandleId::random();
    let b = SessionId::random();
    let _ = (a, b);
}

#[test]
fn pool_keeps_handles_of_known_backends_only() {
    let mut st = Store::new();
    st.upsert_backend(Backend {
        id: s("janus"),
        session_id: SessionId(1),
        handle_id: HandleId(2),
        capacity: Some(2),
        balancer_capacity: None,
        group: None,
    });
    let mut pool = HandlePool::new();
    assert!(pool.handle_created_callback(&st, &s("janus"), 10));
    assert!(pool.handle_created_callback(&st, &s("janus"), 11));
    assert!(!pool.handle_created_callback(&st, &s("gone"), 12));
    assert_eq!(pool.handles().len(), 2);
    assert_eq!(pool.handles()[1].handle_id, 11);
    pool.remove_backend(&s("janus"));
    assert!(pool.handles().is_empty());
}

#[test]
fn upsert_backend_replaces_the_row() {
    let mut st = Store::new();
    let b = |h| Backend {
        id: s("janus"),
        session_id: SessionId(1),
        handle_id: HandleId(h),
        capacity: None,
        balancer_capacity: None,
        group: None,
    };
    st.upsert_backend(b(1));
    st.upsert_backend(b(2));
    assert_eq!(st.backends().len(), 1);
    assert_eq!(st.backends()[0].handle_id, HandleId(2));
}

#[test]
fn list_agents_pages_open_rooms() {
    let mut st = Store::new();
    let mut open = room(ROOM, None, SharingPolicy::Shared);
    open.opened_at = Some(10);
    st.insert_room(open).unwrap();
    st.insert_room(room(2, Some(20), SharingPolicy::Shared)).unwrap();
    for n in 0..30 {
        st.insert_presence(AgentPresence { agent_id: format!("web.user{}.example.org", n), room_id: ROOM });
    }
    st.insert_presence(AgentPresence { agent_id: s("web.other.example.org"), room_id: 2 });
    let all = st.list_agents(ROOM, None, None, 100).unwrap();
    assert_eq!(all.len(), 25);
    assert_eq!(all[0].agent_id, "web.user0.example.org");
    let page = st.list_agents(ROOM, Some(28), Some(10), 100).unwrap();
    assert_eq!(page.len(), 2);
    assert_eq!(page[1].agent_id, "web.user29.example.org");
    let page = st.list_agents(ROOM, Some(5), Some(3), 100).unwrap();
    assert_eq!(page.iter().map(|a| a.agent_id.as_str()).collect::<Vec<_>>(), vec!["web.user5.example.org", "web.user6.example.org", "web.user7.example.org"]);
    assert!(st.list_agents(ROOM, Some(40), None, 100).unwrap().is_empty());
    assert!(matches!(st.list_agents(2, None, None, 100), Err(RoomError::RoomClosed)));
    assert!(matches!(st.list_agents(ROOM, None, None, 5), Err(RoomError::RoomClosed)));
    assert!(matches!(st.list_agents(77, None, None, 100), Err(RoomError::RoomNotFound)));
}

fn open_room(id: u128) -> Room {
    Room {
        id,
        opened_at: Some(0),
        closed_at: Some(3_600_000),
        audience: s("dev.svc.example.org"),
        sharing_policy: SharingPolicy::Shared,
        host: None,
        classroom_id: None,
        backend_id: None,
        timed_out: false,
    }
}

#[test]
fn list_agents() {
    let mut st = Store::new();
    let agent = s("web.user123.dev.usr.example.org");
    st.insert_room(open_room(ROOM)).unwrap();
    st.insert_presence(AgentPresence { agent_id: agent.clone(), room_id: ROOM });
    let agents = st.list_agents(ROOM, None, None, 1_000).expect("Agents listing failed");
    assert_eq!(agents.len(), 1);
    assert_eq!(agents[0].agent_id, agent);
    assert_eq!(agents[0].room_id, ROOM);
}

#[test]
fn list_agents_closed_room() {
    let mut st = Store::new();
    let mut closed = open_room(ROOM);
    closed.opened_at = Some(-36_000_000);
    closed.closed_at = Some(-28_800_000);
    st.insert_room(closed).unwrap();
    let err = st.list_agents(ROOM, None, None, 0).expect_err("Unexpected success on agents listing");
    assert_eq!(err.status(), 404);
    assert_eq!(err.kind(), "room_closed");
}

#[test]
fn list_agents_missing_room() {
    let st = Store::new();
    let err = st.list_agents(ROOM, None, None, 0).expect_err("Unexpected success on agents listing");
    assert_eq!(err.status(), 404);
    assert_eq!(err.kind(), "room_not_found");
}

const SENDER: &str = "web.sender.dev.usr.example.org";
const RECEIVER: &str = "web.receiver.dev.usr.example.org";

fn room_with(agents: &[&str]) -> Store {
    let mut st = Store::new();
    st.insert_room(open_room(ROOM)).unwrap();
    for a in agents {
        st.insert_presence(AgentPresence { agent_id: s(a), room_id: ROOM });
    }
    st
}

#[test]
fn unicast_message_to_missing_room() {
    let st = Store::new();
    let err = st
        .check_unicast(ROOM, &s(SENDER), &s(RECEIVER), 1_000)
        .expect_err("Unexpected success on unicast message sending");
    assert_eq!(err.status(), 404);
    assert_eq!(err.kind(), "room_not_found");
}

#[test]
fn unicast_message_when_sender_is_not_in_the_room() {
    let st = room_with(&[RECEIVER]);
    let err = st
        .check_unicast(ROOM, &s(SENDER), &s(RECEIVER), 1_000)
        .expect_err("Unexpected success on unicast message sending");
    assert_eq!(err.status(), 404);
    assert_eq!(err.kind(), "agent_not_entered_the_room");
}

#[test]
fn unicast_message_when_receiver_is_not_in_the_room() {
    let st = room_with(&[SENDER]);
    let err = st
        .check_unicast(ROOM, &s(SENDER), &s(RECEIVER), 1_000)
        .expect_err("Unexpected success on unicast message sending");
    assert_eq!(err.status(), 404);
    assert_eq!(err.kind(), "agent_not_entered_the_room");
}

#[test]
fn broadcast_message_to_missing_room() {
    let st = Store::new();
    let err = st
        .check_broadcast(ROOM, &s(SENDER), 1_000)
        .expect_err("Unexpected success on unicast message sending");
    assert_eq!(err.status(), 404);
    assert_eq!(err.kind(), "room_not_found");
}

#[test]
fn broadcast_message_when_not_in_the_room() {
    let st = room_with(&[]);
    let err = st
        .check_broadcast(ROOM, &s(SENDER), 1_000)
        .expect_err("Unexpected success on unicast message sending");
    assert_eq!(err.status(), 404);
    assert_eq!(err.kind(), "agent_not_entered_the_room");
}

#[test]
fn relays_between_present_agents_in_open_rooms() {
    let st = room_with(&[SENDER, RECEIVER]);
    assert!(st.check_unicast(ROOM, &s(SENDER), &s(RECEIVER), 1_000).is_ok());
    assert!(st.check_broadcast(ROOM, &s(SENDER), 1_000).is_ok());
    assert!(matches!(st.check_broadcast(ROOM, &s(SENDER), 4_000_000), Err(RoomError::RoomClosed)));
}

#[test]
fn room_reader_configs_cover_the_rooms_rtcs() {
    let mut st = store_with_room();
    st.insert_room(room(2, None, SharingPolicy::Shared)).unwrap();
    st.insert_rtc(rtc(9, 2, "web.bob.example.org")).unwrap();
    let items = st.room_reader_configs(ROOM, &s("bob.example.org")).unwrap();
    assert_eq!(items.len(), 3);
    assert!(items.iter().all(|i| i.stream_id == RTC_B));
    assert_eq!(items[2].reader_id, "web.carol.example.org");
    assert!(matches!(st.room_reader_configs(77, &s("bob.example.org")), Err(RoomError::RoomNotFound)));
    assert!(matches!(st.room_reader_configs(2, &s("alice.example.org")), Err(RoomError::AgentNotConnected)));
}

#[test]
fn missing_only_rooms_need_no_upload_target() {
    let mut st = Store::new();
    st.insert_room(room(ROOM, Some(1), SharingPolicy::NotShared)).unwrap();
    st.insert_rtc(rtc(RTC_A, ROOM, "web.alice.example.org")).unwrap();
    st.insert_rtc(rtc(RTC_B, ROOM, "web.bob.example.org")).unwrap();
    st.insert_recording(recording(RTC_A, RecordingStatus::Missing)).unwrap();
    st.insert_recording(recording(RTC_B, RecordingStatus::InProgress)).unwrap();
    let none = UploadConfigs { shared: Vec::new(), owned: Vec::new() };
    let event = st
        .handle_upload_response(UploadResponse::Missing { id: RTC_B }, &none)
        .unwrap()
        .expect("room complete");
    assert_eq!(event.rtcs.len(), 2);
    assert!(event.rtcs.iter().all(|e| e.status == RecordingStatus::Missing && e.uri.is_none()));
}

#[test]
fn unicast_message() {
    let st = room_with(&[SENDER, RECEIVER]);
    st.check_unicast(ROOM, &s(SENDER), &s(RECEIVER), 1_000).expect("Unicast message sending failed");
}

#[test]
fn broadcast_message() {
    let st = room_with(&[SENDER]);
    st.check_broadcast(ROOM, &s(SENDER), 1_000).expect("Broadcast message sending failed");
}

#[test]
fn reader_update_goes_to_the_backend_control_handle() {
    let mut st = store_with_room();
    assert!(matches!(
        st.reader_update_request(&s("janus"), ROOM, &s("bob.example.org")),
        Err(RoomError::BackendNotFound)
    ));
    st.upsert_backend(Backend {
        id: s("janus"),
        session_id: SessionId(5),
        handle_id: HandleId(6),
        capacity: None,
        balancer_capacity: None,
        group: None,
    });
    let req = st.reader_update_request(&s("janus"), ROOM, &s("bob.example.org")).unwrap();
    assert_eq!(req.backend_id, "janus");
    assert_eq!(req.session_id, SessionId(5));
    assert_eq!(req.handle_id, HandleId(6));
    assert_eq!(req.configs.len(), 3);
    assert!(req.configs.iter().all(|c| c.stream_id == RTC_B));
    assert!(matches!(
        st.reader_update_request(&s("janus"), ROOM, &s("nobody.example.org")),
        Err(RoomError::AgentNotConnected)
    ));
}

#[test]
fn pool_size_follows_capacity() {
    assert_eq!(conference::protocol::pool_size(Some(4)), 4);
    assert_eq!(conference::protocol::pool_size(Some(0)), 0);
    assert_eq!(conference::protocol::pool_size(Some(-3)), 0);
    assert_eq!(conference::protocol::pool_size(None), 0);
}

#[test]
fn a_handle_has_one_open_stream_at_a_time() {
    let mut st = store_with_room();
    st.insert_stream(stream(1, "janus", 7, RTC_A, None, None)).unwrap();
    assert_eq!(st.insert_stream(stream(2, "janus", 7, RTC_B, None, None)), Err(StoreError::Duplicate));
    st.insert_stream(stream(3, "janus", 7, RTC_B, Some(1), Some(2))).unwrap();
    st.insert_stream(stream(4, "other", 7, RTC_B, None, None)).unwrap();
    st.handle_webrtc_up(&s("janus"), HandleId(7), 10);
    st.handle_hangup_detach(&s("janus"), HandleId(7), 20);
    st.insert_stream(stream(5, "janus", 7, RTC_C, None, None)).unwrap();
    assert_eq!(st.streams().len(), 4);
}
