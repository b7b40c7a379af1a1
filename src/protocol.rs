//! The backend protocol client: outbound handle requests, each with a fresh
//! correlation token, and the dispatch of inbound responses by the kind of
//! the transaction their token carries.
use vstd::prelude::*;
use crate::ids::{HandleId, SessionId};
use crate::store::{
    last_match, lemma_last_match_facts, room_with_id, rtc_room, RecordingStatus, backend_other_than, Backend, Store,
    StoreView,
};
use crate::transaction::{
    opt_text_view, register, resolve, resolved, token_of, CreateSessionTransaction, KindView,
    OriginView, RequestOrigin, SettingsView, Transaction, TransactionData, TransactionKind,
    TransactionView,
};
use crate::upload::{
    config_spec, has_ready, in_room, is_final, room_done, lemma_upload_event_entries, response_id,
    upload_outcome, EntryView, RoomUploadEventData, UploadConfigs, UploadError, UploadResponse,
};

verus! {

/// The plugin that handles conference streams on a backend.
pub const CONFERENCE_PLUGIN: &'static str = "janus.plugin.conference";

/// A request to attach a plugin handle to a backend session.
pub struct CreateHandleRequest {
    pub backend_id: String,
    pub session_id: i64,
    pub plugin: String,
    pub transaction: Vec<u8>,
}

/// Builds the request for the control handle of a new backend session. Its
/// token carries the session and the backend settings.
pub fn create_control_handle_request(
    backend_id: &String,
    trace_id: &String,
    session_id: i64,
    settings: &CreateSessionTransaction,
) -> (r: CreateHandleRequest)
    ensures
        r.backend_id@ == backend_id@,
        r.session_id == session_id,
        r.plugin@ == CONFERENCE_PLUGIN@,
        r.transaction@ == token_of(
            TransactionView {
                trace_id: trace_id@,
                kind: Some(KindView::CreateControlHandle(session_id, settings@)),
            },
        ),
{
    let mut data = TransactionData::new(session_id);
    if let Some(c) = settings.capacity {
        data.set_capacity(c);
    }
    if let Some(b) = settings.balancer_capacity {
        data.set_balancer_capacity(b);
    }
    if let Some(g) = &settings.group {
        data.set_group(g.as_str());
    }
    if let Some(u) = &settings.janus_url {
        data.set_janus_url(u.clone());
    }
    proof {
        assert(data@.1 == settings@);
    }
    let t = Transaction {
        trace_id: trace_id.clone(),
        kind: Some(TransactionKind::CreateControlHandle(data)),
    };
    let token = register(&t);
    CreateHandleRequest {
        backend_id: backend_id.clone(),
        session_id,
        plugin: String::from_str(CONFERENCE_PLUGIN),
        transaction: token,
    }
}

/// The requests that warm the handle pool of a backend session: `pool_size`
/// of them, each with its own token.
pub fn create_pool_handle_requests(backend_id: &String, trace_id: &String, session_id: i64, pool_size: usize) -> (r:
    Vec<CreateHandleRequest>)
    ensures
        r@.len() == pool_size,
        forall|k: int|
            0 <= k < pool_size ==> {
                &&& #[trigger] r@[k].backend_id@ == backend_id@
                &&& r@[k].session_id == session_id
                &&& r@[k].plugin@ == CONFERENCE_PLUGIN@
                &&& r@[k].transaction@ == token_of(
                    TransactionView { trace_id: trace_id@, kind: Some(KindView::CreatePoolHandle(session_id)) },
                )
            },
{
    let mut out: Vec<CreateHandleRequest> = Vec::new();
    let mut i: usize = 0;
    while i < pool_size
        invariant
            i <= pool_size,
            out@.len() == i,
            forall|k: int|
                0 <= k < i ==> {
                    &&& #[trigger] out@[k].backend_id@ == backend_id@
                    &&& out@[k].session_id == session_id
                    &&& out@[k].plugin@ == CONFERENCE_PLUGIN@
                    &&& out@[k].transaction@ == token_of(
                        TransactionView {
                            trace_id: trace_id@,
                            kind: Some(KindView::CreatePoolHandle(session_id)),
                        },
                    )
                },
        decreases pool_size - i,
    {
        let t = Transaction {
            trace_id: trace_id.clone(),
            kind: Some(TransactionKind::CreatePoolHandle(SessionId(session_id))),
        };
        let token = register(&t);
        out.push(
            CreateHandleRequest {
                backend_id: backend_id.clone(),
                session_id,
                plugin: String::from_str(CONFERENCE_PLUGIN),
                transaction: token,
            },
        );
        i = i + 1;
    }
    out
}

/// How many pool handles a backend session gets: its capacity, or none
/// when the capacity is unknown or not positive.
pub fn pool_size(capacity: Option<i32>) -> (r: usize)
    ensures
        r as int == match capacity {
            Some(c) => if c > 0 {
                c as int
            } else {
                0
            },
            None => 0,
        },
{
    match capacity {
        Some(c) => if c > 0 {
            c as usize
        } else {
            0
        },
        None => 0,
    }
}

// ---------------------------------------------------------------------------
// Inbound responses

#[derive(Clone, Copy, Debug, PartialEq, Eq, Structural)]
pub enum ErrorScope {
    Session,
    Handle,
}

/// The fields of the plugin data of an event that the engine reads.
pub struct PluginData {
    /// The status code, as text.
    pub status: Option<String>,
    pub id: Option<u128>,
    pub state: Option<String>,
    /// Milliseconds since the epoch.
    pub started_at: Option<u64>,
    pub time: Option<Vec<(i64, i64)>>,
    pub mjr_dumps_uris: Option<Vec<String>>,
}

pub enum IncomingResponse {
    Success { transaction: Vec<u8>, id: i64 },
    Ack { transaction: Vec<u8> },
    Event { transaction: Vec<u8>, plugin_data: Option<PluginData>, jsep: Option<String> },
    Error { scope: ErrorScope, reason: String },
}

#[derive(Clone, Copy, Debug, PartialEq, Eq, Structural)]
pub enum ErrorKind {
    /// A malformed message, an undecodable token or an unexpected error
    /// message; never retried.
    MessageParsingFailed,
    /// The backend answered with a status other than success.
    BackendRequestFailed,
    Upload(UploadError),
}

/// What the dispatch of a response asks for.
pub enum Outbound {
    /// Warm the handle pool of the backend session in the background.
    StartHandlePool { backend_id: String, session_id: i64, capacity: Option<i32> },
    /// Send a request to the backend.
    CreateHandle(CreateHandleRequest),
    /// A pool handle of the backend was created.
    PoolHandleCreated { backend_id: String, handle_id: i64 },
    /// Answer the original requester, with the answer SDP if there is one.
    Reply { to: RequestOrigin, jsep: Option<String> },
    /// Tell the original requester that the operation failed.
    ReplyError { to: RequestOrigin, error: ErrorKind },
    /// Publish a `room.upload` event.
    RoomUpload(RoomUploadEventData),
}

pub enum OutboundView {
    StartHandlePool(Seq<char>, i64, Option<i32>),
    CreateHandle(Seq<char>, i64, Seq<u8>),
    PoolHandleCreated(Seq<char>, i64),
    Reply(OriginView, Option<Seq<char>>),
    ReplyError(OriginView, ErrorKind),
    RoomUpload((u128, Seq<EntryView>)),
}

impl View for Outbound {
    type V = OutboundView;

    open spec fn view(&self) -> OutboundView {
        match self {
            Outbound::StartHandlePool { backend_id, session_id, capacity } => OutboundView::StartHandlePool(
                backend_id@,
                *session_id,
                *capacity,
            ),
            Outbound::CreateHandle(r) => OutboundView::CreateHandle(r.backend_id@, r.session_id, r.transaction@),
            Outbound::PoolHandleCreated { backend_id, handle_id } => OutboundView::PoolHandleCreated(
                backend_id@,
                *handle_id,
            ),
            Outbound::Reply { to, jsep } => OutboundView::Reply(to@, opt_text_view(*jsep)),
            Outbound::ReplyError { to, error } => OutboundView::ReplyError(to@, *error),
            Outbound::RoomUpload(e) => OutboundView::RoomUpload(e@),
        }
    }
}

pub open spec fn outbound_views(s: Seq<Outbound>) -> Seq<OutboundView> {
    s.map_values(|o: Outbound| o@)
}

// ---------------------------------------------------------------------------
// Upload events

pub open spec fn opt_text_is(o: Option<String>, t: Seq<char>) -> bool {
    o matches Some(s) && s@ == t
}

/// How the plugin data of an upload event reads: 404 is a missing
/// recording of the rtc, 200 with the state "already_running" an upload
/// already under way, 200 otherwise a finished upload with its start and
/// segments; any other status is a failure of the backend.
pub open spec fn upload_event_spec(data: PluginData, rtc_id: u128) -> Result<UploadResponse, ErrorKind> {
    match data.status {
        None => Err(ErrorKind::MessageParsingFailed),
        Some(st) => if st@ == "404"@ {
            Ok(UploadResponse::Missing { id: rtc_id })
        } else if st@ != "200"@ {
            Err(ErrorKind::BackendRequestFailed)
        } else {
            match data.id {
                None => Err(ErrorKind::MessageParsingFailed),
                Some(id) => if opt_text_is(data.state, "already_running"@) {
                    Ok(UploadResponse::AlreadyRunning { id })
                } else {
                    match (data.started_at, data.time) {
                        (Some(ms), Some(segments)) => if ms <= i64::MAX {
                            Ok(
                                UploadResponse::Done {
                                    id,
                                    segments,
                                    started_at: ms as i64,
                                    mjr_dumps_uris: data.mjr_dumps_uris,
                                },
                            )
                        } else {
                            Err(ErrorKind::MessageParsingFailed)
                        },
                        _ => Err(ErrorKind::MessageParsingFailed),
                    }
                }
            }
        },
    }
}

fn text_is(s: &String, lit: &str) -> (r: bool)
    ensures
        r == (s@ == lit@),
{
    let t = String::from_str(lit);
    *s == t
}

/// Reads the plugin data of an upload event of the recording of an rtc.
pub fn classify_upload_event(data: PluginData, rtc_id: u128) -> (r: Result<UploadResponse, ErrorKind>)
    ensures
        r == upload_event_spec(data, rtc_id),
{
    let ghost d = data;
    let st = match &data.status {
        None => return Err(ErrorKind::MessageParsingFailed),
        Some(s) => s,
    };
    if text_is(st, "404") {
        return Ok(UploadResponse::Missing { id: rtc_id });
    }
    if !text_is(st, "200") {
        return Err(ErrorKind::BackendRequestFailed);
    }
    let id = match data.id {
        None => return Err(ErrorKind::MessageParsingFailed),
        Some(id) => id,
    };
    let running = match &data.state {
        Some(s) => text_is(s, "already_running"),
        None => false,
    };
    if running {
        return Ok(UploadResponse::AlreadyRunning { id });
    }
    match (data.started_at, data.time) {
        (Some(ms), Some(segments)) => {
            if ms <= i64::MAX as u64 {
                Ok(
                    UploadResponse::Done {
                        id,
                        segments,
                        started_at: ms as i64,
                        mjr_dumps_uris: data.mjr_dumps_uris,
                    },
                )
            } else {
                Err(ErrorKind::MessageParsingFailed)
            }
        },
        _ => Err(ErrorKind::MessageParsingFailed),
    }
}

// ---------------------------------------------------------------------------
// Dispatch

pub open spec fn result_views(r: Result<Vec<Outbound>, ErrorKind>) -> Result<Seq<OutboundView>, ErrorKind> {
    match r {
        Ok(v) => Ok(outbound_views(v@)),
        Err(e) => Err(e),
    }
}

/// The answer to the requester of a stream: the answer SDP when the backend
/// reports success and sent one, an error answer otherwise. An event
/// without plugin data is malformed.
pub open spec fn stream_reply(o: OriginView, data: Option<PluginData>, jsep: Option<String>) -> Result<
    Seq<OutboundView>,
    ErrorKind,
> {
    match data {
        None => Err(ErrorKind::MessageParsingFailed),
        Some(d) => match d.status {
            None => Ok(seq![OutboundView::ReplyError(o, ErrorKind::MessageParsingFailed)]),
            Some(st) => if st@ != "200"@ {
                Ok(seq![OutboundView::ReplyError(o, ErrorKind::BackendRequestFailed)])
            } else {
                match jsep {
                    None => Ok(seq![OutboundView::ReplyError(o, ErrorKind::MessageParsingFailed)]),
                    Some(j) => Ok(seq![OutboundView::Reply(o, Some(j@))]),
                }
            },
        },
    }
}

/// The backend row written once the control handle of a session exists.
pub open spec fn control_backend(b: Backend, backend_id: Seq<char>, handle_id: i64, session_id: i64, st: SettingsView) -> bool {
    &&& b.id@ == backend_id
    &&& b.session_id == SessionId(session_id)
    &&& b.handle_id == HandleId(handle_id)
    &&& b.capacity == st.capacity
    &&& b.balancer_capacity == st.balancer_capacity
    &&& opt_text_view(b.group) == st.group
}

pub open spec fn no_output(r: Result<Vec<Outbound>, ErrorKind>) -> bool {
    r matches Ok(v) && v@.len() == 0
}

/// What an upload outcome owes the caller.
pub open spec fn upload_reply(o: Result<Option<(u128, Seq<EntryView>)>, UploadError>) -> Result<
    Seq<OutboundView>,
    ErrorKind,
> {
    match o {
        Err(e) => Err(ErrorKind::Upload(e)),
        Ok(None) => Ok(seq![]),
        Ok(Some(e)) => Ok(seq![OutboundView::RoomUpload(e)]),
    }
}

fn single(o: Outbound) -> (r: Vec<Outbound>)
    ensures
        r@ == seq![o],
{
    let mut v: Vec<Outbound> = Vec::new();
    v.push(o);
    proof {
        assert(v@ =~= seq![o]);
    }
    v
}

fn stream_reply_exec(to: RequestOrigin, data: Option<PluginData>, jsep: Option<String>) -> (r: Result<
    Vec<Outbound>,
    ErrorKind,
>)
    ensures
        result_views(r) == stream_reply(to@, data, jsep),
{
    let ghost o = to@;
    let d = match data {
        None => return Err(ErrorKind::MessageParsingFailed),
        Some(d) => d,
    };
    let out = match &d.status {
        None => single(Outbound::ReplyError { to, error: ErrorKind::MessageParsingFailed }),
        Some(st) => if !text_is(st, "200") {
            single(Outbound::ReplyError { to, error: ErrorKind::BackendRequestFailed })
        } else {
            match jsep {
                None => single(Outbound::ReplyError { to, error: ErrorKind::MessageParsingFailed }),
                Some(j) => single(Outbound::Reply { to, jsep: Some(j) }),
            }
        },
    };
    proof {
        assert(outbound_views(out@) =~= stream_reply(o, Some(d), jsep)->Ok_0);
    }
    Ok(out)
}

/// An upload answer that leaves some rtc of the recording's room without a
/// final recording owes no `room.upload` event.
pub proof fn lemma_upload_answer_silent_while_unfinished(
    v: StoreView,
    u: UploadResponse,
    configs: UploadConfigs,
    i: int,
)
    requires
        last_match(upload_outcome(v, u, configs).0.rooms, room_with_id(
            rtc_room(v.rtcs, response_id(u))->Some_0,
        )) is Some,
        0 <= i < v.rtcs.len(),
        v.rtcs[i].room_id == rtc_room(v.rtcs, response_id(u))->Some_0,
        !is_final(upload_outcome(v, u, configs).0, v.rtcs[i].id),
    ensures
        upload_outcome(v, u, configs).1 is Ok ==> upload_reply(upload_outcome(v, u, configs).1) == Ok::<
            Seq<OutboundView>,
            ErrorKind,
        >(seq![]),
{
    let w = upload_outcome(v, u, configs).0;
    let room_id = rtc_room(v.rtcs, response_id(u))->Some_0;
    assert(w.rtcs == v.rtcs);
    lemma_last_match_facts(w.rooms, room_with_id(room_id));
    let j = last_match(w.rooms, room_with_id(room_id))->Some_0;
    assert(w.rooms[j].id == room_id);
    assert(w.rtcs[i].room_id == room_id);
    assert(!room_done(w, w.rooms[j].id));
}

/// An upload answer that completes its room owes one `room.upload` event
/// with one entry per rtc of the room, a URI exactly on the Ready ones.
pub proof fn lemma_upload_answer_completing_room(v: StoreView, u: UploadResponse, configs: UploadConfigs)
    ensures
        ({
            let (w, o) = upload_outcome(v, u, configs);
            let room_id = rtc_room(w.rtcs, response_id(u))->Some_0;
            o matches Ok(Some(e)) ==> {
                &&& upload_reply(o) == Ok::<Seq<OutboundView>, ErrorKind>(seq![OutboundView::RoomUpload(e)])
                &&& e.0 == room_id
                &&& e.1.len() == w.rtcs.filter(in_room(room_id)).len()
                &&& forall|k: int|
                    0 <= k < e.1.len() ==> {
                        &&& #[trigger] e.1[k].status != RecordingStatus::InProgress
                        &&& (e.1[k].uri is Some <==> e.1[k].status == RecordingStatus::Ready)
                    }
            }
        }),
{
    let (w, o) = upload_outcome(v, u, configs);
    let room_id = rtc_room(w.rtcs, response_id(u))->Some_0;
    if let Ok(Some(e)) = o {
        lemma_last_match_facts(w.rooms, room_with_id(room_id));
        let j = last_match(w.rooms, room_with_id(room_id))->Some_0;
        let room = w.rooms[j];
        assert(room.id == room_id);
        let bucket = if has_ready(w, room_id) {
            config_spec(configs, room)->Ok_0.bucket@
        } else {
            Seq::empty()
        };
        lemma_upload_event_entries(w, room, bucket);
    }
}

impl Store {
    /// Dispatches a response of a backend by the kind of the transaction
    /// its token carries. Error messages and undecodable tokens are
    /// permanent failures.
    pub fn handle_response(&mut self, backend_id: &String, resp: IncomingResponse, configs: &UploadConfigs) -> (r:
        Result<Vec<Outbound>, ErrorKind>)
        requires
            old(self)@.wf(),
        ensures
            final(self)@.wf(),
            match resp {
                IncomingResponse::Error { .. } => r == Err::<Vec<Outbound>, ErrorKind>(
                    ErrorKind::MessageParsingFailed,
                ) && final(self)@ == old(self)@,
                IncomingResponse::Success { transaction, id } => match resolved(transaction@) {
                    None => r == Err::<Vec<Outbound>, ErrorKind>(ErrorKind::MessageParsingFailed)
                        && final(self)@ == old(self)@,
                    Some(t) => match t.kind {
                        Some(KindView::CreateSession(st)) => final(self)@ == old(self)@ && result_views(r)
                            == Ok::<Seq<OutboundView>, ErrorKind>(
                            seq![
                                OutboundView::StartHandlePool(backend_id@, id, st.capacity),
                                OutboundView::CreateHandle(
                                    backend_id@,
                                    id,
                                    token_of(
                                        TransactionView {
                                            trace_id: t.trace_id,
                                            kind: Some(KindView::CreateControlHandle(id, st)),
                                        },
                                    ),
                                ),
                            ],
                        ),
                        Some(KindView::CreateControlHandle(sid, st)) => no_output(r) && final(self)@ == (
                        StoreView { backends: final(self)@.backends, ..old(self)@ }) && final(self)@.backends.len()
                            > 0 && final(self)@.backends.drop_last() == old(self)@.backends.filter(
                            backend_other_than(backend_id@),
                        ) && control_backend(final(self)@.backends.last(), backend_id@, id, sid, st),
                        Some(KindView::CreatePoolHandle(_)) => final(self)@ == old(self)@ && result_views(r)
                            == Ok::<Seq<OutboundView>, ErrorKind>(
                            seq![OutboundView::PoolHandleCreated(backend_id@, id)],
                        ),
                        _ => final(self)@ == old(self)@ && no_output(r),
                    },
                },
                IncomingResponse::Ack { transaction } => final(self)@ == old(self)@ && match resolved(
                    transaction@,
                ) {
                    None => r == Err::<Vec<Outbound>, ErrorKind>(ErrorKind::MessageParsingFailed),
                    Some(t) => match t.kind {
                        Some(KindView::Trickle(o)) => result_views(r) == Ok::<Seq<OutboundView>, ErrorKind>(
                            seq![OutboundView::Reply(o, None)],
                        ),
                        _ => no_output(r),
                    },
                },
                IncomingResponse::Event { transaction, plugin_data, jsep } => match resolved(transaction@) {
                    None => r == Err::<Vec<Outbound>, ErrorKind>(ErrorKind::MessageParsingFailed)
                        && final(self)@ == old(self)@,
                    Some(t) => match t.kind {
                        Some(KindView::CreateStream(o)) => final(self)@ == old(self)@ && result_views(r)
                            == stream_reply(o, plugin_data, jsep),
                        Some(KindView::ReadStream(o)) => final(self)@ == old(self)@ && result_views(r)
                            == stream_reply(o, plugin_data, jsep),
                        Some(KindView::UploadStream(rtc_id, _)) => match plugin_data {
                            None => r == Err::<Vec<Outbound>, ErrorKind>(ErrorKind::MessageParsingFailed)
                                && final(self)@ == old(self)@,
                            Some(d) => match upload_event_spec(d, rtc_id) {
                                Err(e) => r == Err::<Vec<Outbound>, ErrorKind>(e) && final(self)@ == old(self)@,
                                Ok(u) => final(self)@ == upload_outcome(old(self)@, u, *configs).0
                                    && result_views(r) == upload_reply(upload_outcome(old(self)@, u, *configs).1),
                            },
                        },
                        _ => final(self)@ == old(self)@ && no_output(r),
                    },
                },
            },
    {
        match resp {
            IncomingResponse::Error { .. } => Err(ErrorKind::MessageParsingFailed),
            IncomingResponse::Success { transaction, id } => {
                let t = match resolve(&transaction) {
                    Ok(t) => t,
                    Err(_) => return Err(ErrorKind::MessageParsingFailed),
                };
                match t.kind {
                    Some(TransactionKind::CreateSession(st)) => {
                        let req = create_control_handle_request(backend_id, &t.trace_id, id, &st);
                        let mut out: Vec<Outbound> = Vec::new();
                        out.push(
                            Outbound::StartHandlePool {
                                backend_id: backend_id.clone(),
                                session_id: id,
                                capacity: st.capacity,
                            },
                        );
                        out.push(Outbound::CreateHandle(req));
                        proof {
                            assert(outbound_views(out@) =~= seq![
                                OutboundView::StartHandlePool(backend_id@, id, st@.capacity),
                                OutboundView::CreateHandle(
                                    backend_id@,
                                    id,
                                    token_of(
                                        TransactionView {
                                            trace_id: t.trace_id@,
                                            kind: Some(KindView::CreateControlHandle(id, st@)),
                                        },
                                    ),
                                ),
                            ]);
                        }
                        Ok(out)
                    },
                    Some(TransactionKind::CreateControlHandle(data)) => {
                        let group = match data.group() {
                            Some(g) => Some(g.to_owned()),
                            None => None,
                        };
                        let backend = Backend {
                            id: backend_id.clone(),
                            session_id: SessionId(data.session_id()),
                            handle_id: HandleId(id),
                            capacity: data.capacity(),
                            balancer_capacity: data.balancer_capacity(),
                            group,
                        };
                        let ghost b = backend;
                        let ghost before = self@;
                        self.upsert_backend(backend);
                        proof {
                            assert(self@.backends.drop_last() =~= before.backends.filter(
                                backend_other_than(backend_id@),
                            ));
                            assert(self@.backends.last() == b);
                            assert(control_backend(b, backend_id@, id, data@.0, data@.1));
                        }
                        Ok(Vec::new())
                    },
                    Some(TransactionKind::CreatePoolHandle(_)) => {
                        let out = single(Outbound::PoolHandleCreated { backend_id: backend_id.clone(), handle_id: id });
                        proof {
                            assert(outbound_views(out@) =~= seq![OutboundView::PoolHandleCreated(backend_id@, id)]);
                        }
                        Ok(out)
                    },
                    _ => Ok(Vec::new()),
                }
            },
            IncomingResponse::Ack { transaction } => {
                let t = match resolve(&transaction) {
                    Ok(t) => t,
                    Err(_) => return Err(ErrorKind::MessageParsingFailed),
                };
                match t.kind {
                    Some(TransactionKind::Trickle(o)) => {
                        let ghost ov = o@;
                        let out = single(Outbound::Reply { to: o, jsep: None });
                        proof {
                            assert(outbound_views(out@) =~= seq![OutboundView::Reply(ov, None)]);
                        }
                        Ok(out)
                    },
                    _ => Ok(Vec::new()),
                }
            },
            IncomingResponse::Event { transaction, plugin_data, jsep } => {
                let t = match resolve(&transaction) {
                    Ok(t) => t,
                    Err(_) => return Err(ErrorKind::MessageParsingFailed),
                };
                match t.kind {
                    Some(TransactionKind::CreateStream(o)) => stream_reply_exec(o, plugin_data, jsep),
                    Some(TransactionKind::ReadStream(o)) => stream_reply_exec(o, plugin_data, jsep),
                    Some(TransactionKind::UploadStream(u)) => {
                        let d = match plugin_data {
                            None => return Err(ErrorKind::MessageParsingFailed),
                            Some(d) => d,
                        };
                        let up = match classify_upload_event(d, u.rtc_id) {
                            Err(e) => return Err(e),
                            Ok(up) => up,
                        };
                        match self.handle_upload_response(up, configs) {
                            Err(e) => Err(ErrorKind::Upload(e)),
                            Ok(None) => {
                                let out: Vec<Outbound> = Vec::new();
                                proof {
                                    assert(outbound_views(out@) =~= Seq::<OutboundView>::empty());
                                }
                                Ok(out)
                            },
                            Ok(Some(ev)) => {
                                let ghost evv = ev@;
                                let out = single(Outbound::RoomUpload(ev));
                                proof {
                                    assert(outbound_views(out@) =~= seq![OutboundView::RoomUpload(evv)]);
                                }
                                Ok(out)
                            },
                        }
                    },
                    _ => Ok(Vec::new()),
                }
            },
        }
    }
}

} // verus!

