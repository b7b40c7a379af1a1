//! Events that backends send on their own: handle events that drive the
//! stream lifecycle, plugin events that carry a transaction, and status
//! events that say whether a backend is online.
use vstd::prelude::*;
use crate::ids::HandleId;
use crate::lifecycle::{hangup_spec, offline_spec, webrtc_up_spec, StreamUpdate};
use crate::store::Store;
use crate::transaction::{
    opt_text_view, register, token_of, CreateSessionTransaction, KindView, SettingsView,
    Transaction, TransactionKind, TransactionView,
};

verus! {

#[derive(Clone, Copy, Debug, PartialEq, Eq, Structural)]
pub enum JsepType {
    Offer,
    Answer,
}

pub struct IceCandidate {
    pub sdp_mid: String,
    pub sdp_m_line_index: u16,
    pub candidate: String,
    pub username_fragment: Option<String>,
}

pub enum IceCandidateSdpItem {
    IceCandidate(IceCandidate),
    /// The end of the candidates.
    Completed { completed: bool },
    Null(Option<usize>),
}

pub enum IceCandidateSdp {
    Single(IceCandidateSdpItem),
    List(Vec<IceCandidateSdpItem>),
}

/// A session description or ICE candidates.
pub enum Jsep {
    OfferOrAnswer { kind: JsepType, sdp: String },
    IceCandidate(IceCandidateSdp),
}

/// An event about one handle of a backend.
pub struct HandleEvent {
    pub session_id: i64,
    pub handle_id: HandleId,
    pub opaque_id: String,
}

pub struct TimeoutEvent {
    pub session_id: i64,
}

/// A plugin event that carries a transaction.
pub struct EventResponse {
    pub transaction: Transaction,
}

pub enum IncomingEvent {
    WebRtcUp(HandleEvent),
    Media(HandleEvent),
    Timeout(TimeoutEvent),
    HangUp(HandleEvent),
    SlowLink(HandleEvent),
    Detached(HandleEvent),
    Event(EventResponse),
}

impl IncomingEvent {
    /// The name of the kind of the event, for logs and metrics. A timeout is
    /// counted with the media events, and a plugin event is either an
    /// agent speaking or, whatever else its transaction holds, "EmptyTran".
    pub fn event_kind(&self) -> (r: &'static str)
        ensures
            r@ == match self {
                IncomingEvent::WebRtcUp(_) => "WebRtcUp"@,
                IncomingEvent::Media(_) => "Media"@,
                IncomingEvent::Timeout(_) => "Media"@,
                IncomingEvent::HangUp(_) => "HangUp"@,
                IncomingEvent::SlowLink(_) => "SlowLink"@,
                IncomingEvent::Detached(_) => "Detached"@,
                IncomingEvent::Event(e) => match e.transaction.kind {
                    Some(TransactionKind::AgentSpeaking) => "AgentSpeaking"@,
                    _ => "EmptyTran"@,
                },
            },
    {
        match self {
            IncomingEvent::WebRtcUp(_) => "WebRtcUp",
            IncomingEvent::Media(_) => "Media",
            IncomingEvent::Timeout(_) => "Media",
            IncomingEvent::HangUp(_) => "HangUp",
            IncomingEvent::SlowLink(_) => "SlowLink",
            IncomingEvent::Detached(_) => "Detached",
            IncomingEvent::Event(e) => match &e.transaction.kind {
                Some(TransactionKind::AgentSpeaking) => "AgentSpeaking",
                _ => "EmptyTran",
            },
        }
    }

    /// The trace identifier of a plugin event.
    pub fn trace_id(&self) -> (r: Option<&String>)
        ensures
            match self {
                IncomingEvent::Event(e) => r == Some(&e.transaction.trace_id),
                _ => r is None,
            },
    {
        match self {
            IncomingEvent::Event(e) => Some(&e.transaction.trace_id),
            _ => None,
        }
    }

    /// The opaque identifier of a handle event.
    pub fn opaque_id(&self) -> (r: Option<&String>)
        ensures
            match self {
                IncomingEvent::WebRtcUp(e) => r == Some(&e.opaque_id),
                IncomingEvent::Media(e) => r == Some(&e.opaque_id),
                IncomingEvent::HangUp(e) => r == Some(&e.opaque_id),
                IncomingEvent::SlowLink(e) => r == Some(&e.opaque_id),
                IncomingEvent::Detached(e) => r == Some(&e.opaque_id),
                _ => r is None,
            },
    {
        match self {
            IncomingEvent::WebRtcUp(e) => Some(&e.opaque_id),
            IncomingEvent::Media(e) => Some(&e.opaque_id),
            IncomingEvent::Timeout(_) => None,
            IncomingEvent::HangUp(e) => Some(&e.opaque_id),
            IncomingEvent::SlowLink(e) => Some(&e.opaque_id),
            IncomingEvent::Detached(e) => Some(&e.opaque_id),
            IncomingEvent::Event(_) => None,
        }
    }
}

/// A backend reporting whether it is online, with its settings.
pub struct StatusEvent {
    pub online: bool,
    pub capacity: Option<i32>,
    pub balancer_capacity: Option<i32>,
    pub group: Option<String>,
    pub janus_url: Option<String>,
}

/// The request that opens a session on a backend.
pub struct CreateSessionRequest {
    pub backend_id: String,
    pub transaction: Vec<u8>,
}

pub enum StatusOutcome {
    /// The backend came online: open a session on it.
    CreateSession(CreateSessionRequest),
    /// The backend went offline: these streams were stopped.
    Offline(Vec<StreamUpdate>),
}

fn clone_opt(o: &Option<String>) -> (r: Option<String>)
    ensures
        r == *o,
{
    match o {
        Some(s) => Some(s.clone()),
        None => None,
    }
}

/// The token of the session request of a backend that came online.
pub open spec fn session_token(trace_id: Seq<char>, status: StatusEvent) -> Seq<u8> {
    token_of(
        TransactionView {
            trace_id,
            kind: Some(
                KindView::CreateSession(
                    SettingsView {
                        capacity: status.capacity,
                        balancer_capacity: status.balancer_capacity,
                        group: opt_text_view(status.group),
                        janus_url: opt_text_view(status.janus_url),
                    },
                ),
            ),
        },
    )
}

/// Builds the request that opens a session on a backend that came online;
/// its token carries the backend's settings.
pub fn create_session_request(backend_id: &String, trace_id: &String, status: &StatusEvent) -> (r:
    CreateSessionRequest)
    ensures
        r.backend_id@ == backend_id@,
        r.transaction@ == session_token(trace_id@, *status),
{
    let settings = CreateSessionTransaction {
        capacity: status.capacity,
        balancer_capacity: status.balancer_capacity,
        group: clone_opt(&status.group),
        janus_url: clone_opt(&status.janus_url),
    };
    let t = Transaction {
        trace_id: trace_id.clone(),
        kind: Some(TransactionKind::CreateSession(settings)),
    };
    CreateSessionRequest { backend_id: backend_id.clone(), transaction: register(&t) }
}

impl Store {
    /// Applies a handle event of a backend: WebRtcUp starts a stream,
    /// HangUp and Detached stop one, and the other events are ignored.
    pub fn handle_event(&mut self, backend_id: &String, event: &IncomingEvent, now: i64) -> (r: Vec<StreamUpdate>)
        requires
            old(self)@.wf(),
        ensures
            final(self)@.wf(),
            match event {
                IncomingEvent::WebRtcUp(e) => (final(self)@, r@) == webrtc_up_spec(
                    old(self)@,
                    backend_id@,
                    e.handle_id,
                    now,
                ),
                IncomingEvent::HangUp(e) => (final(self)@, r@) == hangup_spec(
                    old(self)@,
                    backend_id@,
                    e.handle_id,
                    now,
                ),
                IncomingEvent::Detached(e) => (final(self)@, r@) == hangup_spec(
                    old(self)@,
                    backend_id@,
                    e.handle_id,
                    now,
                ),
                _ => final(self)@ == old(self)@ && r@.len() == 0,
            },
    {
        match event {
            IncomingEvent::WebRtcUp(e) => self.handle_webrtc_up(backend_id, e.handle_id, now),
            IncomingEvent::HangUp(e) => self.handle_hangup_detach(backend_id, e.handle_id, now),
            IncomingEvent::Detached(e) => self.handle_hangup_detach(backend_id, e.handle_id, now),
            _ => Vec::new(),
        }
    }

    /// Applies a status event of a backend.
    pub fn handle_status_event(&mut self, backend_id: &String, trace_id: &String, status: &StatusEvent, now: i64) -> (r:
        StatusOutcome)
        requires
            old(self)@.wf(),
        ensures
            final(self)@.wf(),
            status.online ==> final(self)@ == old(self)@ && (r matches StatusOutcome::CreateSession(q)
                && q.backend_id@ == backend_id@ && q.transaction@ == session_token(trace_id@, *status)),
            !status.online ==> (r matches StatusOutcome::Offline(n) && (final(self)@, n@) == offline_spec(
                old(self)@,
                backend_id@,
                now,
            )),
    {
        if status.online {
            StatusOutcome::CreateSession(create_session_request(backend_id, trace_id, status))
        } else {
            StatusOutcome::Offline(self.handle_backend_offline(backend_id, now))
        }
    }
}

} // verus!
