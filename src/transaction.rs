//! Transactions: what the service must remember about a request to a media
//! backend until the matching response or event arrives. A transaction is
//! carried inside its own correlation token, so no table of pending calls is
//! kept: `register` turns a transaction into a token and `resolve` turns a
//! token back into the transaction.
use vstd::prelude::*;
use vstd::utf8::*;
use crate::codec::{
    enc_int, enc_text, enc_u128, from_hex, hex_of, lemma_int_round_trip, lemma_text_round_trip,
    lemma_u128_round_trip, lemma_unhex_hex, parse_int, parse_text, parse_u128, parse_u8,
    read_i32, read_i64, read_text, read_u128, read_u8, text_fits, to_hex, unhex, write_i64,
    write_text, write_u128,
};
use crate::ids::SessionId;

verus! {

broadcast use {encode_utf8_valid_utf8, encode_utf8_decode_utf8};

/// Settings of a backend that travel from the session request to the
/// control handle request.
pub struct CreateSessionTransaction {
    pub capacity: Option<i32>,
    pub balancer_capacity: Option<i32>,
    pub group: Option<String>,
    pub janus_url: Option<String>,
}

/// What the control handle request carries: the backend session and the
/// backend settings.
pub struct TransactionData {
    session_id: i64,
    capacity: Option<i32>,
    balancer_capacity: Option<i32>,
    group: Option<String>,
    janus_url: Option<String>,
}

/// Who asked for an operation, so that the answer can be relayed to them.
pub struct RequestOrigin {
    pub agent_id: String,
    pub correlation_data: String,
    pub method: String,
}

pub struct UploadStreamTransaction {
    pub rtc_id: u128,
    pub start_timestamp: i64,
}

pub enum TransactionKind {
    CreateSession(CreateSessionTransaction),
    CreateControlHandle(TransactionData),
    CreatePoolHandle(SessionId),
    CreateStream(RequestOrigin),
    ReadStream(RequestOrigin),
    Trickle(RequestOrigin),
    UploadStream(UploadStreamTransaction),
    AgentSpeaking,
    ServicePing,
}

pub struct Transaction {
    pub trace_id: String,
    pub kind: Option<TransactionKind>,
}

/// Why a token could not be resolved.
#[derive(Clone, Copy, Debug, PartialEq, Eq, Structural)]
pub enum TokenError {
    NotHex,
    Malformed,
}

// ---------------------------------------------------------------------------
// Mathematical values

pub struct SettingsView {
    pub capacity: Option<i32>,
    pub balancer_capacity: Option<i32>,
    pub group: Option<Seq<char>>,
    pub janus_url: Option<Seq<char>>,
}

pub struct OriginView {
    pub agent_id: Seq<char>,
    pub correlation_data: Seq<char>,
    pub method: Seq<char>,
}

pub enum KindView {
    CreateSession(SettingsView),
    CreateControlHandle(i64, SettingsView),
    CreatePoolHandle(i64),
    CreateStream(OriginView),
    ReadStream(OriginView),
    Trickle(OriginView),
    UploadStream(u128, i64),
    AgentSpeaking,
    ServicePing,
}

pub struct TransactionView {
    pub trace_id: Seq<char>,
    pub kind: Option<KindView>,
}

pub open spec fn opt_text_view(o: Option<String>) -> Option<Seq<char>> {
    match o {
        Some(s) => Some(s@),
        None => None,
    }
}

impl View for CreateSessionTransaction {
    type V = SettingsView;

    open spec fn view(&self) -> SettingsView {
        SettingsView {
            capacity: self.capacity,
            balancer_capacity: self.balancer_capacity,
            group: opt_text_view(self.group),
            janus_url: opt_text_view(self.janus_url),
        }
    }
}

impl View for TransactionData {
    type V = (i64, SettingsView);

    closed spec fn view(&self) -> (i64, SettingsView) {
        (
            self.session_id,
            SettingsView {
                capacity: self.capacity,
                balancer_capacity: self.balancer_capacity,
                group: opt_text_view(self.group),
                janus_url: opt_text_view(self.janus_url),
            },
        )
    }
}

impl View for RequestOrigin {
    type V = OriginView;

    open spec fn view(&self) -> OriginView {
        OriginView {
            agent_id: self.agent_id@,
            correlation_data: self.correlation_data@,
            method: self.method@,
        }
    }
}

impl View for TransactionKind {
    type V = KindView;

    open spec fn view(&self) -> KindView {
        match self {
            TransactionKind::CreateSession(t) => KindView::CreateSession(t@),
            TransactionKind::CreateControlHandle(d) => KindView::CreateControlHandle(d@.0, d@.1),
            TransactionKind::CreatePoolHandle(s) => KindView::CreatePoolHandle(s.0),
            TransactionKind::CreateStream(o) => KindView::CreateStream(o@),
            TransactionKind::ReadStream(o) => KindView::ReadStream(o@),
            TransactionKind::Trickle(o) => KindView::Trickle(o@),
            TransactionKind::UploadStream(u) => KindView::UploadStream(u.rtc_id, u.start_timestamp),
            TransactionKind::AgentSpeaking => KindView::AgentSpeaking,
            TransactionKind::ServicePing => KindView::ServicePing,
        }
    }
}

impl View for Transaction {
    type V = TransactionView;

    open spec fn view(&self) -> TransactionView {
        TransactionView {
            trace_id: self.trace_id@,
            kind: match self.kind {
                Some(k) => Some(k@),
                None => None,
            },
        }
    }
}

// ---------------------------------------------------------------------------
// Encoding

pub open spec fn opt_text_fits(o: Option<Seq<char>>) -> bool {
    match o {
        Some(t) => text_fits(t),
        None => true,
    }
}

pub open spec fn settings_fit(s: SettingsView) -> bool {
    opt_text_fits(s.group) && opt_text_fits(s.janus_url)
}

pub open spec fn origin_fits(o: OriginView) -> bool {
    text_fits(o.agent_id) && text_fits(o.correlation_data) && text_fits(o.method)
}

/// Every text of the transaction is short enough for its length prefix.
pub open spec fn transaction_fits(t: TransactionView) -> bool {
    &&& text_fits(t.trace_id)
    &&& match t.kind {
        Some(KindView::CreateSession(s)) => settings_fit(s),
        Some(KindView::CreateControlHandle(_, s)) => settings_fit(s),
        Some(KindView::CreateStream(o)) => origin_fits(o),
        Some(KindView::ReadStream(o)) => origin_fits(o),
        Some(KindView::Trickle(o)) => origin_fits(o),
        _ => true,
    }
}

pub open spec fn enc_opt_i32(o: Option<i32>) -> Seq<u8> {
    match o {
        Some(x) => seq![1u8] + enc_int(x as int),
        None => seq![0u8],
    }
}

pub open spec fn enc_opt_text(o: Option<Seq<char>>) -> Seq<u8> {
    match o {
        Some(t) => seq![1u8] + enc_text(t),
        None => seq![0u8],
    }
}

pub open spec fn enc_settings(s: SettingsView) -> Seq<u8> {
    enc_opt_i32(s.capacity) + enc_opt_i32(s.balancer_capacity) + enc_opt_text(s.group)
        + enc_opt_text(s.janus_url)
}

pub open spec fn enc_origin(o: OriginView) -> Seq<u8> {
    enc_text(o.agent_id) + enc_text(o.correlation_data) + enc_text(o.method)
}

pub open spec fn enc_kind(k: KindView) -> Seq<u8> {
    match k {
        KindView::CreateSession(s) => seq![0u8] + enc_settings(s),
        KindView::CreateControlHandle(id, s) => seq![1u8] + enc_int(id as int) + enc_settings(s),
        KindView::CreatePoolHandle(id) => seq![2u8] + enc_int(id as int),
        KindView::CreateStream(o) => seq![3u8] + enc_origin(o),
        KindView::ReadStream(o) => seq![4u8] + enc_origin(o),
        KindView::Trickle(o) => seq![5u8] + enc_origin(o),
        KindView::UploadStream(rtc, ts) => seq![6u8] + enc_u128(rtc as nat) + enc_int(ts as int),
        KindView::AgentSpeaking => seq![7u8],
        KindView::ServicePing => seq![8u8],
    }
}

/// The bytes of a transaction: its trace identifier, then its kind if any.
pub open spec fn enc_transaction(t: TransactionView) -> Seq<u8> {
    enc_text(t.trace_id) + match t.kind {
        Some(k) => seq![1u8] + enc_kind(k),
        None => seq![0u8],
    }
}

/// The correlation token of a transaction: the hexadecimal text of its bytes.
pub open spec fn token_of(t: TransactionView) -> Seq<u8> {
    hex_of(enc_transaction(t))
}

// ---------------------------------------------------------------------------
// Decoding

#[verifier::opaque]
pub open spec fn parse_opt_i32(s: Seq<u8>, pos: int) -> Option<(Option<i32>, int)> {
    match parse_u8(s, pos) {
        Some((0u8, p)) => Some((None, p)),
        Some((1u8, p)) => match parse_int(s, p, i32::MIN as int, i32::MAX as int) {
            Some((v, q)) => Some((Some(v as i32), q)),
            None => None,
        },
        _ => None,
    }
}

#[verifier::opaque]
pub open spec fn parse_opt_text(s: Seq<u8>, pos: int) -> Option<(Option<Seq<char>>, int)> {
    match parse_u8(s, pos) {
        Some((0u8, p)) => Some((None, p)),
        Some((1u8, p)) => match parse_text(s, p) {
            Some((v, q)) => Some((Some(v), q)),
            None => None,
        },
        _ => None,
    }
}

#[verifier::opaque]
pub open spec fn parse_settings(s: Seq<u8>, pos: int) -> Option<(SettingsView, int)> {
    match parse_opt_i32(s, pos) {
        Some((c, p1)) => match parse_opt_i32(s, p1) {
            Some((b, p2)) => match parse_opt_text(s, p2) {
                Some((g, p3)) => match parse_opt_text(s, p3) {
                    Some((u, p4)) => Some(
                        (SettingsView { capacity: c, balancer_capacity: b, group: g, janus_url: u }, p4),
                    ),
                    None => None,
                },
                None => None,
            },
            None => None,
        },
        None => None,
    }
}

#[verifier::opaque]
pub open spec fn parse_origin(s: Seq<u8>, pos: int) -> Option<(OriginView, int)> {
    match parse_text(s, pos) {
        Some((a, p1)) => match parse_text(s, p1) {
            Some((c, p2)) => match parse_text(s, p2) {
                Some((m, p3)) => Some(
                    (OriginView { agent_id: a, correlation_data: c, method: m }, p3),
                ),
                None => None,
            },
            None => None,
        },
        None => None,
    }
}

#[verifier::opaque]
pub open spec fn parse_i64(s: Seq<u8>, pos: int) -> Option<(i64, int)> {
    match parse_int(s, pos, i64::MIN as int, i64::MAX as int) {
        Some((v, p)) => Some((v as i64, p)),
        None => None,
    }
}

#[verifier::opaque]
pub open spec fn parse_kind(s: Seq<u8>, pos: int) -> Option<(KindView, int)> {
    match parse_u8(s, pos) {
        Some((tag, p)) => {
            if tag == 0 {
                match parse_settings(s, p) {
                    Some((st, q)) => Some((KindView::CreateSession(st), q)),
                    None => None,
                }
            } else if tag == 1 {
                match parse_i64(s, p) {
                    Some((id, q)) => match parse_settings(s, q) {
                        Some((st, r)) => Some((KindView::CreateControlHandle(id, st), r)),
                        None => None,
                    },
                    None => None,
                }
            } else if tag == 2 {
                match parse_i64(s, p) {
                    Some((id, q)) => Some((KindView::CreatePoolHandle(id), q)),
                    None => None,
                }
            } else if tag == 3 || tag == 4 || tag == 5 {
                match parse_origin(s, p) {
                    Some((o, q)) => Some(
                        (
                            if tag == 3 {
                                KindView::CreateStream(o)
                            } else if tag == 4 {
                                KindView::ReadStream(o)
                            } else {
                                KindView::Trickle(o)
                            },
                            q,
                        ),
                    ),
                    None => None,
                }
            } else if tag == 6 {
                match parse_u128(s, p) {
                    Some((rtc, q)) => match parse_i64(s, q) {
                        Some((ts, r)) => Some((KindView::UploadStream(rtc as u128, ts), r)),
                        None => None,
                    },
                    None => None,
                }
            } else if tag == 7 {
                Some((KindView::AgentSpeaking, p))
            } else if tag == 8 {
                Some((KindView::ServicePing, p))
            } else {
                None
            }
        },
        None => None,
    }
}

pub open spec fn parse_transaction(s: Seq<u8>) -> Option<TransactionView> {
    match parse_text(s, 0) {
        Some((trace, p)) => match parse_u8(s, p) {
            Some((0u8, q)) => {
                if q == s.len() {
                    Some(TransactionView { trace_id: trace, kind: None })
                } else {
                    None
                }
            },
            Some((1u8, q)) => match parse_kind(s, q) {
                Some((k, r)) => {
                    if r == s.len() {
                        Some(TransactionView { trace_id: trace, kind: Some(k) })
                    } else {
                        None
                    }
                },
                None => None,
            },
            _ => None,
        },
        None => None,
    }
}

// ---------------------------------------------------------------------------
// Round trip

pub proof fn lemma_opt_i32_round_trip(pre: Seq<u8>, o: Option<i32>, rest: Seq<u8>)
    ensures
        parse_opt_i32(pre + enc_opt_i32(o) + rest, pre.len() as int) == Some(
            (o, pre.len() + enc_opt_i32(o).len() as int),
        ),
{
    reveal(parse_opt_i32);
    let s = pre + enc_opt_i32(o) + rest;
    assert(s[pre.len() as int] == enc_opt_i32(o)[0]);
    if let Some(x) = o {
        assert(s =~= pre.push(1u8) + enc_int(x as int) + rest);
        lemma_int_round_trip(pre.push(1u8), x as int, i32::MIN as int, i32::MAX as int, rest);
    }
}

pub proof fn lemma_opt_text_round_trip(pre: Seq<u8>, o: Option<Seq<char>>, rest: Seq<u8>)
    requires
        opt_text_fits(o),
    ensures
        parse_opt_text(pre + enc_opt_text(o) + rest, pre.len() as int) == Some(
            (o, pre.len() + enc_opt_text(o).len() as int),
        ),
{
    reveal(parse_opt_text);
    let s = pre + enc_opt_text(o) + rest;
    assert(s[pre.len() as int] == enc_opt_text(o)[0]);
    if let Some(t) = o {
        assert(s =~= pre.push(1u8) + enc_text(t) + rest);
        lemma_text_round_trip(pre.push(1u8), t, rest);
    }
}

#[verifier::rlimit(60)]
pub proof fn lemma_settings_round_trip(pre: Seq<u8>, v: SettingsView, rest: Seq<u8>)
    requires
        settings_fit(v),
    ensures
        parse_settings(pre + enc_settings(v) + rest, pre.len() as int) == Some(
            (v, pre.len() + enc_settings(v).len() as int),
        ),
{
    reveal(parse_settings);
    let a = enc_opt_i32(v.capacity);
    let b = enc_opt_i32(v.balancer_capacity);
    let c = enc_opt_text(v.group);
    let d = enc_opt_text(v.janus_url);
    let s = pre + enc_settings(v) + rest;
    assert(s =~= pre + a + (b + c + d + rest));
    lemma_opt_i32_round_trip(pre, v.capacity, b + c + d + rest);
    assert(s =~= (pre + a) + b + (c + d + rest));
    lemma_opt_i32_round_trip(pre + a, v.balancer_capacity, c + d + rest);
    assert(s =~= (pre + a + b) + c + (d + rest));
    lemma_opt_text_round_trip(pre + a + b, v.group, d + rest);
    assert(s =~= (pre + a + b + c) + d + rest);
    lemma_opt_text_round_trip(pre + a + b + c, v.janus_url, rest);
}

pub proof fn lemma_origin_round_trip(pre: Seq<u8>, v: OriginView, rest: Seq<u8>)
    requires
        origin_fits(v),
    ensures
        parse_origin(pre + enc_origin(v) + rest, pre.len() as int) == Some(
            (v, pre.len() + enc_origin(v).len() as int),
        ),
{
    reveal(parse_origin);
    let a = enc_text(v.agent_id);
    let b = enc_text(v.correlation_data);
    let c = enc_text(v.method);
    let s = pre + enc_origin(v) + rest;
    assert(s =~= pre + a + (b + c + rest));
    lemma_text_round_trip(pre, v.agent_id, b + c + rest);
    assert(s =~= (pre + a) + b + (c + rest));
    lemma_text_round_trip(pre + a, v.correlation_data, c + rest);
    assert(s =~= (pre + a + b) + c + rest);
    lemma_text_round_trip(pre + a + b, v.method, rest);
}

pub open spec fn kind_fits(k: KindView) -> bool {
    match k {
        KindView::CreateSession(s) => settings_fit(s),
        KindView::CreateControlHandle(_, s) => settings_fit(s),
        KindView::CreateStream(o) => origin_fits(o),
        KindView::ReadStream(o) => origin_fits(o),
        KindView::Trickle(o) => origin_fits(o),
        _ => true,
    }
}

#[verifier::rlimit(60)]
pub proof fn lemma_kind_round_trip(pre: Seq<u8>, k: KindView, rest: Seq<u8>)
    requires
        kind_fits(k),
    ensures
        parse_kind(pre + enc_kind(k) + rest, pre.len() as int) == Some(
            (k, pre.len() + enc_kind(k).len() as int),
        ),
{
    reveal(parse_kind);
    reveal(parse_i64);
    let s = pre + enc_kind(k) + rest;
    let p = pre.len() as int;
    assert(s[p] == enc_kind(k)[0]);
    match k {
        KindView::CreateSession(st) => {
            assert(s =~= pre.push(0u8) + enc_settings(st) + rest);
            lemma_settings_round_trip(pre.push(0u8), st, rest);
        },
        KindView::CreateControlHandle(id, st) => {
            let q = pre.push(1u8);
            assert(s =~= q + enc_int(id as int) + (enc_settings(st) + rest));
            lemma_int_round_trip(q, id as int, i64::MIN as int, i64::MAX as int, enc_settings(st) + rest);
            assert(s =~= (q + enc_int(id as int)) + enc_settings(st) + rest);
            lemma_settings_round_trip(q + enc_int(id as int), st, rest);
        },
        KindView::CreatePoolHandle(id) => {
            assert(s =~= pre.push(2u8) + enc_int(id as int) + rest);
            lemma_int_round_trip(pre.push(2u8), id as int, i64::MIN as int, i64::MAX as int, rest);
        },
        KindView::CreateStream(o) => {
            assert(s =~= pre.push(3u8) + enc_origin(o) + rest);
            lemma_origin_round_trip(pre.push(3u8), o, rest);
        },
        KindView::ReadStream(o) => {
            assert(s =~= pre.push(4u8) + enc_origin(o) + rest);
            lemma_origin_round_trip(pre.push(4u8), o, rest);
        },
        KindView::Trickle(o) => {
            assert(s =~= pre.push(5u8) + enc_origin(o) + rest);
            lemma_origin_round_trip(pre.push(5u8), o, rest);
        },
        KindView::UploadStream(rtc, ts) => {
            let q = pre.push(6u8);
            assert(s =~= q + enc_u128(rtc as nat) + (enc_int(ts as int) + rest));
            lemma_u128_round_trip(q, rtc as nat, enc_int(ts as int) + rest);
            assert(s =~= (q + enc_u128(rtc as nat)) + enc_int(ts as int) + rest);
            lemma_int_round_trip(q + enc_u128(rtc as nat), ts as int, i64::MIN as int, i64::MAX as int, rest);
        },
        KindView::AgentSpeaking => {},
        KindView::ServicePing => {},
    }
}

/// Parsing the bytes of a transaction gives the transaction back.
pub proof fn lemma_transaction_round_trip(t: TransactionView)
    requires
        transaction_fits(t),
    ensures
        parse_transaction(enc_transaction(t)) == Some(t),
{
    let s = enc_transaction(t);
    let a = enc_text(t.trace_id);
    let empty = Seq::<u8>::empty();
    match t.kind {
        None => {
            assert(s =~= empty + a + seq![0u8]);
            lemma_text_round_trip(empty, t.trace_id, seq![0u8]);
            assert(s[a.len() as int] == 0u8);
        },
        Some(k) => {
            assert(s =~= empty + a + (seq![1u8] + enc_kind(k)));
            lemma_text_round_trip(empty, t.trace_id, seq![1u8] + enc_kind(k));
            assert(s[a.len() as int] == 1u8);
            assert(s =~= a.push(1u8) + enc_kind(k) + empty);
            lemma_kind_round_trip(a.push(1u8), k, empty);
        },
    }
}

/// What a token resolves to: the transaction whose bytes its hexadecimal
/// text spells, if it spells any.
pub open spec fn resolved(token: Seq<u8>) -> Option<TransactionView> {
    match unhex(token) {
        Some(b) => parse_transaction(b),
        None => None,
    }
}

/// Resolving the token of a transaction gives that transaction back.
pub proof fn lemma_resolve_register(t: TransactionView)
    requires
        transaction_fits(t),
    ensures
        resolved(token_of(t)) == Some(t),
{
    lemma_unhex_hex(enc_transaction(t));
    lemma_transaction_round_trip(t);
}

// ---------------------------------------------------------------------------
// Writing and reading

fn write_opt_i32(out: &mut Vec<u8>, o: Option<i32>)
    ensures
        final(out)@ == old(out)@ + enc_opt_i32(o),
{
    match o {
        Some(x) => {
            out.push(1u8);
            write_i64(out, x as i64);
        },
        None => {
            out.push(0u8);
        },
    }
    proof {
        assert(final(out)@ =~= old(out)@ + enc_opt_i32(o));
    }
}

fn write_opt_text(out: &mut Vec<u8>, o: &Option<String>)
    ensures
        opt_text_fits(opt_text_view(*o)),
        final(out)@ == old(out)@ + enc_opt_text(opt_text_view(*o)),
{
    match o {
        Some(t) => {
            out.push(1u8);
            write_text(out, t);
        },
        None => {
            out.push(0u8);
        },
    }
    proof {
        assert(final(out)@ =~= old(out)@ + enc_opt_text(opt_text_view(*o)));
    }
}

fn write_settings(
    out: &mut Vec<u8>,
    capacity: Option<i32>,
    balancer_capacity: Option<i32>,
    group: &Option<String>,
    janus_url: &Option<String>,
)
    ensures
        opt_text_fits(opt_text_view(*group)),
        opt_text_fits(opt_text_view(*janus_url)),
        final(out)@ == old(out)@ + enc_settings(
            SettingsView {
                capacity,
                balancer_capacity,
                group: opt_text_view(*group),
                janus_url: opt_text_view(*janus_url),
            },
        ),
{
    write_opt_i32(out, capacity);
    write_opt_i32(out, balancer_capacity);
    write_opt_text(out, group);
    write_opt_text(out, janus_url);
    proof {
        assert(final(out)@ =~= old(out)@ + enc_settings(
            SettingsView {
                capacity,
                balancer_capacity,
                group: opt_text_view(*group),
                janus_url: opt_text_view(*janus_url),
            },
        ));
    }
}

fn write_origin(out: &mut Vec<u8>, o: &RequestOrigin)
    ensures
        origin_fits(o@),
        final(out)@ == old(out)@ + enc_origin(o@),
{
    write_text(out, &o.agent_id);
    write_text(out, &o.correlation_data);
    write_text(out, &o.method);
    proof {
        assert(final(out)@ =~= old(out)@ + enc_origin(o@));
    }
}

fn write_kind(out: &mut Vec<u8>, k: &TransactionKind)
    ensures
        kind_fits(k@),
        final(out)@ == old(out)@ + enc_kind(k@),
{
    let ghost start = out@;
    match k {
        TransactionKind::CreateSession(t) => {
            out.push(0u8);
            write_settings(out, t.capacity, t.balancer_capacity, &t.group, &t.janus_url);
        },
        TransactionKind::CreateControlHandle(d) => {
            out.push(1u8);
            write_i64(out, d.session_id);
            write_settings(out, d.capacity, d.balancer_capacity, &d.group, &d.janus_url);
        },
        TransactionKind::CreatePoolHandle(id) => {
            out.push(2u8);
            write_i64(out, id.0);
        },
        TransactionKind::CreateStream(o) => {
            out.push(3u8);
            write_origin(out, o);
        },
        TransactionKind::ReadStream(o) => {
            out.push(4u8);
            write_origin(out, o);
        },
        TransactionKind::Trickle(o) => {
            out.push(5u8);
            write_origin(out, o);
        },
        TransactionKind::UploadStream(u) => {
            out.push(6u8);
            write_u128(out, u.rtc_id);
            write_i64(out, u.start_timestamp);
        },
        TransactionKind::AgentSpeaking => {
            out.push(7u8);
        },
        TransactionKind::ServicePing => {
            out.push(8u8);
        },
    }
    proof {
        assert(out@ =~= start + enc_kind(k@));
    }
}

/// Mints the correlation token of a transaction.
pub fn register(t: &Transaction) -> (token: Vec<u8>)
    ensures
        transaction_fits(t@),
        token@ == token_of(t@),
{
    let mut bytes: Vec<u8> = Vec::new();
    write_text(&mut bytes, &t.trace_id);
    match &t.kind {
        Some(k) => {
            bytes.push(1u8);
            write_kind(&mut bytes, k);
        },
        None => {
            bytes.push(0u8);
        },
    }
    proof {
        assert(bytes@ =~= enc_transaction(t@));
    }
    to_hex(&bytes)
}

fn read_opt_i32(b: &Vec<u8>, pos: usize) -> (r: Option<(Option<i32>, usize)>)
    ensures
        match parse_opt_i32(b@, pos as int) {
            Some((v, p)) => r matches Some((w, q)) && w == v && q as int == p,
            None => r is None,
        },
{
    proof {
        reveal(parse_opt_i32);
    }
    match read_u8(b, pos) {
        Some((0u8, p)) => Some((None, p)),
        Some((1u8, p)) => match read_i32(b, p) {
            Some((v, q)) => Some((Some(v), q)),
            None => None,
        },
        _ => None,
    }
}

fn read_opt_text(b: &Vec<u8>, pos: usize) -> (r: Option<(Option<String>, usize)>)
    ensures
        match parse_opt_text(b@, pos as int) {
            Some((v, p)) => r matches Some((w, q)) && opt_text_view(w) == v && q as int == p,
            None => r is None,
        },
{
    proof {
        reveal(parse_opt_text);
    }
    match read_u8(b, pos) {
        Some((0u8, p)) => Some((None, p)),
        Some((1u8, p)) => match read_text(b, p) {
            Some((v, q)) => Some((Some(v), q)),
            None => None,
        },
        _ => None,
    }
}

fn read_settings(b: &Vec<u8>, pos: usize) -> (r: Option<(CreateSessionTransaction, usize)>)
    ensures
        match parse_settings(b@, pos as int) {
            Some((v, p)) => r matches Some((w, q)) && w@ == v && q as int == p,
            None => r is None,
        },
{
    proof {
        reveal(parse_settings);
    }
    let (capacity, p1) = match read_opt_i32(b, pos) {
        Some(x) => x,
        None => return None,
    };
    let (balancer_capacity, p2) = match read_opt_i32(b, p1) {
        Some(x) => x,
        None => return None,
    };
    let (group, p3) = match read_opt_text(b, p2) {
        Some(x) => x,
        None => return None,
    };
    let (janus_url, p4) = match read_opt_text(b, p3) {
        Some(x) => x,
        None => return None,
    };
    Some((CreateSessionTransaction { capacity, balancer_capacity, group, janus_url }, p4))
}

fn read_origin(b: &Vec<u8>, pos: usize) -> (r: Option<(RequestOrigin, usize)>)
    ensures
        match parse_origin(b@, pos as int) {
            Some((v, p)) => r matches Some((w, q)) && w@ == v && q as int == p,
            None => r is None,
        },
{
    proof {
        reveal(parse_origin);
    }
    let (agent_id, p1) = match read_text(b, pos) {
        Some(x) => x,
        None => return None,
    };
    let (correlation_data, p2) = match read_text(b, p1) {
        Some(x) => x,
        None => return None,
    };
    let (method, p3) = match read_text(b, p2) {
        Some(x) => x,
        None => return None,
    };
    Some((RequestOrigin { agent_id, correlation_data, method }, p3))
}

fn read_kind(b: &Vec<u8>, pos: usize) -> (r: Option<(TransactionKind, usize)>)
    ensures
        match parse_kind(b@, pos as int) {
            Some((v, p)) => r matches Some((w, q)) && w@ == v && q as int == p,
            None => r is None,
        },
{
    proof {
        reveal(parse_kind);
        reveal(parse_i64);
    }
    let (tag, p) = match read_u8(b, pos) {
        Some(x) => x,
        None => return None,
    };
    if tag == 0 {
        match read_settings(b, p) {
            Some((st, q)) => Some((TransactionKind::CreateSession(st), q)),
            None => None,
        }
    } else if tag == 1 {
        match read_i64(b, p) {
            Some((id, q)) => match read_settings(b, q) {
                Some((st, r)) => {
                    let d = TransactionData {
                        session_id: id,
                        capacity: st.capacity,
                        balancer_capacity: st.balancer_capacity,
                        group: st.group,
                        janus_url: st.janus_url,
                    };
                    Some((TransactionKind::CreateControlHandle(d), r))
                },
                None => None,
            },
            None => None,
        }
    } else if tag == 2 {
        match read_i64(b, p) {
            Some((id, q)) => Some((TransactionKind::CreatePoolHandle(SessionId(id)), q)),
            None => None,
        }
    } else if tag == 3 || tag == 4 || tag == 5 {
        match read_origin(b, p) {
            Some((o, q)) => {
                let k = if tag == 3 {
                    TransactionKind::CreateStream(o)
                } else if tag == 4 {
                    TransactionKind::ReadStream(o)
                } else {
                    TransactionKind::Trickle(o)
                };
                Some((k, q))
            },
            None => None,
        }
    } else if tag == 6 {
        match read_u128(b, p) {
            Some((rtc_id, q)) => match read_i64(b, q) {
                Some((start_timestamp, r)) => Some(
                    (
                        TransactionKind::UploadStream(
                            UploadStreamTransaction { rtc_id, start_timestamp },
                        ),
                        r,
                    ),
                ),
                None => None,
            },
            None => None,
        }
    } else if tag == 7 {
        Some((TransactionKind::AgentSpeaking, p))
    } else if tag == 8 {
        Some((TransactionKind::ServicePing, p))
    } else {
        None
    }
}

/// Turns a correlation token back into its transaction. A token that is not
/// hexadecimal text, or whose bytes are not the bytes of a transaction, is
/// refused; such a failure is permanent.
pub fn resolve(token: &Vec<u8>) -> (r: Result<Transaction, TokenError>)
    ensures
        match resolved(token@) {
            Some(t) => r matches Ok(x) && x@ == t,
            None => r is Err,
        },
        r == Err::<Transaction, TokenError>(TokenError::NotHex) <==> unhex(token@) is None,
{
    let bytes = match from_hex(token) {
        Some(b) => b,
        None => return Err(TokenError::NotHex),
    };
    let (trace_id, p) = match read_text(&bytes, 0) {
        Some(x) => x,
        None => return Err(TokenError::Malformed),
    };
    match read_u8(&bytes, p) {
        Some((0u8, q)) => {
            if q == bytes.len() {
                Ok(Transaction { trace_id, kind: None })
            } else {
                Err(TokenError::Malformed)
            }
        },
        Some((1u8, q)) => match read_kind(&bytes, q) {
            Some((k, r)) => {
                if r == bytes.len() {
                    Ok(Transaction { trace_id, kind: Some(k) })
                } else {
                    Err(TokenError::Malformed)
                }
            },
            None => Err(TokenError::Malformed),
        },
        _ => Err(TokenError::Malformed),
    }
}

// ---------------------------------------------------------------------------
// Control handle data

impl TransactionData {
    pub fn new(session_id: i64) -> (r: TransactionData)
        ensures
            r@ == (
                session_id,
                SettingsView { capacity: None, balancer_capacity: None, group: None, janus_url: None },
            ),
    {
        TransactionData {
            session_id,
            capacity: None,
            balancer_capacity: None,
            group: None,
            janus_url: None,
        }
    }

    pub fn session_id(&self) -> (r: i64)
        ensures
            r == self@.0,
    {
        self.session_id
    }

    pub fn capacity(&self) -> (r: Option<i32>)
        ensures
            r == self@.1.capacity,
    {
        self.capacity
    }

    pub fn set_capacity(&mut self, capacity: i32)
        ensures
            final(self)@ == (old(self)@.0, SettingsView { capacity: Some(capacity), ..old(self)@.1 }),
    {
        self.capacity = Some(capacity);
    }

    pub fn balancer_capacity(&self) -> (r: Option<i32>)
        ensures
            r == self@.1.balancer_capacity,
    {
        self.balancer_capacity
    }

    pub fn set_balancer_capacity(&mut self, balancer_capacity: i32)
        ensures
            final(self)@ == (
                old(self)@.0,
                SettingsView { balancer_capacity: Some(balancer_capacity), ..old(self)@.1 },
            ),
    {
        self.balancer_capacity = Some(balancer_capacity);
    }

    pub fn group(&self) -> (r: Option<&str>)
        ensures
            match r {
                Some(g) => self@.1.group == Some(g@),
                None => self@.1.group is None,
            },
    {
        match &self.group {
            Some(g) => Some(g.as_str()),
            None => None,
        }
    }

    pub fn set_group(&mut self, group: &str)
        ensures
            final(self)@ == (old(self)@.0, SettingsView { group: Some(group@), ..old(self)@.1 }),
    {
        self.group = Some(group.to_owned());
    }

    pub fn janus_url(&self) -> (r: Option<&str>)
        ensures
            match r {
                Some(u) => self@.1.janus_url == Some(u@),
                None => self@.1.janus_url is None,
            },
    {
        match &self.janus_url {
            Some(u) => Some(u.as_str()),
            None => None,
        }
    }

    pub fn set_janus_url(&mut self, janus_url: String)
        ensures
            final(self)@ == (old(self)@.0, SettingsView { janus_url: Some(janus_url@), ..old(self)@.1 }),
    {
        self.janus_url = Some(janus_url);
    }
}

} // verus!


