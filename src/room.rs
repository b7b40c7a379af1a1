//! Checks on rooms: whether a room's time range admits an operation now,
//! whether an agent is present in a room, and which readers of a room
//! receive which media of a stream.
use vstd::prelude::*;
use vstd::utf8::encode_utf8;
use crate::ids::{HandleId, SessionId};
use crate::store::{
    backend_with_id, find_backend, find_room, last_match, lemma_last_match_facts, room_with_id,
    AgentPresence, Room, Rtc, Store, StoreView,
};
use crate::upload::in_room;

verus! {

/// What an operation asks of the time range of a room.
#[derive(Clone, Copy, Debug, PartialEq, Eq, Structural)]
pub enum RoomTimeRequirement {
    /// The time range does not matter.
    Any,
    /// The room has an opening time and is not closed yet.
    NotClosed,
    /// The room is not closed yet; it may have no opening time.
    NotClosedOrUnboundedOpen,
    /// The room has opened and is not closed yet.
    Open,
}

#[derive(Clone, Copy, Debug, PartialEq, Eq, Structural)]
pub enum RoomError {
    RoomNotFound,
    BackendNotFound,
    RoomClosed,
    AgentNotEnteredTheRoom,
    AgentNotConnected,
}

impl RoomError {
    /// The kind of the error as callers see it.
    pub fn kind(&self) -> (r: &'static str)
        ensures
            r@ == match self {
                RoomError::RoomNotFound => "room_not_found"@,
                RoomError::BackendNotFound => "backend_not_found"@,
                RoomError::RoomClosed => "room_closed"@,
                RoomError::AgentNotEnteredTheRoom => "agent_not_entered_the_room"@,
                RoomError::AgentNotConnected => "agent_not_connected"@,
            },
    {
        match self {
            RoomError::RoomNotFound => "room_not_found",
            RoomError::BackendNotFound => "backend_not_found",
            RoomError::RoomClosed => "room_closed",
            RoomError::AgentNotEnteredTheRoom => "agent_not_entered_the_room",
            RoomError::AgentNotConnected => "agent_not_connected",
        }
    }

    /// The response status of the error: each of them is a missing thing.
    pub fn status(&self) -> (r: u16)
        ensures
            r == 404,
    {
        404
    }
}

pub open spec fn closed_before(room: Room, now: i64) -> bool {
    room.closed_at matches Some(t) && t < now
}

pub open spec fn check_room_spec(room: Room, req: RoomTimeRequirement, now: i64) -> bool {
    match req {
        RoomTimeRequirement::Any => true,
        RoomTimeRequirement::NotClosed => room.opened_at is Some && !closed_before(room, now),
        RoomTimeRequirement::NotClosedOrUnboundedOpen => !closed_before(room, now),
        RoomTimeRequirement::Open => room.opened_at matches Some(t) && t < now && !closed_before(room, now),
    }
}

/// Hands the room back when its time range meets the requirement at `now`.
pub fn check_room(room: Room, requirement: RoomTimeRequirement, now: i64) -> (r: Result<Room, RoomError>)
    ensures
        check_room_spec(room, requirement, now) ==> r == Ok::<Room, RoomError>(room),
        !check_room_spec(room, requirement, now) ==> r == Err::<Room, RoomError>(RoomError::RoomClosed),
{
    let closed = match room.closed_at {
        Some(t) => t < now,
        None => false,
    };
    let ok = match requirement {
        RoomTimeRequirement::Any => true,
        RoomTimeRequirement::NotClosed => room.opened_at.is_some() && !closed,
        RoomTimeRequirement::NotClosedOrUnboundedOpen => !closed,
        RoomTimeRequirement::Open => match room.opened_at {
            Some(t) => t < now && !closed,
            None => false,
        },
    };
    if ok {
        Ok(room)
    } else {
        Err(RoomError::RoomClosed)
    }
}

impl Store {
    /// Succeeds when the agent is present in the room.
    pub fn check_room_presence(&self, room_id: u128, agent_id: &String) -> (r: Result<(), RoomError>)
        ensures
            r == if is_present(self@.presences, room_id, agent_id@) {
                Ok::<(), RoomError>(())
            } else {
                Err(RoomError::AgentNotEnteredTheRoom)
            },
    {
        let ps: &Vec<AgentPresence> = self.presences();
        let mut i: usize = 0;
        while i < ps.len()
            invariant
                ps@ == self@.presences,
                i <= ps@.len(),
                forall|j: int|
                    0 <= j < i ==> !(#[trigger] ps@[j].room_id == room_id && ps@[j].agent_id@ == agent_id@),
            decreases ps@.len() - i,
        {
            if ps[i].room_id == room_id && ps[i].agent_id == *agent_id {
                return Ok(());
            }
            i = i + 1;
        }
        Err(RoomError::AgentNotEnteredTheRoom)
    }
}

/// The most agents one listing returns.
pub const MAX_LIMIT: u64 = 25;

pub open spec fn present_in(room_id: u128) -> spec_fn(AgentPresence) -> bool {
    |a: AgentPresence| a.room_id == room_id
}

pub open spec fn page_bounds(len: int, offset: u64, limit: u64) -> (int, int) {
    let lo = if offset as int <= len { offset as int } else { len };
    let hi = if lo + limit as int <= len { lo + limit as int } else { len };
    (lo, hi)
}

/// A page of the agents present in a room, in order of arrival.
pub open spec fn agents_page(all: Seq<AgentPresence>, room_id: u128, offset: u64, limit: u64) -> Seq<
    AgentPresence,
> {
    let f = all.filter(present_in(room_id));
    let (lo, hi) = page_bounds(f.len() as int, offset, limit);
    f.subrange(lo, hi)
}

pub open spec fn effective_limit(limit: Option<u64>) -> u64 {
    match limit {
        Some(l) => if l < MAX_LIMIT {
            l
        } else {
            MAX_LIMIT
        },
        None => MAX_LIMIT,
    }
}

impl Store {
    /// Lists the agents present in an open room: from `offset` (0 when not
    /// given), at most `limit` of them and never more than `MAX_LIMIT`.
    pub fn list_agents(&self, room_id: u128, offset: Option<u64>, limit: Option<u64>, now: i64) -> (r: Result<
        Vec<AgentPresence>,
        RoomError,
    >)
        ensures
            match last_match(self@.rooms, room_with_id(room_id)) {
                None => r == Err::<Vec<AgentPresence>, RoomError>(RoomError::RoomNotFound),
                Some(j) => if !check_room_spec(self@.rooms[j], RoomTimeRequirement::Open, now) {
                    r == Err::<Vec<AgentPresence>, RoomError>(RoomError::RoomClosed)
                } else {
                    r matches Ok(v) && v@ == agents_page(
                        self@.presences,
                        room_id,
                        match offset {
                            Some(o) => o,
                            None => 0,
                        },
                        effective_limit(limit),
                    )
                },
            },
    {
        proof {
            lemma_last_match_facts(self@.rooms, room_with_id(room_id));
        }
        let j = match find_room(self.rooms(), room_id) {
            Some(j) => j,
            None => return Err(RoomError::RoomNotFound),
        };
        let open = match self.rooms()[j].opened_at {
            Some(t) => t < now && match self.rooms()[j].closed_at {
                Some(c) => !(c < now),
                None => true,
            },
            None => false,
        };
        if !open {
            return Err(RoomError::RoomClosed);
        }
        let off: u64 = match offset {
            Some(o) => o,
            None => 0,
        };
        let lim: u64 = match limit {
            Some(l) => if l < MAX_LIMIT {
                l
            } else {
                MAX_LIMIT
            },
            None => MAX_LIMIT,
        };
        let ps = self.presences();
        let ghost all = ps@;
        let ghost p = present_in(room_id);
        let mut out: Vec<AgentPresence> = Vec::new();
        let mut seen: u64 = 0;
        let mut i: usize = 0;
        while i < ps.len()
            invariant
                all == ps@,
                p == present_in(room_id),
                i <= all.len(),
                lim <= MAX_LIMIT,
                seen as int == all.subrange(0, i as int).filter(p).len(),
                seen <= i,
                out@ == agents_page(all.subrange(0, i as int), room_id, off, lim),
            decreases all.len() - i,
        {
            proof {
                assert(all.subrange(0, i + 1) =~= all.subrange(0, i as int).push(all[i as int]));
                all.subrange(0, i as int).lemma_filter_push(all[i as int], p);
            }
            let a = &ps[i];
            if a.room_id == room_id {
                let ghost f = all.subrange(0, i as int).filter(p);
                if seen >= off && seen - off < lim {
                    let ghost before = out@;
                    out.push(AgentPresence { agent_id: a.agent_id.clone(), room_id: a.room_id });
                    proof {
                        let g = f.push(all[i as int]);
                        let (lo, hi) = page_bounds(f.len() as int, off, lim);
                        let (lo2, hi2) = page_bounds(g.len() as int, off, lim);
                        assert(lo2 == lo && hi2 == hi + 1);
                        assert(out@ =~= g.subrange(lo2, hi2));
                    }
                } else {
                    proof {
                        let g = f.push(all[i as int]);
                        let (lo, hi) = page_bounds(f.len() as int, off, lim);
                        let (lo2, hi2) = page_bounds(g.len() as int, off, lim);
                        assert(out@ =~= g.subrange(lo2, hi2));
                    }
                }
                seen = seen + 1;
            }
            i = i + 1;
        }
        proof {
            assert(all.subrange(0, all.len() as int) =~= all);
        }
        Ok(out)
    }
}

/// Whether a room exists and is open at `now`.
pub open spec fn open_room_result(rooms: Seq<Room>, room_id: u128, now: i64) -> Result<(), RoomError> {
    match last_match(rooms, room_with_id(room_id)) {
        None => Err(RoomError::RoomNotFound),
        Some(j) => if check_room_spec(rooms[j], RoomTimeRequirement::Open, now) {
            Ok(())
        } else {
            Err(RoomError::RoomClosed)
        },
    }
}

pub open spec fn is_present(presences: Seq<AgentPresence>, room_id: u128, agent: Seq<char>) -> bool {
    exists|i: int| 0 <= i < presences.len() && #[trigger] presences[i].room_id == room_id && presences[i].agent_id@ == agent
}

impl Store {
    fn open_room(&self, room_id: u128, now: i64) -> (r: Result<(), RoomError>)
        ensures
            r == open_room_result(self@.rooms, room_id, now),
    {
        proof {
            lemma_last_match_facts(self@.rooms, room_with_id(room_id));
        }
        match find_room(self.rooms(), room_id) {
            None => Err(RoomError::RoomNotFound),
            Some(j) => match check_room(self.rooms()[j].duplicate(), RoomTimeRequirement::Open, now) {
                Ok(_) => Ok(()),
                Err(e) => Err(e),
            },
        }
    }

    /// A message from one agent to another goes through when the room is
    /// open and both agents are present in it.
    pub fn check_unicast(&self, room_id: u128, sender: &String, receiver: &String, now: i64) -> (r: Result<
        (),
        RoomError,
    >)
        ensures
            r == match open_room_result(self@.rooms, room_id, now) {
                Err(e) => Err(e),
                Ok(_) => if !is_present(self@.presences, room_id, sender@) || !is_present(
                    self@.presences,
                    room_id,
                    receiver@,
                ) {
                    Err(RoomError::AgentNotEnteredTheRoom)
                } else {
                    Ok(())
                },
            },
    {
        match self.open_room(room_id, now) {
            Err(e) => return Err(e),
            Ok(_) => {},
        }
        match self.check_room_presence(room_id, sender) {
            Err(e) => return Err(e),
            Ok(_) => {},
        }
        self.check_room_presence(room_id, receiver)
    }

    /// A message to a whole room goes through when the room is open and the
    /// sender is present in it.
    pub fn check_broadcast(&self, room_id: u128, sender: &String, now: i64) -> (r: Result<(), RoomError>)
        ensures
            r == match open_room_result(self@.rooms, room_id, now) {
                Err(e) => Err(e),
                Ok(_) => if !is_present(self@.presences, room_id, sender@) {
                    Err(RoomError::AgentNotEnteredTheRoom)
                } else {
                    Ok(())
                },
            },
    {
        match self.open_room(room_id, now) {
            Err(e) => Err(e),
            Ok(_) => self.check_room_presence(room_id, sender),
        }
    }
}

/// What one reader of a room receives of a stream.
pub struct ReaderConfigItem {
    pub reader_id: String,
    pub stream_id: u128,
    pub receive_video: bool,
    pub receive_audio: bool,
}

/// The configuration of a reader of a stream in a room.
pub open spec fn item_ok(item: ReaderConfigItem, reader: Rtc, stream_id: u128, room: Room) -> bool {
    &&& item.reader_id@ == reader.created_by@
    &&& item.stream_id == stream_id
    &&& item.receive_video == receives_video(room, reader.created_by@)
    &&& item.receive_audio
}

/// The account part of an agent id: what follows its first dot.
pub open spec fn account_part(agent: Seq<u8>) -> Seq<u8>
    decreases agent.len(),
{
    if agent.len() == 0 {
        agent
    } else if agent[0] == 46u8 {
        agent.drop_first()
    } else {
        account_part(agent.drop_first())
    }
}

pub open spec fn agent_bytes(s: String) -> Seq<u8> {
    encode_utf8(s@)
}

pub open spec fn of_account(rtc: Rtc, account: String) -> bool {
    account_part(agent_bytes(rtc.created_by)) == agent_bytes(account)
}

/// A video stream goes to everybody in a room without a host, and only to
/// the host in a room with one.
pub open spec fn receives_video(room: Room, reader: Seq<char>) -> bool {
    match room.host {
        Some(h) => h@ == reader,
        None => true,
    }
}

proof fn lemma_account_part_suffix(agent: Seq<u8>, i: int)
    requires
        0 <= i <= agent.len(),
        forall|j: int| 0 <= j < i ==> agent[j] != 46u8,
    ensures
        account_part(agent) == account_part(agent.subrange(i, agent.len() as int)),
    decreases i,
{
    if i > 0 {
        assert(agent[0] != 46u8);
        assert(account_part(agent) == account_part(agent.drop_first()));
        assert forall|j: int| 0 <= j < i - 1 implies agent.drop_first()[j] != 46u8 by {
            assert(agent.drop_first()[j] == agent[j + 1]);
        }
        lemma_account_part_suffix(agent.drop_first(), i - 1);
        assert(agent.drop_first().subrange(i - 1, agent.len() - 1) =~= agent.subrange(i, agent.len() as int));
    } else {
        assert(agent.subrange(0, agent.len() as int) =~= agent);
    }
}

fn is_of_account(agent: &String, account: &String) -> (r: bool)
    ensures
        r == (account_part(encode_utf8(agent@)) == encode_utf8(account@)),
{
    let a = agent.as_str().as_bytes();
    let b = account.as_str().as_bytes();
    let n = a.len();
    let ghost s = a@;
    let mut i: usize = 0;
    while i < a.len() && a[i] != 46u8
        invariant
            s == a@,
            i <= a@.len(),
            forall|j: int| 0 <= j < i ==> a@[j] != 46u8,
        decreases a@.len() - i,
    {
        i = i + 1;
    }
    proof {
        lemma_account_part_suffix(s, i as int);
        if i < s.len() {
            let t = s.subrange(i as int, s.len() as int);
            assert(t[0] == 46u8);
            assert(t.drop_first() =~= s.subrange(i + 1, s.len() as int));
            assert(account_part(s) == s.subrange(i + 1, s.len() as int));
        } else {
            assert(s.subrange(i as int, s.len() as int) =~= Seq::<u8>::empty());
        }
    }
    if i == a.len() {
        return b.len() == 0;
    }
    let start = i + 1;
    if a.len() - start != b.len() {
        return false;
    }
    let mut k: usize = 0;
    while k < b.len()
        invariant
            s == a@,
            s == encode_utf8(agent@),
            b@ == encode_utf8(account@),
            n == a@.len(),
            start + b@.len() == a@.len(),
            account_part(s) == s.subrange(start as int, s.len() as int),
            k <= b@.len(),
            forall|j: int| 0 <= j < k ==> a@[start + j] == b@[j],
        decreases b@.len() - k,
    {
        if a[start + k] != b[k] {
            proof {
                assert(account_part(s)[k as int] != b@[k as int]);
                assert(account_part(s) != b@);
            }
            return false;
        }
        k = k + 1;
    }
    proof {
        assert(s.subrange(start as int, s.len() as int) =~= b@);
    }
    true
}

/// The reader configuration of a stream for every rtc of a room: the stream
/// is the one of the first rtc of the target account, audio always goes to
/// every reader, and video as `receives_video` says.
pub fn reader_configs(room: &Room, rtcs: &Vec<Rtc>, target_account: &String) -> (r: Result<
    Vec<ReaderConfigItem>,
    RoomError,
>)
    ensures
        match r {
            Err(e) => e == RoomError::AgentNotConnected && forall|i: int|
                0 <= i < rtcs@.len() ==> !of_account(#[trigger] rtcs@[i], *target_account),
            Ok(items) => exists|t: int|
                0 <= t < rtcs@.len() && of_account(rtcs@[t], *target_account) && (forall|i: int|
                    0 <= i < t ==> !of_account(#[trigger] rtcs@[i], *target_account)) && items@.len()
                    == rtcs@.len() && forall|k: int|
                    0 <= k < items@.len() ==> item_ok(#[trigger] items@[k], rtcs@[k], rtcs@[t].id, *room),
        },
{
    let mut t: usize = 0;
    while t < rtcs.len() && !is_of_account(&rtcs[t].created_by, target_account)
        invariant
            t <= rtcs@.len(),
            forall|i: int| 0 <= i < t ==> !of_account(#[trigger] rtcs@[i], *target_account),
        decreases rtcs@.len() - t,
    {
        t = t + 1;
    }
    if t == rtcs.len() {
        return Err(RoomError::AgentNotConnected);
    }
    let stream_id = rtcs[t].id;
    let mut items: Vec<ReaderConfigItem> = Vec::new();
    let mut k: usize = 0;
    while k < rtcs.len()
        invariant
            k <= rtcs@.len(),
            t < rtcs@.len(),
            stream_id == rtcs@[t as int].id,
            items@.len() == k,
            forall|j: int| 0 <= j < k ==> item_ok(#[trigger] items@[j], rtcs@[j], stream_id, *room),
        decreases rtcs@.len() - k,
    {
        let reader = &rtcs[k].created_by;
        let receive_video = match &room.host {
            Some(h) => *h == *reader,
            None => true,
        };
        let item = ReaderConfigItem { reader_id: reader.clone(), stream_id, receive_video, receive_audio: true };
        let ghost before = items@;
        items.push(item);
        proof {
            assert(items@ == before.push(item));
            assert(item_ok(item, rtcs@[k as int], stream_id, *room));
        }
        k = k + 1;
    }
    Ok(items)
}

/// What the reader configuration of a room comes to: the room must exist,
/// and the stream is the one of the first rtc of the target account.
pub open spec fn room_configs_outcome(
    v: StoreView,
    room_id: u128,
    target_account: String,
    r: Result<Vec<ReaderConfigItem>, RoomError>,
) -> bool {
    match last_match(v.rooms, room_with_id(room_id)) {
        None => r == Err::<Vec<ReaderConfigItem>, RoomError>(RoomError::RoomNotFound),
        Some(j) => {
            let rtcs = v.rtcs.filter(in_room(room_id));
            match r {
                Err(e) => e == RoomError::AgentNotConnected && forall|i: int|
                    0 <= i < rtcs.len() ==> !of_account(#[trigger] rtcs[i], target_account),
                Ok(items) => exists|t: int|
                    0 <= t < rtcs.len() && of_account(rtcs[t], target_account) && (forall|i: int|
                        0 <= i < t ==> !of_account(#[trigger] rtcs[i], target_account)) && items@.len()
                        == rtcs.len() && forall|k: int|
                        0 <= k < items@.len() ==> item_ok(#[trigger] items@[k], rtcs[k], rtcs[t].id, v.rooms[j]),
            }
        },
    }
}

/// The reader configuration update of a room, addressed to the control
/// handle of a backend session.
pub struct ReaderUpdateRequest {
    pub backend_id: String,
    pub session_id: SessionId,
    pub handle_id: HandleId,
    pub configs: Vec<ReaderConfigItem>,
}

impl Store {
    /// Builds the reader configuration update of a room for a backend: the
    /// backend must be registered, and the configuration is the room's.
    pub fn reader_update_request(&self, backend_id: &String, room_id: u128, target_account: &String) -> (r:
        Result<ReaderUpdateRequest, RoomError>)
        ensures
            match last_match(self@.backends, backend_with_id(backend_id@)) {
                None => r == Err::<ReaderUpdateRequest, RoomError>(RoomError::BackendNotFound),
                Some(k) => match r {
                    Ok(q) => q.backend_id@ == backend_id@ && q.session_id == self@.backends[k].session_id
                        && q.handle_id == self@.backends[k].handle_id && room_configs_outcome(
                        self@,
                        room_id,
                        *target_account,
                        Ok(q.configs),
                    ),
                    Err(e) => room_configs_outcome(self@, room_id, *target_account, Err(e)),
                },
            },
    {
        proof {
            lemma_last_match_facts(self@.backends, backend_with_id(backend_id@));
        }
        let k = match find_backend(self.backends(), backend_id) {
            Some(k) => k,
            None => return Err(RoomError::BackendNotFound),
        };
        match self.room_reader_configs(room_id, target_account) {
            Ok(configs) => Ok(
                ReaderUpdateRequest {
                    backend_id: backend_id.clone(),
                    session_id: self.backends()[k].session_id,
                    handle_id: self.backends()[k].handle_id,
                    configs,
                },
            ),
            Err(e) => Err(e),
        }
    }
}

/// The rtcs of a room, in order.
fn rtcs_of_room(rtcs: &Vec<Rtc>, room_id: u128) -> (r: Vec<Rtc>)
    ensures
        r@ == rtcs@.filter(in_room(room_id)),
{
    let ghost p = in_room(room_id);
    let mut out: Vec<Rtc> = Vec::new();
    let mut i: usize = 0;
    while i < rtcs.len()
        invariant
            p == in_room(room_id),
            i <= rtcs@.len(),
            out@ == rtcs@.subrange(0, i as int).filter(p),
        decreases rtcs@.len() - i,
    {
        proof {
            assert(rtcs@.subrange(0, i + 1) =~= rtcs@.subrange(0, i as int).push(rtcs@[i as int]));
            rtcs@.subrange(0, i as int).lemma_filter_push(rtcs@[i as int], p);
        }
        let r = &rtcs[i];
        if r.room_id == room_id {
            out.push(Rtc { id: r.id, room_id: r.room_id, created_by: r.created_by.clone() });
        }
        i = i + 1;
    }
    proof {
        assert(rtcs@.subrange(0, rtcs@.len() as int) =~= rtcs@);
    }
    out
}

impl Store {
    /// The reader configuration of the stream of the target account for
    /// every rtc of a room.
    pub fn room_reader_configs(&self, room_id: u128, target_account: &String) -> (r: Result<
        Vec<ReaderConfigItem>,
        RoomError,
    >)
        ensures
            room_configs_outcome(self@, room_id, *target_account, r),
    {
        proof {
            lemma_last_match_facts(self@.rooms, room_with_id(room_id));
        }
        let j = match find_room(self.rooms(), room_id) {
            Some(j) => j,
            None => return Err(RoomError::RoomNotFound),
        };
        let rtcs = rtcs_of_room(self.rtcs(), room_id);
        reader_configs(&self.rooms()[j], &rtcs, target_account)
    }
}

} // verus!

