//! Recording uploads: where a recording is stored, how an upload response
//! from a backend changes the recording, and the `room.upload` event that
//! goes out once every rtc of a room has a final recording.
use vstd::prelude::*;
use crate::codec::{be_bytes, hex_of};
use crate::store::{
    find_last, find_recording, find_room, last_match, lemma_last_match_facts, recording_of_rtc,
    room_of_rtc, room_with_id, rtc_room, updated_recording, Recording, RecordingStatus, Room,
    Rtc, SharingPolicy, Store, StoreView,
};

verus! {

/// The lowercase hexadecimal digits of the 16 big-endian bytes of a UUID.
pub open spec fn uuid_hex(v: u128) -> Seq<char> {
    hex_of(be_bytes(v as nat, 16)).map_values(|b: u8| b as char)
}

/// The hyphenated text of a UUID held as a number: its hexadecimal digits
/// grouped 8-4-4-4-12.
pub open spec fn uuid_text(v: u128) -> Seq<char> {
    let h = uuid_hex(v);
    h.subrange(0, 8) + "-"@ + h.subrange(8, 12) + "-"@ + h.subrange(12, 16) + "-"@ + h.subrange(16, 20) + "-"@
        + h.subrange(20, 32)
}

/// Relies on uuid::Uuid::from_u128 and the Display of its hyphenated form:
/// the value's bytes, most significant first, as lowercase hexadecimal
/// digits in groups of 8, 4, 4, 4 and 12 joined by hyphens.
#[verifier::external_body]
fn uuid_string(v: u128) -> (r: String)
    ensures
        r@ == uuid_text(v),
{
    uuid::Uuid::from_u128(v).hyphenated().to_string()
}

/// Where uploads of one kind of room go.
pub struct UploadConfig {
    pub bucket: String,
    pub backend: String,
}

/// Upload targets by audience, for shared and for owned rooms. When an
/// audience appears more than once, its last entry counts.
pub struct UploadConfigs {
    pub shared: Vec<(String, UploadConfig)>,
    pub owned: Vec<(String, UploadConfig)>,
}

#[derive(Clone, Copy, Debug, PartialEq, Eq, Structural)]
pub enum UploadError {
    /// Rooms that share nothing are not uploaded.
    NotImplemented,
    ConfigKeyMissing,
    RecordingNotFound,
    RoomNotFound,
    /// Some rtc of the room has no final recording yet.
    NotFinished,
}

/// What a backend answers to an upload request.
pub enum UploadResponse {
    Missing { id: u128 },
    AlreadyRunning { id: u128 },
    Done {
        id: u128,
        segments: Vec<(i64, i64)>,
        started_at: i64,
        mjr_dumps_uris: Option<Vec<String>>,
    },
}

/// The request that asks a backend to upload the recording of an rtc.
pub struct UploadStreamRequest {
    pub id: u128,
    pub backend: String,
    pub bucket: String,
}

pub struct RtcUploadEventData {
    pub id: u128,
    pub status: RecordingStatus,
    pub uri: Option<String>,
    pub created_by: String,
    pub mjr_dumps_uris: Option<Vec<String>>,
}

pub struct RoomUploadEventData {
    pub id: u128,
    pub rtcs: Vec<RtcUploadEventData>,
}

pub struct EntryView {
    pub id: u128,
    pub status: RecordingStatus,
    pub uri: Option<Seq<char>>,
    pub created_by: Seq<char>,
    pub mjr_dumps_uris: Option<Seq<String>>,
}

pub open spec fn opt_texts_view(o: Option<Vec<String>>) -> Option<Seq<String>> {
    match o {
        Some(v) => Some(v@),
        None => None,
    }
}

impl View for RtcUploadEventData {
    type V = EntryView;

    open spec fn view(&self) -> EntryView {
        EntryView {
            id: self.id,
            status: self.status,
            uri: match self.uri {
                Some(u) => Some(u@),
                None => None,
            },
            created_by: self.created_by@,
            mjr_dumps_uris: opt_texts_view(self.mjr_dumps_uris),
        }
    }
}

pub open spec fn entry_views(s: Seq<RtcUploadEventData>) -> Seq<EntryView> {
    s.map_values(|e: RtcUploadEventData| e@)
}

impl View for RoomUploadEventData {
    type V = (u128, Seq<EntryView>);

    open spec fn view(&self) -> (u128, Seq<EntryView>) {
        (self.id, entry_views(self.rtcs@))
    }
}

// ---------------------------------------------------------------------------
// Storage names

/// The object name of a recording: the classroom id and a slash when there
/// is one, then the rtc id, then a fixed suffix.
pub open spec fn record_path_spec(classroom: Option<Seq<char>>, rtc: Seq<char>) -> Seq<char> {
    match classroom {
        Some(c) => c + "/"@ + rtc + ".source.webm"@,
        None => rtc + ".source.webm"@,
    }
}

/// Owned rooms with a classroom keep their recordings under the classroom.
pub open spec fn record_prefix(room: Room) -> Option<Seq<char>> {
    match (room.sharing_policy, room.classroom_id) {
        (SharingPolicy::Owned, Some(c)) => Some(uuid_text(c)),
        _ => None,
    }
}

pub open spec fn record_name_spec(room: Room, rtc_id: u128) -> Seq<char> {
    record_path_spec(record_prefix(room), uuid_text(rtc_id))
}

pub open spec fn storage_uri(bucket: Seq<char>, room: Room, rtc_id: u128) -> Seq<char> {
    "s3://"@ + bucket + "/"@ + record_name_spec(room, rtc_id)
}

/// The object name of a recording from the texts of the ids.
pub fn record_path(classroom: Option<&String>, rtc: &String) -> (r: String)
    ensures
        r@ == record_path_spec(
            match classroom {
                Some(c) => Some(c@),
                None => None,
            },
            rtc@,
        ),
{
    let name = match classroom {
        Some(c) => c.clone().concat("/").concat(rtc.as_str()),
        None => rtc.clone(),
    };
    let r = name.concat(".source.webm");
    proof {
        reveal_strlit("/");
        reveal_strlit(".source.webm");
        assert(r@ =~= record_path_spec(
            match classroom {
                Some(c) => Some(c@),
                None => None,
            },
            rtc@,
        ));
    }
    r
}

/// The object name of the recording of an rtc of a room.
pub fn record_name(recording: &Recording, room: &Room) -> (r: String)
    ensures
        r@ == record_name_spec(*room, recording.rtc_id),
{
    let rtc = uuid_string(recording.rtc_id);
    match (room.sharing_policy, room.classroom_id) {
        (SharingPolicy::Owned, Some(c)) => {
            let classroom = uuid_string(c);
            record_path(Some(&classroom), &rtc)
        },
        _ => record_path(None, &rtc),
    }
}

fn storage_uri_exec(bucket: &String, recording: &Recording, room: &Room) -> (r: String)
    ensures
        r@ == storage_uri(bucket@, *room, recording.rtc_id),
{
    let name = record_name(recording, room);
    let r = String::from_str("s3://").concat(bucket.as_str()).concat("/").concat(name.as_str());
    proof {
        reveal_strlit("s3://");
        reveal_strlit("/");
        assert(r@ =~= storage_uri(bucket@, *room, recording.rtc_id));
    }
    r
}

// ---------------------------------------------------------------------------
// Upload targets

pub open spec fn audience_is(audience: Seq<char>) -> spec_fn((String, UploadConfig)) -> bool {
    |e: (String, UploadConfig)| e.0@ == audience
}

pub open spec fn lookup_config(s: Seq<(String, UploadConfig)>, audience: Seq<char>) -> Result<
    UploadConfig,
    UploadError,
> {
    match last_match(s, audience_is(audience)) {
        Some(i) => Ok(s[i].1),
        None => Err(UploadError::ConfigKeyMissing),
    }
}

/// The upload target of a room: by its sharing policy, then its audience.
pub open spec fn config_spec(configs: UploadConfigs, room: Room) -> Result<UploadConfig, UploadError> {
    match room.sharing_policy {
        SharingPolicy::NotShared => Err(UploadError::NotImplemented),
        SharingPolicy::Shared => lookup_config(configs.shared@, room.audience@),
        SharingPolicy::Owned => lookup_config(configs.owned@, room.audience@),
    }
}

fn lookup_config_exec<'a>(s: &'a Vec<(String, UploadConfig)>, audience: &String) -> (r: Result<
    &'a UploadConfig,
    UploadError,
>)
    ensures
        match lookup_config(s@, audience@) {
            Ok(c) => r matches Ok(x) && *x == c,
            Err(e) => r == Err::<&UploadConfig, UploadError>(e),
        },
{
    let found = find_last(
        s,
        |e: &(String, UploadConfig)| -> (b: bool) ensures b == (e.0@ == audience@) { e.0 == *audience },
        Ghost(audience_is(audience@)),
    );
    proof {
        lemma_last_match_facts(s@, audience_is(audience@));
    }
    match found {
        Some(k) => Ok(&s[k].1),
        None => Err(UploadError::ConfigKeyMissing),
    }
}

/// The upload target of a room.
pub fn upload_config<'a>(configs: &'a UploadConfigs, room: &Room) -> (r: Result<&'a UploadConfig, UploadError>)
    ensures
        match config_spec(*configs, *room) {
            Ok(c) => r matches Ok(x) && *x == c,
            Err(e) => r == Err::<&UploadConfig, UploadError>(e),
        },
{
    match room.sharing_policy {
        SharingPolicy::NotShared => Err(UploadError::NotImplemented),
        SharingPolicy::Shared => lookup_config_exec(&configs.shared, &room.audience),
        SharingPolicy::Owned => lookup_config_exec(&configs.owned, &room.audience),
    }
}

// ---------------------------------------------------------------------------
// The room.upload event

pub open spec fn in_room(room_id: u128) -> spec_fn(Rtc) -> bool {
    |r: Rtc| r.room_id == room_id
}

pub open spec fn recording_for(v: StoreView, rtc_id: u128) -> Option<Recording> {
    match last_match(v.recordings, recording_of_rtc(rtc_id)) {
        Some(i) => Some(v.recordings[i]),
        None => None,
    }
}

/// The rtc has a recording that is Ready or Missing.
pub open spec fn is_final(v: StoreView, rtc_id: u128) -> bool {
    recording_for(v, rtc_id) matches Some(r) && r.status != RecordingStatus::InProgress
}

/// Every rtc of the room has a final recording.
pub open spec fn room_done(v: StoreView, room_id: u128) -> bool {
    forall|i: int| 0 <= i < v.rtcs.len() && #[trigger] v.rtcs[i].room_id == room_id ==> is_final(v, v.rtcs[i].id)
}

pub open spec fn entry_spec(v: StoreView, room: Room, bucket: Seq<char>, rtc: Rtc) -> EntryView {
    let rec = recording_for(v, rtc.id)->Some_0;
    EntryView {
        id: rtc.id,
        status: rec.status,
        uri: if rec.status == RecordingStatus::Ready {
            Some(storage_uri(bucket, room, rtc.id))
        } else {
            None
        },
        created_by: rtc.created_by@,
        mjr_dumps_uris: opt_texts_view(rec.mjr_dumps_uris),
    }
}

pub open spec fn entry_fn(v: StoreView, room: Room, bucket: Seq<char>) -> spec_fn(Rtc) -> EntryView {
    |r: Rtc| entry_spec(v, room, bucket, r)
}

/// The event lists every rtc of the room, in the order of the rtcs.
pub open spec fn upload_event_spec(v: StoreView, room: Room, bucket: Seq<char>) -> (u128, Seq<EntryView>) {
    (room.id, v.rtcs.filter(in_room(room.id)).map_values(entry_fn(v, room, bucket)))
}

pub open spec fn upload_event_result(v: StoreView, room: Room, configs: UploadConfigs) -> Result<
    (u128, Seq<EntryView>),
    UploadError,
> {
    if !room_done(v, room.id) {
        Err(UploadError::NotFinished)
    } else if !has_ready(v, room.id) {
        Ok(upload_event_spec(v, room, Seq::empty()))
    } else {
        match config_spec(configs, room) {
            Err(e) => Err(e),
            Ok(c) => Ok(upload_event_spec(v, room, c.bucket@)),
        }
    }
}

/// Some rtc of the room has a Ready recording, so the event needs the
/// room's upload target for its URI.
pub open spec fn has_ready(v: StoreView, room_id: u128) -> bool {
    exists|i: int|
        0 <= i < v.rtcs.len() && #[trigger] v.rtcs[i].room_id == room_id && (recording_for(v, v.rtcs[i].id) matches Some(
            r,
        ) && r.status == RecordingStatus::Ready)
}

/// Whether some rtc of the room has a Ready recording.
pub fn room_has_ready(store: &Store, room_id: u128) -> (r: bool)
    ensures
        r == has_ready(store@, room_id),
{
    let ghost v = store@;
    let rtcs = store.rtcs();
    let recordings = store.recordings();
    let mut i: usize = 0;
    while i < rtcs.len()
        invariant
            v == store@,
            rtcs@ == v.rtcs,
            recordings@ == v.recordings,
            i <= v.rtcs.len(),
            forall|j: int|
                0 <= j < i && #[trigger] v.rtcs[j].room_id == room_id ==> !(recording_for(v, v.rtcs[j].id) matches Some(
                    r,
                ) && r.status == RecordingStatus::Ready),
        decreases v.rtcs.len() - i,
    {
        let rtc = &rtcs[i];
        if rtc.room_id == room_id {
            proof {
                lemma_last_match_facts(v.recordings, recording_of_rtc(rtc.id));
            }
            match find_recording(recordings, rtc.id) {
                Some(k) => {
                    if recordings[k].status == RecordingStatus::Ready {
                        proof {
                            assert(v.rtcs[i as int].room_id == room_id);
                        }
                        return true;
                    }
                },
                None => {},
            }
        }
        i = i + 1;
    }
    false
}

/// Whether every rtc of the room has a final recording.
pub fn room_is_done(store: &Store, room_id: u128) -> (r: bool)
    ensures
        r == room_done(store@, room_id),
{
    let ghost v = store@;
    let rtcs = store.rtcs();
    let recordings = store.recordings();
    let mut i: usize = 0;
    while i < rtcs.len()
        invariant
            v == store@,
            rtcs@ == v.rtcs,
            recordings@ == v.recordings,
            i <= v.rtcs.len(),
            forall|j: int| 0 <= j < i && #[trigger] v.rtcs[j].room_id == room_id ==> is_final(v, v.rtcs[j].id),
        decreases v.rtcs.len() - i,
    {
        let rtc = &rtcs[i];
        if rtc.room_id == room_id {
            proof {
                lemma_last_match_facts(v.recordings, recording_of_rtc(rtc.id));
            }
            let fin = match find_recording(recordings, rtc.id) {
                Some(k) => recordings[k].status != RecordingStatus::InProgress,
                None => false,
            };
            if !fin {
                proof {
                    assert(v.rtcs[i as int].room_id == room_id);
                    assert(!is_final(v, v.rtcs[i as int].id));
                }
                return false;
            }
        }
        i = i + 1;
    }
    true
}

fn clone_texts(v: &Vec<String>) -> (r: Vec<String>)
    ensures
        r@ == v@,
{
    let mut out: Vec<String> = Vec::new();
    let mut i: usize = 0;
    while i < v.len()
        invariant
            i <= v@.len(),
            out@ == v@.subrange(0, i as int),
        decreases v@.len() - i,
    {
        out.push(v[i].clone());
        i = i + 1;
        proof {
            assert(out@ =~= v@.subrange(0, i as int));
        }
    }
    proof {
        assert(v@.subrange(0, v@.len() as int) =~= v@);
    }
    out
}

/// The `room.upload` event of a room whose rtcs all have final recordings;
/// a Ready entry carries the storage URI of its recording.
pub fn upload_event(store: &Store, room: &Room, configs: &UploadConfigs) -> (r: Result<
    RoomUploadEventData,
    UploadError,
>)
    ensures
        match upload_event_result(store@, *room, *configs) {
            Ok(e) => r matches Ok(x) && x@ == e,
            Err(e) => r == Err::<RoomUploadEventData, UploadError>(e),
        },
{
    if !room_is_done(store, room.id) {
        return Err(UploadError::NotFinished);
    }
    let bucket_text: String = if room_has_ready(store, room.id) {
        match upload_config(configs, room) {
            Ok(c) => c.bucket.clone(),
            Err(e) => return Err(e),
        }
    } else {
        String::new()
    };
    let ghost v = store@;
    let ghost bucket = bucket_text@;
    let ghost p = in_room(room.id);
    let ghost f = entry_fn(v, *room, bucket);
    let rtcs = store.rtcs();
    let recordings = store.recordings();
    let mut out: Vec<RtcUploadEventData> = Vec::new();
    let mut i: usize = 0;
    while i < rtcs.len()
        invariant
            v == store@,
            room_done(v, room.id),
            upload_event_result(v, *room, *configs) == Ok::<(u128, Seq<EntryView>), UploadError>(
                upload_event_spec(v, *room, bucket),
            ),
            rtcs@ == v.rtcs,
            recordings@ == v.recordings,
            bucket == bucket_text@,
            p == in_room(room.id),
            f == entry_fn(v, *room, bucket),
            i <= v.rtcs.len(),
            entry_views(out@) == v.rtcs.subrange(0, i as int).filter(p).map_values(f),
            forall|j: int| 0 <= j < i && #[trigger] v.rtcs[j].room_id == room.id ==> is_final(v, v.rtcs[j].id),
        decreases v.rtcs.len() - i,
    {
        proof {
            assert(v.rtcs.subrange(0, i + 1) =~= v.rtcs.subrange(0, i as int).push(v.rtcs[i as int]));
            v.rtcs.subrange(0, i as int).lemma_filter_push(v.rtcs[i as int], p);
        }
        let rtc = &rtcs[i];
        if rtc.room_id == room.id {
            proof {
                lemma_last_match_facts(v.recordings, recording_of_rtc(rtc.id));
            }
            let k = match find_recording(recordings, rtc.id) {
                Some(k) => k,
                None => {
                    proof {
                        assert(v.rtcs[i as int].room_id == room.id);
                        assert(!is_final(v, v.rtcs[i as int].id));
                    }
                    return Err(UploadError::NotFinished);
                },
            };
            let rec = &recordings[k];
            if rec.status == RecordingStatus::InProgress {
                proof {
                    assert(v.rtcs[i as int].room_id == room.id);
                    assert(!is_final(v, v.rtcs[i as int].id));
                }
                return Err(UploadError::NotFinished);
            }
            let uri = if rec.status == RecordingStatus::Ready {
                Some(storage_uri_exec(&bucket_text, rec, room))
            } else {
                None
            };
            let dumps = match &rec.mjr_dumps_uris {
                Some(d) => Some(clone_texts(d)),
                None => None,
            };
            let entry = RtcUploadEventData {
                id: rtc.id,
                status: rec.status,
                uri,
                created_by: rtc.created_by.clone(),
                mjr_dumps_uris: dumps,
            };
            let ghost before = out@;
            out.push(entry);
            proof {
                assert(out@ == before.push(entry));
                assert(entry_views(out@) =~= entry_views(before).push(entry@));
                assert(entry@ == entry_spec(v, *room, bucket, v.rtcs[i as int]));
            }
        } else {
            proof {
                assert(entry_views(out@) == v.rtcs.subrange(0, i + 1).filter(p).map_values(f));
            }
        }
        i = i + 1;
    }
    proof {
        assert(v.rtcs.subrange(0, v.rtcs.len() as int) =~= v.rtcs);
    }
    Ok(RoomUploadEventData { id: room.id, rtcs: out })
}

// ---------------------------------------------------------------------------
// Upload responses

pub open spec fn outcome_view(r: Result<Option<RoomUploadEventData>, UploadError>) -> Result<
    Option<(u128, Seq<EntryView>)>,
    UploadError,
> {
    match r {
        Ok(Some(e)) => Ok(Some(e@)),
        Ok(None) => Ok(None),
        Err(e) => Err(e),
    }
}

/// The event owed once a recording of the rtc became final: none while
/// some rtc of its room has no final recording.
pub open spec fn done_event(w: StoreView, rtc_id: u128, configs: UploadConfigs) -> Result<
    Option<(u128, Seq<EntryView>)>,
    UploadError,
> {
    let room_id = rtc_room(w.rtcs, rtc_id)->Some_0;
    match last_match(w.rooms, room_with_id(room_id)) {
        None => Err(UploadError::RoomNotFound),
        Some(j) => match upload_event_result(w, w.rooms[j], configs) {
            Ok(e) => Ok(Some(e)),
            Err(UploadError::NotFinished) => Ok(None),
            Err(e) => Err(e),
        },
    }
}

/// How an upload response changes the recordings, and the event it owes.
/// Only a recording in progress changes: Missing marks it missing, Done
/// marks it ready with its results, and AlreadyRunning changes nothing.
/// A recording that became final may complete its room.
pub open spec fn upload_outcome(v: StoreView, resp: UploadResponse, configs: UploadConfigs) -> (
    StoreView,
    Result<Option<(u128, Seq<EntryView>)>, UploadError>,
) {
    match resp {
        UploadResponse::AlreadyRunning { .. } => (v, Ok(None)),
        UploadResponse::Missing { id } => match last_match(v.recordings, recording_of_rtc(id)) {
            None => (v, Err(UploadError::RecordingNotFound)),
            Some(i) => if v.recordings[i].status == RecordingStatus::InProgress {
                let w = StoreView {
                    recordings: v.recordings.update(
                        i,
                        updated_recording(v.recordings[i], RecordingStatus::Missing, None),
                    ),
                    ..v
                };
                (w, done_event(w, id, configs))
            } else {
                (v, Ok(None))
            },
        },
        UploadResponse::Done { id, segments, started_at, mjr_dumps_uris } => match last_match(
            v.recordings,
            recording_of_rtc(id),
        ) {
            None => (v, Err(UploadError::RecordingNotFound)),
            Some(i) => if v.recordings[i].status == RecordingStatus::InProgress {
                let w = StoreView {
                    recordings: v.recordings.update(
                        i,
                        updated_recording(
                            v.recordings[i],
                            RecordingStatus::Ready,
                            Some((started_at, segments, mjr_dumps_uris)),
                        ),
                    ),
                    ..v
                };
                (w, done_event(w, id, configs))
            } else {
                (v, Ok(None))
            },
        },
    }
}

impl Store {
    /// Applies what a backend answered to an upload request, and returns the
    /// `room.upload` event when the room of the recording is complete.
    pub fn handle_upload_response(&mut self, resp: UploadResponse, configs: &UploadConfigs) -> (r: Result<
        Option<RoomUploadEventData>,
        UploadError,
    >)
        requires
            old(self)@.wf(),
        ensures
            final(self)@.wf(),
            (final(self)@, outcome_view(r)) == upload_outcome(old(self)@, resp, *configs),
    {
        let ghost v = self@;
        let ghost resp_v = resp;
        match resp {
            UploadResponse::AlreadyRunning { .. } => Ok(None),
            UploadResponse::Missing { id } => {
                proof {
                    lemma_last_match_facts(v.recordings, recording_of_rtc(id));
                }
                match find_recording(self.recordings(), id) {
                    None => Err(UploadError::RecordingNotFound),
                    Some(i) => {
                        if self.recordings()[i].status != RecordingStatus::InProgress {
                            return Ok(None);
                        }
                        self.update_recording(i, RecordingStatus::Missing, None);
                        proof {
                            self.lemma_wf_recording_update(v, i as int);
                            assert(rtc_room(v.rtcs, v.recordings[i as int].rtc_id) is Some);
                        }
                        self.event_after_final(id, configs)
                    },
                }
            },
            UploadResponse::Done { id, segments, started_at, mjr_dumps_uris } => {
                proof {
                    lemma_last_match_facts(v.recordings, recording_of_rtc(id));
                }
                match find_recording(self.recordings(), id) {
                    None => Err(UploadError::RecordingNotFound),
                    Some(i) => {
                        if self.recordings()[i].status != RecordingStatus::InProgress {
                            return Ok(None);
                        }
                        self.update_recording(
                            i,
                            RecordingStatus::Ready,
                            Some((started_at, segments, mjr_dumps_uris)),
                        );
                        proof {
                            self.lemma_wf_recording_update(v, i as int);
                            assert(rtc_room(v.rtcs, v.recordings[i as int].rtc_id) is Some);
                        }
                        self.event_after_final(id, configs)
                    },
                }
            },
        }
    }

    fn event_after_final(&self, rtc_id: u128, configs: &UploadConfigs) -> (r: Result<
        Option<RoomUploadEventData>,
        UploadError,
    >)
        requires
            rtc_room(self@.rtcs, rtc_id) is Some,
        ensures
            outcome_view(r) == done_event(self@, rtc_id, *configs),
    {
        let room_id = room_of_rtc(self.rtcs(), rtc_id);
        proof {
            lemma_last_match_facts(self@.rooms, room_with_id(room_id));
        }
        match find_room(self.rooms(), room_id) {
            None => Err(UploadError::RoomNotFound),
            Some(j) => match upload_event(self, &self.rooms()[j], configs) {
                Ok(e) => Ok(Some(e)),
                Err(UploadError::NotFinished) => Ok(None),
                Err(e) => Err(e),
            },
        }
    }

    proof fn lemma_wf_recording_update(&self, v: StoreView, i: int)
        requires
            v.wf(),
            0 <= i < v.recordings.len(),
            self@.rtcs == v.rtcs,
            self@.rooms == v.rooms,
            self@.streams == v.streams,
            self@.orphans == v.orphans,
            self@.recordings.len() == v.recordings.len(),
            forall|k: int| 0 <= k < v.recordings.len() ==> #[trigger] self@.recordings[k].rtc_id == v.recordings[k].rtc_id,
        ensures
            self@.wf(),
    {
        let w = self@;
        assert forall|k: int| 0 <= k < w.recordings.len() implies #[trigger] rtc_room(
            w.rtcs,
            w.recordings[k].rtc_id,
        ) is Some by {
            assert(w.recordings[k].rtc_id == v.recordings[k].rtc_id);
            assert(rtc_room(v.rtcs, v.recordings[k].rtc_id) is Some);
        }
        assert forall|a: int, b: int| 0 <= a < b < w.recordings.len() implies #[trigger] w.recordings[a].rtc_id
            != #[trigger] w.recordings[b].rtc_id by {
            assert(w.recordings[a].rtc_id == v.recordings[a].rtc_id);
            assert(w.recordings[b].rtc_id == v.recordings[b].rtc_id);
        }
    }
}

// ---------------------------------------------------------------------------
// Guarantees

/// An AlreadyRunning answer changes no recording and owes no event.
pub proof fn lemma_already_running_is_noop(v: StoreView, id: u128, configs: UploadConfigs)
    ensures
        upload_outcome(v, UploadResponse::AlreadyRunning { id }, configs) == (v, Ok::<
            Option<(u128, Seq<EntryView>)>,
            UploadError,
        >(None)),
{
}

pub open spec fn response_id(resp: UploadResponse) -> u128 {
    match resp {
        UploadResponse::Missing { id } => id,
        UploadResponse::AlreadyRunning { id } => id,
        UploadResponse::Done { id, .. } => id,
    }
}

/// Once a recording is final, a later answer about it changes nothing and
/// owes no event: the event of a room goes out once, when its last
/// recording becomes final.
pub proof fn lemma_final_recording_owes_nothing(v: StoreView, resp: UploadResponse, configs: UploadConfigs)
    requires
        is_final(v, response_id(resp)),
    ensures
        upload_outcome(v, resp, configs) == (v, Ok::<Option<(u128, Seq<EntryView>)>, UploadError>(None)),
{
}

/// A finished room whose recordings are all Missing gets its event without
/// an upload target: only Ready entries carry a URI.
pub proof fn lemma_no_target_needed_without_ready(v: StoreView, room: Room, configs: UploadConfigs)
    requires
        room_done(v, room.id),
        !has_ready(v, room.id),
    ensures
        upload_event_result(v, room, configs) == Ok::<(u128, Seq<EntryView>), UploadError>(
            upload_event_spec(v, room, Seq::empty()),
        ),
{
}

/// While some rtc of a room has a recording in progress (or none), no
/// `room.upload` event is owed for the room.
pub proof fn lemma_no_event_while_unfinished(v: StoreView, room: Room, configs: UploadConfigs, i: int)
    requires
        0 <= i < v.rtcs.len(),
        v.rtcs[i].room_id == room.id,
        !is_final(v, v.rtcs[i].id),
    ensures
        upload_event_result(v, room, configs) == Err::<(u128, Seq<EntryView>), UploadError>(
            UploadError::NotFinished,
        ),
{
}

/// The `room.upload` event of a finished room has one entry per rtc of the
/// room; no entry is in progress, and an entry has a URI exactly when its
/// recording is Ready.
pub proof fn lemma_upload_event_entries(v: StoreView, room: Room, bucket: Seq<char>)
    requires
        room_done(v, room.id),
    ensures
        ({
            let e = upload_event_spec(v, room, bucket).1;
            &&& e.len() == v.rtcs.filter(in_room(room.id)).len()
            &&& forall|k: int|
                0 <= k < e.len() ==> {
                    &&& #[trigger] e[k].status != RecordingStatus::InProgress
                    &&& (e[k].uri is Some <==> e[k].status == RecordingStatus::Ready)
                }
        }),
{
    let rs = v.rtcs.filter(in_room(room.id));
    let e = upload_event_spec(v, room, bucket).1;
    assert forall|k: int| 0 <= k < e.len() implies {
        &&& #[trigger] e[k].status != RecordingStatus::InProgress
        &&& (e[k].uri is Some <==> e[k].status == RecordingStatus::Ready)
    } by {
        let r = rs[k];
        v.rtcs.lemma_filter_pred(in_room(room.id), k);
        assert(rs.contains(r));
        v.rtcs.lemma_filter_contains_rev(in_room(room.id), r);
        let j = choose|j: int| 0 <= j < v.rtcs.len() && v.rtcs[j] == r;
        assert(v.rtcs[j].room_id == room.id);
        assert(is_final(v, v.rtcs[j].id));
    }
}

} // verus!



