//! The service for application servers: what each call does, and how failures are reported.

use crate::collections::{ascending, ascending_texts, texts};
use crate::commands::{CommandResponse, Commands, DataUpdate, UpdateView};
use crate::kernel::{
    after_command, answers, can_handle, if_room, is_stub, leads_to, optional_persist,
    optional_update, persist_of, turned_down, update_of, updates_view, with_bucket, with_label, without_room, Outcome, PersistRequest,
    PersistView, SyncpondKernel,
};
use crate::kernel_state::{
    count_fragments, error_text, granted, has_label, AppView, RoomView, StateError,
};
use crate::loading::{can_load, StoredRoom};
use crate::persistence::RecordView;
use crate::state::label_ok;
use crate::text::{decimal, push_decimal, same, trim};
use crate::tokens::{bucket_claims, clock_gave, issue_time, saturating_sum};
use vstd::prelude::*;
use vstd::string::*;

verus! {

// ---------------------------------------------------------------------------
// Failures
// ---------------------------------------------------------------------------

/// The kinds of failure that a call can report.
#[derive(Debug, Clone, Copy, PartialEq, Eq, Structural)]
pub enum StatusCode {
    NotFound,
    FailedPrecondition,
    InvalidArgument,
    Internal,
    Unauthenticated,
}

/// A failure of a call.
#[derive(Debug)]
pub struct Status {
    pub code: StatusCode,
    pub message: String,
}

/// The kind of failure that an error of a room stands for.
pub open spec fn room_error_code(e: Seq<char>) -> StatusCode {
    if e == "room_not_loaded"@ {
        StatusCode::FailedPrecondition
    } else if e == "room_not_found"@ {
        StatusCode::NotFound
    } else {
        StatusCode::Internal
    }
}

/// The failure to report for an error of a room.
pub fn map_room_error(e: &str) -> (r: Status)
    ensures
        r.code == room_error_code(e@),
        r.message@ == e@,
{
    let code: StatusCode = if same(e, "room_not_loaded") {
        StatusCode::FailedPrecondition
    } else if same(e, "room_not_found") {
        StatusCode::NotFound
    } else {
        StatusCode::Internal
    };
    Status { code, message: e.to_string() }
}

/// The kind of failure that an error in issuing a token stands for.
pub open spec fn token_error_code(e: Seq<char>) -> StatusCode {
    if e == "room_not_found"@ {
        StatusCode::NotFound
    } else if e == "reserved_bucket_id"@ || e == "invalid_member"@ {
        StatusCode::InvalidArgument
    } else if e == "jwt_key_not_configured"@ || e == "jwt_key_too_short"@ || e
        == "jwt_issuer_audience_not_configured"@ {
        StatusCode::FailedPrecondition
    } else {
        StatusCode::Internal
    }
}

/// The failure to report for an error in issuing a token.
pub fn map_token_error(e: &str) -> (r: Status)
    ensures
        r.code == token_error_code(e@),
        r.message@ == e@,
{
    let code: StatusCode = if same(e, "room_not_found") {
        StatusCode::NotFound
    } else if same(e, "reserved_bucket_id") || same(e, "invalid_member") {
        StatusCode::InvalidArgument
    } else if same(e, "jwt_key_not_configured") || same(e, "jwt_key_too_short") || same(
        e,
        "jwt_issuer_audience_not_configured",
    ) {
        StatusCode::FailedPrecondition
    } else {
        StatusCode::Internal
    };
    Status { code, message: e.to_string() }
}

/// The failure to report where a room could not be deleted or unloaded.
pub fn not_found(e: &str) -> (r: Status)
    ensures
        r.code == StatusCode::NotFound,
        r.message@ == e@,
{
    Status { code: StatusCode::NotFound, message: e.to_string() }
}

/// The failure to report where a room could not be loaded.
pub fn failed_precondition(e: &str) -> (r: Status)
    ensures
        r.code == StatusCode::FailedPrecondition,
        r.message@ == e@,
{
    Status { code: StatusCode::FailedPrecondition, message: e.to_string() }
}

// ---------------------------------------------------------------------------
// The key of the callers
// ---------------------------------------------------------------------------

/// `subtle::ConstantTimeEq::ct_eq` on bytes: whether two rows of bytes are the same.
#[verifier::external_body]
fn same_bytes(a: &[u8], b: &[u8]) -> (r: bool)
    ensures
        r == (a@ == b@),
{
    bool::from(subtle::ConstantTimeEq::ct_eq(a, b))
}

/// Lets a caller in who gives the configured key.
pub fn check_api_key(configured: Option<&str>, given: Option<&str>) -> (r: Result<(), Status>)
    ensures
        match (configured, given) {
            (Some(key), Some(text)) => if text@ == key@ {
                r is Ok
            } else {
                r matches Err(e) && e.code == StatusCode::Unauthenticated && e.message@
                    == "invalid api key"@
            },
            _ => r matches Err(e) && e.code == StatusCode::Unauthenticated && e.message@
                == "no api key provided"@,
        },
{
    if let (Some(key), Some(text)) = (configured, given) {
        proof {
            vstd::utf8::encode_utf8_decode_utf8(key@);
            vstd::utf8::encode_utf8_decode_utf8(text@);
        }
        if same_bytes(text.as_bytes(), key.as_bytes()) {
            Ok(())
        } else {
            Err(
                Status {
                    code: StatusCode::Unauthenticated,
                    message: "invalid api key".to_string(),
                },
            )
        }
    } else {
        Err(
            Status {
                code: StatusCode::Unauthenticated,
                message: "no api key provided".to_string(),
            },
        )
    }
}

// ---------------------------------------------------------------------------
// Calls
// ---------------------------------------------------------------------------

/// What serves the calls.
pub trait CommandHandler {
    fn new_room(&mut self, name: String) -> u64;

    fn list_rooms(&self) -> Vec<String>;

    fn delete_room(&mut self, room_id: u64) -> Result<(), String>;

    fn issue_jwt(&mut self, room_id: u64, sub: String, buckets: Vec<u64>) -> Result<String, String>;

    fn new_bucket(&mut self, room_id: u64, bucket_id: u64, label: String) -> Result<(), String>;

    fn delete_bucket(&mut self, room_id: u64, bucket_id: u64) -> Result<(), String>;

    fn new_member(&mut self, room_id: u64, member: String) -> Result<(), String>;

    fn delete_member(&mut self, room_id: u64, member: String) -> Result<(), String>;

    fn list_members(&self, room_id: u64) -> Vec<String>;

    fn list_buckets(&self, room_id: u64) -> Vec<String>;

    fn read_fragment(&mut self, room_id: u64, bucket_id: u64, key: String) -> Result<
        Option<Vec<u8>>,
        String,
    >;

    fn write_fragment(&mut self, room_id: u64, bucket_id: u64, key: String, data: Vec<u8>) -> Result<
        (),
        String,
    >;

    fn load_room(&mut self, room_id: u64, stored: StoredRoom) -> Result<(), String>;

    fn unload_room(&mut self, room_id: u64) -> Result<(), String>;
}

/// The service: the kernel as it serves calls. What subscribers are to be told and what is
/// to be kept on disk waits in queues.
pub struct CommandServer {
    pub kernel: SyncpondKernel,
    pub updates: Vec<DataUpdate>,
    pub requests: Vec<PersistRequest>,
}

pub ghost struct ServerView {
    pub state: AppView,
    pub updates: Seq<UpdateView>,
    pub requests: Seq<PersistView>,
}

/// The models of a row of requests.
pub open spec fn requests_view(v: Seq<PersistRequest>) -> Seq<PersistView> {
    v.map_values(|p: PersistRequest| p@)
}

impl View for CommandServer {
    type V = ServerView;

    open spec fn view(&self) -> ServerView {
        ServerView {
            state: self.kernel.state@,
            updates: updates_view(self.updates@),
            requests: requests_view(self.requests@),
        }
    }
}

/// A row with one more at its end, if there is one more.
pub open spec fn appended<T>(row: Seq<T>, more: Option<T>) -> Seq<T> {
    match more {
        Some(x) => row.push(x),
        None => row,
    }
}

/// The service after its kernel has carried out a command, unless that loads a room.
pub open spec fn carried_out(before: ServerView, cmd: Commands) -> ServerView {
    let state = after_command(before.state, cmd);
    ServerView {
        state,
        updates: appended(before.updates, update_of(state, cmd)),
        requests: appended(before.requests, persist_of(before.state, cmd)),
    }
}

/// Whether a result tells what became of a command: it was carried out, or turned down because
/// the room is not in memory.
pub open spec fn reports(s: AppView, cmd: Commands, r: Result<(), String>) -> bool {
    if turned_down(s, cmd) {
        r matches Err(e) && e@ == "room_not_loaded"@
    } else {
        r is Ok
    }
}

/// An identifier and a label in one line.
pub open spec fn id_line(id: u64, label: Seq<char>) -> Seq<char> {
    decimal(id as nat) + ":"@ + label
}

fn line_of(id: u64, label: &str) -> (r: String)
    ensures
        r@ == id_line(id, label@),
{
    let mut out: String = String::new();
    push_decimal(&mut out, id);
    out.append(":");
    out.append(label);
    assert(out@ =~= id_line(id, label@));
    out
}

/// Whether a row holds the identifiers of a set, each once and in ascending order.
pub open spec fn lists_ids(ids: Seq<u64>, set: Set<u64>) -> bool {
    ascending(ids) && ids.to_set() == set
}

/// Whether a line tells of a room: its identifier and a label of it, or no label where it
/// has none.
pub open spec fn tells_room(line: Seq<char>, id: u64, labels: Map<Seq<char>, u64>) -> bool {
    ||| exists|label: Seq<char>| #[trigger]
        labels.contains_key(label) && labels[label] == id && line == id_line(id, label)
    ||| {
        &&& forall|label: Seq<char>| #[trigger]
            labels.contains_key(label) ==> labels[label] != id
        &&& line == id_line(id, Seq::empty())
    }
}

/// Whether lines tell of all rooms.
pub open spec fn tells_rooms(lines: Seq<Seq<char>>, s: AppView) -> bool {
    exists|ids: Seq<u64>|
        {
            &&& #[trigger] lists_ids(ids, s.rooms.dom())
            &&& lines.len() == ids.len()
            &&& forall|i: int|
                0 <= i < ids.len() ==> tells_room(#[trigger] lines[i], ids[i], s.labels)
        }
}

/// The label of a bucket; empty where it has none.
pub open spec fn bucket_label(room: RoomView, bucket_id: u64) -> Seq<char> {
    if room.bucket_labels.contains_key(bucket_id) {
        room.bucket_labels[bucket_id]
    } else {
        Seq::empty()
    }
}

/// Whether lines tell of all buckets of a room.
pub open spec fn tells_room_buckets(lines: Seq<Seq<char>>, room: RoomView) -> bool {
    exists|ids: Seq<u64>|
        {
            &&& #[trigger] lists_ids(ids, room.buckets.dom())
            &&& lines.len() == ids.len()
            &&& forall|i: int|
                0 <= i < ids.len() ==> #[trigger] lines[i] == id_line(
                    ids[i],
                    bucket_label(room, ids[i]),
                )
        }
}

impl CommandServer {
    pub fn new(kernel: SyncpondKernel) -> (r: CommandServer)
        ensures
            r@ == (ServerView {
                state: kernel.state@,
                updates: Seq::empty(),
                requests: Seq::empty(),
            }),
    {
        let r = CommandServer { kernel, updates: Vec::new(), requests: Vec::new() };
        assert(r@.updates =~= Seq::empty());
        assert(r@.requests =~= Seq::empty());
        r
    }

    /// Hands out what subscribers are to be told.
    pub fn take_updates(&mut self) -> (r: Vec<DataUpdate>)
        ensures
            updates_view(r@) == old(self)@.updates,
            final(self)@ == (ServerView { updates: Seq::empty(), ..old(self)@ }),
    {
        let mut out: Vec<DataUpdate> = Vec::new();
        std::mem::swap(&mut out, &mut self.updates);
        assert(self@.updates =~= Seq::empty());
        out
    }

    /// Hands out what is to be kept on disk.
    pub fn take_requests(&mut self) -> (r: Vec<PersistRequest>)
        ensures
            requests_view(r@) == old(self)@.requests,
            final(self)@ == (ServerView { requests: Seq::empty(), ..old(self)@ }),
    {
        let mut out: Vec<PersistRequest> = Vec::new();
        std::mem::swap(&mut out, &mut self.requests);
        assert(self@.requests =~= Seq::empty());
        out
    }

    /// Hands back the kernel.
    pub fn into_inner(self) -> (r: SyncpondKernel)
        ensures
            r == self.kernel,
    {
        self.kernel
    }

    /// Has the kernel carry out a command.
    pub fn handle_command(&mut self, cmd: Commands) -> (r: CommandResponse)
        requires
            can_handle(old(self)@.state, cmd),
        ensures
            leads_to(old(self)@.state, cmd, final(self)@.state),
            cmd is LoadRoom ==> final(self)@.updates == old(self)@.updates,
            cmd is LoadRoom ==> final(self)@.requests == old(self)@.requests,
            !(cmd is LoadRoom) ==> final(self)@ == carried_out(old(self)@, cmd),
            answers(old(self)@.state, cmd, r),
    {
        let outcome: Outcome = self.kernel.handle_command(cmd);
        let ghost updates = updates_view(self.updates@);
        let ghost requests = requests_view(self.requests@);
        if let Some(update) = outcome.update {
            self.updates.push(update);
        }
        if let Some(request) = outcome.persist {
            self.requests.push(request);
        }
        assert(self@.updates =~= appended(updates, optional_update(outcome.update)));
        assert(self@.requests =~= appended(requests, optional_persist(outcome.persist)));
        outcome.response
    }
}

/// Why a room cannot have a label.
pub open spec fn label_refusal(s: AppView, room_id: u64, label: Seq<char>) -> Option<StateError> {
    let trimmed = trim(label);
    if !label_ok(trimmed) {
        Some(StateError::LabelInvalid)
    } else if !s.rooms.contains_key(room_id) {
        Some(StateError::RoomNotFound)
    } else if s.labels.contains_key(trimmed) && s.labels[trimmed] != room_id {
        Some(StateError::LabelInUse)
    } else {
        None
    }
}

/// Why a bucket cannot have a label.
pub open spec fn bucket_label_refusal(
    s: AppView,
    room_id: u64,
    bucket_id: u64,
    label: Seq<char>,
) -> Option<StateError> {
    if !label_ok(trim(label)) {
        Some(StateError::LabelInvalid)
    } else {
        s.bucket_refusal(room_id, bucket_id)
    }
}

impl CommandServer {
    /// Makes a bucket without a label.
    pub fn create_bucket(&mut self, room_id: u64, bucket_id: u64) -> (r: Result<(), String>)
        ensures
            if is_stub(old(self)@.state, room_id) {
                final(self)@ == old(self)@ && (r matches Err(e) && e@ == "room_not_loaded"@)
            } else {
                &&& r is Ok
                &&& final(self)@ == (ServerView {
                    state: if_room(
                        old(self)@.state,
                        room_id,
                        with_bucket(old(self)@.state.rooms[room_id], bucket_id, Seq::empty()),
                    ),
                    requests: appended(
                        old(self)@.requests,
                        if old(self)@.state.rooms.contains_key(room_id) {
                            Some(
                                PersistView::SaveBucket {
                                    room_id,
                                    record: RecordView { id: bucket_id, label: None, flags: 0 },
                                },
                            )
                        } else {
                            None
                        },
                    ),
                    ..old(self)@
                })
            },
    {
        let label: String = String::new();
        assert(label@ =~= Seq::empty());
        assert(trim(label@) =~= Seq::empty());
        match self.handle_command(Commands::NewBucket(room_id, bucket_id, label)) {
            CommandResponse::NewBucketResponse => Ok(()),
            CommandResponse::LoadRoomResponse(Err(e)) => Err(e),
            _ => Err("create_bucket_failed".to_string()),
        }
    }

    /// Gives a label to a room.
    pub fn set_room_label(&mut self, room_id: u64, label: String) -> (r: Result<(), String>)
        ensures
            final(self)@ == (ServerView {
                state: with_label(old(self)@.state, room_id, label@),
                ..old(self)@
            }),
            match (label_refusal(old(self)@.state, room_id, label@), r) {
                (Some(e), Err(text)) => text@ == error_text(e),
                (None, Ok(_)) => true,
                _ => false,
            },
    {
        match self.kernel.state.set_room_label(room_id, label) {
            Ok(_) => Ok(()),
            Err(e) => Err(e.to_text()),
        }
    }

    /// A label of a room.
    pub fn get_room_label(&self, room_id: u64) -> (r: Option<String>)
        ensures
            match r {
                Some(label) => self@.state.labels.contains_key(label@)
                    && self@.state.labels[label@] == room_id,
                None => !has_label(self@.state.labels, room_id),
            },
    {
        self.kernel.state.get_room_label(room_id)
    }

    /// Gives a label to a bucket.
    pub fn set_bucket_label(&mut self, room_id: u64, bucket_id: u64, label: String) -> (r: Result<
        (),
        String,
    >)
        ensures
            match bucket_label_refusal(old(self)@.state, room_id, bucket_id, label@) {
                Some(e) => final(self)@ == old(self)@ && match r {
                    Ok(_) => false,
                    Err(text) => text@ == error_text(e),
                },
                None => r is Ok && final(self)@ == (ServerView {
                    state: old(self)@.state.with_room(
                        room_id,
                        RoomView {
                            bucket_labels: old(self)@.state.rooms[room_id].bucket_labels.insert(
                                bucket_id,
                                trim(label@),
                            ),
                            ..old(self)@.state.rooms[room_id]
                        },
                    ),
                    ..old(self)@
                }),
            },
    {
        match self.kernel.state.set_bucket_label(room_id, bucket_id, label) {
            Ok(_) => Ok(()),
            Err(e) => Err(e.to_text()),
        }
    }

    /// The label of a bucket, if it has one.
    pub fn get_bucket_label(&self, room_id: u64, bucket_id: u64) -> (r: Option<String>)
        ensures
            match r {
                Some(label) => self@.state.rooms.contains_key(room_id)
                    && self@.state.rooms[room_id].bucket_labels.contains_key(bucket_id) && label@
                    == self@.state.rooms[room_id].bucket_labels[bucket_id],
                None => !(self@.state.rooms.contains_key(room_id)
                    && self@.state.rooms[room_id].bucket_labels.contains_key(bucket_id)),
            },
    {
        self.kernel.state.get_bucket_label(room_id, bucket_id)
    }
}

impl CommandHandler for CommandServer {
    /// Makes a room and gives it a label, if it can have it. Where no number is left for a
    /// room, nothing happens and the answer is zero.
    fn new_room(&mut self, name: String) -> (r: u64)
        ensures
            ({
                let cmd = Commands::NewRoom(name);
                if can_handle(old(self)@.state, cmd) {
                    r == old(self)@.state.next_room_id && final(self)@ == carried_out(
                        old(self)@,
                        cmd,
                    )
                } else {
                    r == 0 && final(self)@ == old(self)@
                }
            }),
    {
        if self.kernel.state.next_room_id == u64::MAX {
            return 0;
        }
        match self.handle_command(Commands::NewRoom(name)) {
            CommandResponse::NewRoomResponse(id) => id,
            _ => 0,
        }
    }

    /// The rooms, each with a label.
    fn list_rooms(&self) -> (r: Vec<String>)
        ensures
            tells_rooms(texts(r@), self@.state),
    {
        let ids: Vec<u64> = self.kernel.state.list_rooms();
        let mut out: Vec<String> = Vec::new();
        let mut i: usize = 0;
        while i < ids.len()
            invariant
                i <= ids@.len(),
                out@.len() == i,
                forall|k: int|
                    0 <= k < i ==> tells_room(
                        #[trigger] texts(out@)[k],
                        ids@[k],
                        self@.state.labels,
                    ),
            decreases ids@.len() - i,
        {
            let ghost before = texts(out@);
            let line: String = match self.kernel.state.get_room_label(ids[i]) {
                Some(label) => {
                    let line: String = line_of(ids[i], label.as_str());
                    assert(self@.state.labels.contains_key(label@));
                    line
                },
                None => {
                    proof {
                        reveal_strlit("");
                        assert(""@ =~= Seq::empty());
                    }
                    line_of(ids[i], "")
                },
            };
            assert(tells_room(line@, ids@[i as int], self@.state.labels));
            out.push(line);
            assert(texts(out@) =~= before.push(line@));
            i = i + 1;
        }
        assert(lists_ids(ids@, self@.state.rooms.dom()));
        out
    }

    fn delete_room(&mut self, room_id: u64) -> (r: Result<(), String>)
        ensures
            final(self)@ == (ServerView {
                state: without_room(old(self)@.state, room_id),
                ..old(self)@
            }),
            match r {
                Ok(_) => old(self)@.state.rooms.contains_key(room_id),
                Err(e) => !old(self)@.state.rooms.contains_key(room_id) && e@
                    == "room_not_found"@,
            },
    {
        self.kernel.delete_room(room_id)
    }

    fn issue_jwt(&mut self, room_id: u64, sub: String, buckets: Vec<u64>) -> (r: Result<
        String,
        String,
    >)
        ensures
            final(self)@.updates == old(self)@.updates,
            final(self)@.requests == old(self)@.requests,
            match old(self)@.state.token_refusal(room_id, sub@, buckets@) {
                Some(e) => final(self)@.state == old(self)@.state && match r {
                    Ok(_) => false,
                    Err(text) => text@ == error_text(e),
                },
                None => {
                    let issued = final(self)@.state.last_jwt_issue_seconds->0;
                    &&& final(self)@.state == (AppView {
                        last_jwt_issue_seconds: Some(issued),
                        ..old(self)@.state
                    })
                    &&& match r {
                        Ok(token) => token@ == old(self)@.state.token(
                            room_id,
                            sub@,
                            buckets@,
                            issued,
                        ) && bucket_claims(token@, old(self)@.state.jwt_key->0) == Some(
                            (
                                trim(sub@),
                                Some(room_id),
                                Some(granted(buckets@)),
                                saturating_sum(issued, old(self)@.state.jwt_ttl_seconds),
                            ),
                        ),
                        Err(_) => false,
                    }
                    &&& exists|now: u64| #[trigger]
                        clock_gave(now) && issued == issue_time(
                            now,
                            old(self)@.state.last_jwt_issue_seconds,
                        )
                    &&& old(self)@.state.last_jwt_issue_seconds matches Some(last) ==> issued
                        >= saturating_sum(last, 1)
                },
            },
    {
        match self.kernel.state.create_room_token(room_id, sub.as_str(), buckets.as_slice()) {
            Ok(token) => Ok(token),
            Err(e) => Err(e.to_text()),
        }
    }

    fn new_bucket(&mut self, room_id: u64, bucket_id: u64, label: String) -> (r: Result<(), String>)
        ensures
            ({
                let cmd = Commands::NewBucket(room_id, bucket_id, label);
                reports(old(self)@.state, cmd, r) && final(self)@ == carried_out(old(self)@, cmd)
            }),
    {
        match self.handle_command(Commands::NewBucket(room_id, bucket_id, label)) {
            CommandResponse::NewBucketResponse => Ok(()),
            CommandResponse::LoadRoomResponse(Err(e)) => Err(e),
            _ => Err("new_bucket_failed".to_string()),
        }
    }

    fn delete_bucket(&mut self, room_id: u64, bucket_id: u64) -> (r: Result<(), String>)
        ensures
            ({
                let cmd = Commands::DeleteBucket(room_id, bucket_id);
                reports(old(self)@.state, cmd, r) && final(self)@ == carried_out(old(self)@, cmd)
            }),
    {
        match self.handle_command(Commands::DeleteBucket(room_id, bucket_id)) {
            CommandResponse::DeleteBucketResponse => Ok(()),
            CommandResponse::LoadRoomResponse(Err(e)) => Err(e),
            _ => Err("delete_bucket_failed".to_string()),
        }
    }

    fn new_member(&mut self, room_id: u64, member: String) -> (r: Result<(), String>)
        ensures
            ({
                let cmd = Commands::NewMember(room_id, member);
                reports(old(self)@.state, cmd, r) && final(self)@ == carried_out(old(self)@, cmd)
            }),
    {
        match self.handle_command(Commands::NewMember(room_id, member)) {
            CommandResponse::NewMemberResponse => Ok(()),
            CommandResponse::LoadRoomResponse(Err(e)) => Err(e),
            _ => Err("new_member_failed".to_string()),
        }
    }

    fn delete_member(&mut self, room_id: u64, member: String) -> (r: Result<(), String>)
        ensures
            ({
                let cmd = Commands::DeleteMember(room_id, member);
                reports(old(self)@.state, cmd, r) && final(self)@ == carried_out(old(self)@, cmd)
            }),
    {
        match self.handle_command(Commands::DeleteMember(room_id, member)) {
            CommandResponse::DeleteMemberResponse => Ok(()),
            CommandResponse::LoadRoomResponse(Err(e)) => Err(e),
            _ => Err("delete_member_failed".to_string()),
        }
    }

    /// The members of a room; none where there is no such room in memory.
    fn list_members(&self, room_id: u64) -> (r: Vec<String>)
        ensures
            if self@.state.refusal(room_id) is None {
                ascending_texts(texts(r@)) && texts(r@).to_set()
                    == self@.state.rooms[room_id].members
            } else {
                r@.len() == 0
            },
    {
        match self.kernel.state.list_members(room_id) {
            Ok(members) => members,
            Err(_) => Vec::new(),
        }
    }

    /// The buckets of a room, each with its label; none where there is no such room in memory.
    fn list_buckets(&self, room_id: u64) -> (r: Vec<String>)
        ensures
            if self@.state.refusal(room_id) is None {
                tells_room_buckets(texts(r@), self@.state.rooms[room_id])
            } else {
                r@.len() == 0
            },
    {
        let mut out: Vec<String> = Vec::new();
        if let Some(room) = self.kernel.state.rooms.get(room_id) {
            if !room.loaded {
                return out;
            }
            let ids: Vec<u64> = room.buckets.keys();
            let mut i: usize = 0;
            while i < ids.len()
                invariant
                    i <= ids@.len(),
                    out@.len() == i,
                    forall|k: int|
                        0 <= k < i ==> #[trigger] texts(out@)[k] == id_line(
                            ids@[k],
                            bucket_label(room@, ids@[k]),
                        ),
                decreases ids@.len() - i,
            {
                let ghost before = texts(out@);
                let line: String = match room.bucket_labels.get(ids[i]) {
                    Some(label) => line_of(ids[i], label.as_str()),
                    None => {
                        proof {
                            reveal_strlit("");
                            assert(""@ =~= Seq::empty());
                        }
                        line_of(ids[i], "")
                    },
                };
                out.push(line);
                assert(texts(out@) =~= before.push(line@));
                i = i + 1;
            }
            assert(lists_ids(ids@, room@.buckets.dom()));
            assert(tells_room_buckets(texts(out@), room@));
        }
        out
    }

    /// Reads a value, as the bytes of its JSON text. There is none where the bucket or the key
    /// is not there or the key was deleted. Where the room is not in memory, the call fails.
    fn read_fragment(&mut self, room_id: u64, bucket_id: u64, key: String) -> (r: Result<
        Option<Vec<u8>>,
        String,
    >)
        ensures
            final(self)@ == old(self)@,
            match (old(self)@.state.refusal(room_id), r) {
                (Some(_), Err(e)) => e@ == "room_not_loaded"@,
                (None, Ok(read)) => match (old(self)@.state.read(room_id, bucket_id, key@), read) {
                    (Ok((value, _)), Some(bytes)) => bytes@ == vstd::utf8::encode_utf8(value),
                    (Err(_), None) => true,
                    _ => false,
                },
                _ => false,
            },
    {
        match self.handle_command(Commands::ReadFragment(room_id, bucket_id, key)) {
            CommandResponse::FragmentReadResponse(data) => Ok(data),
            CommandResponse::LoadRoomResponse(Err(e)) => Err(e),
            _ => Ok(None),
        }
    }

    /// Writes a value. Where the room is not in memory, or no version is left for it, the call
    /// fails and nothing happens.
    fn write_fragment(&mut self, room_id: u64, bucket_id: u64, key: String, data: Vec<u8>) -> (r:
        Result<(), String>)
        ensures
            ({
                let cmd = Commands::WriteFragment(room_id, bucket_id, key, data);
                if can_handle(old(self)@.state, cmd) {
                    reports(old(self)@.state, cmd, r) && final(self)@ == carried_out(
                        old(self)@,
                        cmd,
                    )
                } else {
                    final(self)@ == old(self)@ && match r {
                        Ok(_) => false,
                        Err(e) => e@ == "write_fragment_failed"@,
                    }
                }
            }),
    {
        if let Some(room) = self.kernel.state.rooms.get(room_id) {
            if room.loaded && !room.has_version_left() {
                return Err("write_fragment_failed".to_string());
            }
        }
        match self.handle_command(Commands::WriteFragment(room_id, bucket_id, key, data)) {
            CommandResponse::FragmentWriteResponse => Ok(()),
            CommandResponse::LoadRoomResponse(Err(e)) => Err(e),
            _ => Err("write_fragment_failed".to_string()),
        }
    }

    /// Loads a room into memory, given what is kept of it. Where not enough versions are left
    /// for its values, the call fails and nothing happens.
    fn load_room(&mut self, room_id: u64, stored: StoredRoom) -> (r: Result<(), String>)
        ensures
            final(self)@.updates == old(self)@.updates,
            final(self)@.requests == old(self)@.requests,
            if !can_load(old(self)@.state, room_id, stored.fragments@) {
                final(self)@.state == old(self)@.state && (r matches Err(e) && e@
                    == "load_room_failed"@)
            } else {
                &&& leads_to(
                    old(self)@.state,
                    Commands::LoadRoom(room_id, stored),
                    final(self)@.state,
                )
                &&& match r {
                    Ok(_) => old(self)@.state.rooms.contains_key(room_id),
                    Err(e) => !old(self)@.state.rooms.contains_key(room_id) && e@
                        == "room_not_found"@,
                }
            },
    {
        if let Some(room) = self.kernel.state.rooms.get(room_id) {
            let count: u128 = count_fragments(&stored.fragments);
            if count > (u64::MAX - room.room_counter) as u128 {
                return Err("load_room_failed".to_string());
            }
        }
        match self.handle_command(Commands::LoadRoom(room_id, stored)) {
            CommandResponse::LoadRoomResponse(result) => result,
            _ => Err("load_room_failed".to_string()),
        }
    }

    /// Drops what is in memory of a room.
    fn unload_room(&mut self, room_id: u64) -> (r: Result<(), String>)
        ensures
            final(self)@ == carried_out(old(self)@, Commands::UnloadRoom(room_id)),
            match r {
                Ok(_) => old(self)@.state.rooms.contains_key(room_id),
                Err(e) => !old(self)@.state.rooms.contains_key(room_id) && e@
                    == "room_not_found"@,
            },
    {
        match self.handle_command(Commands::UnloadRoom(room_id)) {
            CommandResponse::UnloadRoomResponse(result) => result,
            _ => Err("unload_room_failed".to_string()),
        }
    }
}

} // verus!
