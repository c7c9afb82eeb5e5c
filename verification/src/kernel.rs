//! The kernel: it carries out commands on the state, and says what clients are to be told
//! and what is to be kept on disk.

use crate::collections::{lemma_take_one_more, StrMap};
use crate::commands::{
    CommandResponse, Commands, DataUpdate, DownstreamMessage, UpdateChannelMessage, UpdateView,
};
use crate::hub::{update_in, HubView, WsHub};
use crate::json::{json_text_of_bytes, value_of_bytes, Value};
use crate::kernel_state::{
    AppState, AppView, FragmentEntry, FragmentView, RoomCommandView, RoomState, RoomView,
    StateError,
};
use crate::loading::{can_load, load_room, loads, unload_room, unloaded};
use crate::persistence::{BucketRecord, RecordView};
use crate::state::{label_ok, labels_without, lemma_no_bytes};
use crate::text::{trim, trimmed_string};
use vstd::prelude::*;
use vstd::slice::slice_to_vec;
use vstd::string::*;

verus! {

/// Something to be kept on disk, or to be taken off it.
#[derive(Debug)]
pub enum PersistRequest {
    SaveBucket { room_id: u64, record: BucketRecord },
    RemoveBucket { room_id: u64, bucket_id: u64 },
    SaveFragment { room_id: u64, bucket_id: u64, key: String, value: Value },
    RemoveFragment { room_id: u64, bucket_id: u64, key: String },
    SaveMember { room_id: u64, member: String },
    RemoveMember { room_id: u64, member: String },
}

pub ghost enum PersistView {
    SaveBucket { room_id: u64, record: RecordView },
    RemoveBucket { room_id: u64, bucket_id: u64 },
    SaveFragment { room_id: u64, bucket_id: u64, key: Seq<char>, value: Seq<char> },
    RemoveFragment { room_id: u64, bucket_id: u64, key: Seq<char> },
    SaveMember { room_id: u64, member: Seq<char> },
    RemoveMember { room_id: u64, member: Seq<char> },
}

impl View for PersistRequest {
    type V = PersistView;

    open spec fn view(&self) -> PersistView {
        match *self {
            PersistRequest::SaveBucket { room_id, record } => PersistView::SaveBucket {
                room_id,
                record: record@,
            },
            PersistRequest::RemoveBucket { room_id, bucket_id } => PersistView::RemoveBucket {
                room_id,
                bucket_id,
            },
            PersistRequest::SaveFragment { room_id, bucket_id, key, value } =>
                PersistView::SaveFragment { room_id, bucket_id, key: key@, value: value@ },
            PersistRequest::RemoveFragment { room_id, bucket_id, key } =>
                PersistView::RemoveFragment { room_id, bucket_id, key: key@ },
            PersistRequest::SaveMember { room_id, member } => PersistView::SaveMember {
                room_id,
                member: member@,
            },
            PersistRequest::RemoveMember { room_id, member } => PersistView::RemoveMember {
                room_id,
                member: member@,
            },
        }
    }
}

/// What a command comes to: the response, what the subscribers are told, and what is to
/// be kept on disk.
pub struct Outcome {
    pub response: CommandResponse,
    pub update: Option<DataUpdate>,
    pub persist: Option<PersistRequest>,
}

/// The kernel and the state it works on.
pub struct SyncpondKernel {
    pub state: AppState,
}

// ---------------------------------------------------------------------------
// What commands do to the state
// ---------------------------------------------------------------------------

/// The state with a new room.
pub open spec fn with_new_room(s: AppView) -> AppView {
    AppView {
        next_room_id: (s.next_room_id + 1) as u64,
        ..s.with_room(s.next_room_id, RoomView::fresh())
    }
}

/// The state in which a room has a label, if it can have it; else the state as it is.
pub open spec fn with_label(s: AppView, id: u64, label: Seq<char>) -> AppView {
    let trimmed = trim(label);
    if label_ok(trimmed) && s.rooms.contains_key(id) && !(s.labels.contains_key(trimmed)
        && s.labels[trimmed] != id) {
        AppView { labels: s.labels.insert(trimmed, id), ..s }
    } else {
        s
    }
}

/// The state without a room and its labels.
pub open spec fn without_room(s: AppView, id: u64) -> AppView {
    if s.rooms.contains_key(id) {
        AppView { rooms: s.rooms.remove(id), labels: labels_without(s.labels, id), ..s }
    } else {
        s
    }
}

/// A room with a bucket: what is in the bucket and its flags stay if it was there; a label
/// that is not blank is put on it.
pub open spec fn with_bucket(room: RoomView, bucket_id: u64, label: Seq<char>) -> RoomView {
    RoomView {
        buckets: room.buckets.insert(bucket_id, room.fragments(bucket_id)),
        bucket_flags: if room.bucket_flags.contains_key(bucket_id) {
            room.bucket_flags
        } else {
            room.bucket_flags.insert(bucket_id, 0)
        },
        bucket_labels: if trim(label).len() > 0 {
            room.bucket_labels.insert(bucket_id, trim(label))
        } else {
            room.bucket_labels
        },
        ..room
    }
}

/// A room without a bucket.
pub open spec fn without_bucket(room: RoomView, bucket_id: u64) -> RoomView {
    RoomView {
        buckets: room.buckets.remove(bucket_id),
        bucket_flags: room.bucket_flags.remove(bucket_id),
        bucket_labels: room.bucket_labels.remove(bucket_id),
        ..room
    }
}

/// A room with a member, if the name is not blank.
pub open spec fn with_member(room: RoomView, member: Seq<char>) -> RoomView {
    if trim(member).len() > 0 {
        RoomView { members: room.members.insert(trim(member)), ..room }
    } else {
        room
    }
}

pub open spec fn without_member(room: RoomView, member: Seq<char>) -> RoomView {
    RoomView { members: room.members.remove(trim(member)), ..room }
}

/// The state with a room changed, if it is there.
pub open spec fn if_room(s: AppView, id: u64, room: RoomView) -> AppView {
    if s.rooms.contains_key(id) {
        s.with_room(id, room)
    } else {
        s
    }
}

/// Whether a command is turned down because the room that it is for is not in memory. A room
/// that is not there is not read from either; other commands for it come to nothing.
pub open spec fn turned_down(s: AppView, cmd: Commands) -> bool {
    match cmd {
        Commands::NewBucket(id, _, _) => is_stub(s, id),
        Commands::DeleteBucket(id, _) => is_stub(s, id),
        Commands::NewMember(id, _) => is_stub(s, id),
        Commands::DeleteMember(id, _) => is_stub(s, id),
        Commands::WriteFragment(id, _, _, _) => is_stub(s, id),
        Commands::ReadFragment(id, _, _) => s.refusal(id) is Some,
        _ => false,
    }
}

/// Whether a room is there, but not in memory.
pub open spec fn is_stub(s: AppView, id: u64) -> bool {
    s.rooms.contains_key(id) && !s.rooms[id].loaded
}

/// The state after a command, unless it loads a room.
pub open spec fn after_command(s: AppView, cmd: Commands) -> AppView {
    if turned_down(s, cmd) {
        s
    } else {
        after_accepted(s, cmd)
    }
}

/// The state after a command that is not turned down and does not load a room.
pub open spec fn after_accepted(s: AppView, cmd: Commands) -> AppView {
    match cmd {
        Commands::NewRoom(name) => with_label(with_new_room(s), s.next_room_id, name@),
        Commands::CloseRoom(id) => without_room(s, id),
        Commands::NewBucket(id, bucket_id, label) => if_room(
            s,
            id,
            with_bucket(s.rooms[id], bucket_id, label@),
        ),
        Commands::DeleteBucket(id, bucket_id) => if_room(
            s,
            id,
            without_bucket(s.rooms[id], bucket_id),
        ),
        Commands::NewMember(id, member) => if_room(s, id, with_member(s.rooms[id], member@)),
        Commands::DeleteMember(id, member) => if_room(s, id, without_member(s.rooms[id], member@)),
        Commands::WriteFragment(id, bucket_id, key, data) => if_room(
            s,
            id,
            s.rooms[id].submit(
                RoomCommandView::SetValue {
                    bucket_id,
                    key: key@,
                    value: value_of_bytes(data@),
                },
            ),
        ),
        Commands::UnloadRoom(id) => if_room(s, id, unloaded(s.rooms[id])),
        _ => s,
    }
}

/// Whether a command leads from one state to another. A room that is loaded gets versions of
/// which only so much is said that each value has one of its own.
pub open spec fn leads_to(s: AppView, cmd: Commands, after: AppView) -> bool {
    match cmd {
        Commands::LoadRoom(id, stored) => if s.rooms.contains_key(id) {
            &&& after == s.with_room(id, after.rooms[id])
            &&& loads(
                s.rooms[id],
                after.rooms[id],
                stored.records@,
                stored.members@,
                stored.fragments@,
            )
        } else {
            after == s
        },
        _ => after == after_command(s, cmd),
    }
}

/// Whether the numbers last for a command.
pub open spec fn can_handle(s: AppView, cmd: Commands) -> bool {
    match cmd {
        Commands::NewRoom(_) => s.next_room_id < u64::MAX,
        Commands::WriteFragment(id, _, _, _) => s.refusal(id) is None
            ==> s.rooms[id].can_submit(),
        Commands::LoadRoom(id, stored) => can_load(s, id, stored.fragments@),
        _ => true,
    }
}

/// The version of a room; zero where there is none.
pub open spec fn version_or_zero(s: AppView, id: u64) -> u64 {
    if s.rooms.contains_key(id) {
        s.rooms[id].room_counter
    } else {
        0
    }
}

/// Whether a response answers a command that was carried out on a state.
pub open spec fn answers(s: AppView, cmd: Commands, response: CommandResponse) -> bool {
    if turned_down(s, cmd) {
        response matches CommandResponse::LoadRoomResponse(Err(e)) && e@ == "room_not_loaded"@
    } else {
        answers_accepted(s, cmd, response)
    }
}

/// Whether a response answers a command that is not turned down.
pub open spec fn answers_accepted(s: AppView, cmd: Commands, response: CommandResponse) -> bool {
    match cmd {
        Commands::NewRoom(_) => response == CommandResponse::NewRoomResponse(s.next_room_id),
        Commands::CloseRoom(_) => response is CloseRoomResponse,
        Commands::NewBucket(_, _, _) => response is NewBucketResponse,
        Commands::DeleteBucket(_, _) => response is DeleteBucketResponse,
        Commands::NewMember(_, _) => response is NewMemberResponse,
        Commands::DeleteMember(_, _) => response is DeleteMemberResponse,
        Commands::WriteFragment(_, _, _, _) => response is FragmentWriteResponse,
        Commands::SetFragmentFlags(_, _, _) => response is SetFragmentFlagsResponse,
        Commands::ReadFragment(id, bucket_id, key) => match s.read(id, bucket_id, key@) {
            Ok((value, _)) => response matches CommandResponse::FragmentReadResponse(Some(bytes))
                && bytes@ == vstd::utf8::encode_utf8(value),
            Err(_) => response == CommandResponse::FragmentReadResponse(None),
        },
        Commands::LoadRoom(id, _) => match response {
            CommandResponse::LoadRoomResponse(Ok(_)) => s.rooms.contains_key(id),
            CommandResponse::LoadRoomResponse(Err(e)) => !s.rooms.contains_key(id) && e@
                == "room_not_found"@,
            _ => false,
        },
        Commands::UnloadRoom(id) => match response {
            CommandResponse::UnloadRoomResponse(Ok(_)) => s.rooms.contains_key(id),
            CommandResponse::UnloadRoomResponse(Err(e)) => !s.rooms.contains_key(id) && e@
                == "room_not_found"@,
            _ => false,
        },
        Commands::WsMessage(_, _) => response is WsMessageAck,
    }
}

/// What the subscribers are told of a command.
pub open spec fn update_of(after: AppView, cmd: Commands) -> Option<UpdateView> {
    match cmd {
        Commands::WriteFragment(id, bucket_id, key, data) => if is_stub(after, id) {
            None
        } else {
            Some(
                UpdateView {
                    bucket_id,
                    key: key@,
                    value: Some(value_of_bytes(data@)),
                    bucket_counter: version_or_zero(after, id),
                },
            )
        },
        _ => None,
    }
}

/// What is to be kept on disk of a command.
pub open spec fn persist_of(s: AppView, cmd: Commands) -> Option<PersistView> {
    if turned_down(s, cmd) {
        None
    } else {
        persist_of_accepted(s, cmd)
    }
}

/// What is to be kept on disk of a command that is not turned down.
pub open spec fn persist_of_accepted(s: AppView, cmd: Commands) -> Option<PersistView> {
    match cmd {
        Commands::NewBucket(room_id, bucket_id, label) => if s.rooms.contains_key(room_id) {
            Some(
                PersistView::SaveBucket {
                    room_id,
                    record: RecordView {
                        id: bucket_id,
                        label: if trim(label@).len() > 0 {
                            Some(trim(label@))
                        } else {
                            None
                        },
                        flags: 0,
                    },
                },
            )
        } else {
            None
        },
        Commands::DeleteBucket(room_id, bucket_id) => if s.rooms.contains_key(room_id) {
            Some(PersistView::RemoveBucket { room_id, bucket_id })
        } else {
            None
        },
        Commands::NewMember(room_id, member) => if s.rooms.contains_key(room_id) && trim(
            member@,
        ).len() > 0 {
            Some(PersistView::SaveMember { room_id, member: trim(member@) })
        } else {
            None
        },
        Commands::DeleteMember(room_id, member) => if s.rooms.contains_key(room_id) {
            Some(PersistView::RemoveMember { room_id, member: trim(member@) })
        } else {
            None
        },
        Commands::WriteFragment(room_id, bucket_id, key, data) => {
            let value = value_of_bytes(data@);
            if value == "null"@ {
                Some(PersistView::RemoveFragment { room_id, bucket_id, key: key@ })
            } else {
                Some(PersistView::SaveFragment { room_id, bucket_id, key: key@, value })
            }
        },
        _ => None,
    }
}

/// The model of an optional update.
pub open spec fn optional_update(u: Option<DataUpdate>) -> Option<UpdateView> {
    match u {
        Some(u) => Some(u@),
        None => None,
    }
}

/// The model of an optional request to keep something.
pub open spec fn optional_persist(p: Option<PersistRequest>) -> Option<PersistView> {
    match p {
        Some(p) => Some(p@),
        None => None,
    }
}

fn answer(response: CommandResponse) -> (r: Outcome)
    ensures
        r == (Outcome { response, update: None, persist: None }),
{
    Outcome { response, update: None, persist: None }
}

impl SyncpondKernel {
    pub fn new(state: AppState) -> (r: SyncpondKernel)
        ensures
            r.state == state,
    {
        SyncpondKernel { state }
    }

    /// Whether a command is turned down because the room that it is for is not in memory.
    fn turns_down(&self, cmd: &Commands) -> (r: bool)
        ensures
            r == turned_down(self.state@, *cmd),
    {
        match cmd {
            Commands::NewBucket(id, _, _)
            | Commands::DeleteBucket(id, _)
            | Commands::NewMember(id, _)
            | Commands::DeleteMember(id, _)
            | Commands::WriteFragment(id, _, _, _) => match self.state.rooms.get(*id) {
                Some(room) => !room.loaded,
                None => false,
            },
            Commands::ReadFragment(id, _, _) => self.state.room_version(*id).is_err(),
            _ => false,
        }
    }

    /// Carries out a command. Bytes that are not JSON are written as a string, which is not a
    /// tombstone.
    pub fn handle_command(&mut self, cmd: Commands) -> (r: Outcome)
        requires
            can_handle(old(self).state@, cmd),
        ensures
            leads_to(old(self).state@, cmd, final(self).state@),
            answers(old(self).state@, cmd, r.response),
            optional_update(r.update) == update_of(final(self).state@, cmd),
            optional_persist(r.persist) == persist_of(old(self).state@, cmd),
            match cmd {
                Commands::WriteFragment(_, _, _, data) => json_text_of_bytes(data@) is Err
                    && !turned_down(old(self).state@, cmd) ==> value_of_bytes(data@) != "null"@,
                _ => true,
            },
    {
        proof {
            reveal_strlit("null");
        }
        if self.turns_down(&cmd) {
            return answer(
                CommandResponse::LoadRoomResponse(Err("room_not_loaded".to_string())),
            );
        }
        match cmd {
            Commands::NewRoom(name) => {
                let room_id: u64 = self.state.create_room();
                let trimmed: String = trimmed_string(name.as_str());
                proof {
                    lemma_no_bytes(trimmed@);
                }
                if !trimmed.as_str().is_empty() {
                    let _labelled: Result<(), StateError> = self.state.set_room_label(
                        room_id,
                        name,
                    );
                }
                answer(CommandResponse::NewRoomResponse(room_id))
            },
            Commands::CloseRoom(room_id) => {
                let _deleted: Result<(), StateError> = self.state.delete_room(room_id);
                answer(CommandResponse::CloseRoomResponse)
            },
            Commands::NewBucket(room_id, bucket_id, label) => {
                let persist: Option<PersistRequest> = self.new_bucket(
                    room_id,
                    bucket_id,
                    label.as_str(),
                );
                Outcome { response: CommandResponse::NewBucketResponse, update: None, persist }
            },
            Commands::DeleteBucket(room_id, bucket_id) => {
                let mut persist: Option<PersistRequest> = None;
                match self.state.rooms.remove(room_id) {
                    None => {
                        assert(self.state@.rooms =~= old(self).state@.rooms);
                    },
                    Some(mut room) => {
                        room.buckets.remove(bucket_id);
                        room.bucket_labels.remove(bucket_id);
                        room.bucket_flags.remove(bucket_id);
                        self.state.put_room(room_id, room);
                        assert(self.state@.rooms =~= old(self).state@.rooms.insert(room_id, room@));
                        persist = Some(PersistRequest::RemoveBucket { room_id, bucket_id });
                    },
                }
                Outcome { response: CommandResponse::DeleteBucketResponse, update: None, persist }
            },
            Commands::NewMember(room_id, member) => {
                let persist: Option<PersistRequest> = self.new_member(room_id, member.as_str());
                Outcome { response: CommandResponse::NewMemberResponse, update: None, persist }
            },
            Commands::DeleteMember(room_id, member) => {
                let mut persist: Option<PersistRequest> = None;
                match self.state.rooms.remove(room_id) {
                    None => {
                        assert(self.state@.rooms =~= old(self).state@.rooms);
                    },
                    Some(mut room) => {
                        let trimmed: String = trimmed_string(member.as_str());
                        room.members.remove(trimmed.as_str());
                        self.state.put_room(room_id, room);
                        assert(self.state@.rooms =~= old(self).state@.rooms.insert(room_id, room@));
                        persist = Some(PersistRequest::RemoveMember { room_id, member: trimmed });
                    },
                }
                Outcome { response: CommandResponse::DeleteMemberResponse, update: None, persist }
            },
            Commands::WriteFragment(room_id, bucket_id, key, data) => {
                let value: Value = Value::from_bytes(data.as_slice());
                self.write_value(room_id, bucket_id, key, value)
            },
            Commands::SetFragmentFlags(_, _, _) => answer(
                CommandResponse::SetFragmentFlagsResponse,
            ),
            Commands::ReadFragment(room_id, bucket_id, key) => {
                match self.state.get_fragment(room_id, bucket_id, key.as_str()) {
                    Ok((value, _)) => {
                        let bytes: Vec<u8> = slice_to_vec(value.text().as_bytes());
                        answer(CommandResponse::FragmentReadResponse(Some(bytes)))
                    },
                    Err(_) => answer(CommandResponse::FragmentReadResponse(None)),
                }
            },
            Commands::LoadRoom(room_id, stored) => {
                let loaded: Result<(), String> = match load_room(
                    &mut self.state,
                    room_id,
                    &stored.records,
                    stored.members,
                    stored.fragments,
                ) {
                    Ok(_) => Ok(()),
                    Err(e) => Err(e.to_text()),
                };
                answer(CommandResponse::LoadRoomResponse(loaded))
            },
            Commands::UnloadRoom(room_id) => {
                let dropped: Result<(), String> = match unload_room(&mut self.state, room_id) {
                    Ok(_) => Ok(()),
                    Err(e) => Err(e.to_text()),
                };
                answer(CommandResponse::UnloadRoomResponse(dropped))
            },
            Commands::WsMessage(_, _) => answer(CommandResponse::WsMessageAck),
        }
    }

    fn new_bucket(&mut self, room_id: u64, bucket_id: u64, label: &str) -> (r: Option<
        PersistRequest,
    >)
        ensures
            final(self).state@ == if_room(
                old(self).state@,
                room_id,
                with_bucket(old(self).state@.rooms[room_id], bucket_id, label@),
            ),
            optional_persist(r) == (if old(self).state@.rooms.contains_key(room_id) {
                Some(
                    PersistView::SaveBucket {
                        room_id,
                        record: RecordView {
                            id: bucket_id,
                            label: if trim(label@).len() > 0 {
                                Some(trim(label@))
                            } else {
                                None
                            },
                            flags: 0,
                        },
                    },
                )
            } else {
                None
            }),
    {
        match self.state.rooms.remove(room_id) {
            None => {
                assert(self.state@.rooms =~= old(self).state@.rooms);
                None
            },
            Some(mut room) => {
                let ghost before = room@;
                let trimmed: String = trimmed_string(label);
                proof {
                    lemma_no_bytes(trimmed@);
                }
                if !room.buckets.contains(bucket_id) {
                    room.buckets.insert(bucket_id, StrMap::new());
                }
                assert(room@.buckets =~= before.buckets.insert(
                    bucket_id,
                    before.fragments(bucket_id),
                ));
                if !room.bucket_flags.contains(bucket_id) {
                    room.bucket_flags.insert(bucket_id, 0);
                }
                let named: Option<String> = if trimmed.as_str().is_empty() {
                    None
                } else {
                    room.bucket_labels.insert(bucket_id, trimmed.clone());
                    Some(trimmed)
                };
                self.state.put_room(room_id, room);
                assert(self.state@.rooms =~= old(self).state@.rooms.insert(room_id, room@));
                Some(
                    PersistRequest::SaveBucket {
                        room_id,
                        record: BucketRecord { id: bucket_id, label: named, flags: 0 },
                    },
                )
            },
        }
    }

    fn new_member(&mut self, room_id: u64, member: &str) -> (r: Option<PersistRequest>)
        ensures
            optional_persist(r) == (if old(self).state@.rooms.contains_key(room_id) && trim(
                member@,
            ).len() > 0 {
                Some(PersistView::SaveMember { room_id, member: trim(member@) })
            } else {
                None
            }),
            final(self).state@ == if_room(
                old(self).state@,
                room_id,
                with_member(old(self).state@.rooms[room_id], member@),
            ),
    {
        match self.state.rooms.remove(room_id) {
            None => {
                assert(self.state@.rooms =~= old(self).state@.rooms);
                None
            },
            Some(mut room) => {
                let trimmed: String = trimmed_string(member);
                proof {
                    lemma_no_bytes(trimmed@);
                }
                let blank: bool = trimmed.as_str().is_empty();
                if !blank {
                    room.members.insert(trimmed.as_str());
                }
                self.state.put_room(room_id, room);
                assert(self.state@.rooms =~= old(self).state@.rooms.insert(room_id, room@));
                if blank {
                    None
                } else {
                    Some(PersistRequest::SaveMember { room_id, member: trimmed })
                }
            },
        }
    }

    /// Writes a value to a key, tells the subscribers, and has it kept. A null is a
    /// tombstone: what was kept of the key is taken off the disk.
    fn write_value(&mut self, room_id: u64, bucket_id: u64, key: String, value: Value) -> (r:
        Outcome)
        requires
            !is_stub(old(self).state@, room_id),
            old(self).state@.rooms.contains_key(room_id) ==> old(
                self,
            ).state@.rooms[room_id].can_submit(),
        ensures
            r.response is FragmentWriteResponse,
            final(self).state@ == if_room(
                old(self).state@,
                room_id,
                old(self).state@.rooms[room_id].submit(
                    RoomCommandView::SetValue { bucket_id, key: key@, value: value@ },
                ),
            ),
            optional_update(r.update) == Some(
                UpdateView {
                    bucket_id,
                    key: key@,
                    value: Some(value@),
                    bucket_counter: version_or_zero(final(self).state@, room_id),
                },
            ),
            optional_persist(r.persist) == (if value@ == "null"@ {
                Some(PersistView::RemoveFragment { room_id, bucket_id, key: key@ })
            } else {
                Some(PersistView::SaveFragment { room_id, bucket_id, key: key@, value: value@ })
            }),
    {
        let _written: Result<(), StateError> = self.state.set_fragment(
            room_id,
            bucket_id,
            key.clone(),
            value.clone(),
        );
        let counter: u64 = match self.state.room_version(room_id) {
            Ok(counter) => counter,
            Err(_) => 0,
        };
        let persist: PersistRequest = if value.is_null() {
            PersistRequest::RemoveFragment { room_id, bucket_id, key: key.clone() }
        } else {
            PersistRequest::SaveFragment {
                room_id,
                bucket_id,
                key: key.clone(),
                value: value.clone(),
            }
        };
        Outcome {
            response: CommandResponse::FragmentWriteResponse,
            update: Some(
                DataUpdate { bucket_id, key, value: Some(value), bucket_counter: counter },
            ),
            persist: Some(persist),
        }
    }

    /// Deletes a room.
    pub fn delete_room(&mut self, room_id: u64) -> (r: Result<(), String>)
        ensures
            final(self).state@ == without_room(old(self).state@, room_id),
            match r {
                Ok(_) => old(self).state@.rooms.contains_key(room_id),
                Err(e) => !old(self).state@.rooms.contains_key(room_id) && e@
                    == "room_not_found"@,
            },
    {
        match self.state.delete_room(room_id) {
            Ok(_) => Ok(()),
            Err(e) => Err(e.to_text()),
        }
    }
}

// ---------------------------------------------------------------------------
// The first messages for a client
// ---------------------------------------------------------------------------

/// The models of a row of updates.
pub open spec fn updates_view(v: Seq<DataUpdate>) -> Seq<UpdateView> {
    v.map_values(|u: DataUpdate| u@)
}

/// Whether a row of updates tells of all the values of a bucket, each once and no tombstone.
pub open spec fn tells_bucket(
    row: Seq<UpdateView>,
    bucket_id: u64,
    fragments: Map<Seq<char>, FragmentView>,
) -> bool {
    &&& forall|i: int|
        0 <= i < row.len() ==> {
            let u = #[trigger] row[i];
            &&& u.bucket_id == bucket_id
            &&& fragments.contains_key(u.key)
            &&& fragments[u.key].value != "null"@
            &&& u.value == Some(fragments[u.key].value)
            &&& u.bucket_counter == fragments[u.key].key_version
        }
    &&& forall|i: int, j: int|
        0 <= i < j < row.len() ==> (#[trigger] row[i]).key != (#[trigger] row[j]).key
    &&& forall|key: Seq<char>| #[trigger]
        fragments.contains_key(key) && fragments[key].value != "null"@ ==> exists|i: int|
            0 <= i < row.len() && (#[trigger] row[i]).key == key
}

/// Whether a row of updates tells of all the values of a row of buckets, bucket by bucket.
pub open spec fn tells_buckets(
    row: Seq<UpdateView>,
    requested: Seq<u64>,
    room: RoomView,
) -> bool
    decreases requested.len(),
{
    if requested.len() == 0 {
        row.len() == 0
    } else {
        exists|n: int|
            0 <= n <= row.len() && tells_buckets(#[trigger] row.take(n), requested.drop_last(), room)
                && tells_bucket(row.skip(n), requested.last(), room.fragments(requested.last()))
    }
}

/// The updates that tell of all the values of a bucket.
fn bucket_updates(bucket_id: u64, fragments: &StrMap<FragmentEntry>) -> (r: Vec<DataUpdate>)
    ensures
        tells_bucket(updates_view(r@), bucket_id, fragments@),
{
    let mut out: Vec<DataUpdate> = Vec::new();
    let n: usize = fragments.len();
    let mut i: usize = 0;
    while i < n
        invariant
            i <= n,
            n == fragments.order().len(),
            fragments.order().no_duplicates(),
            fragments.order().to_set() == fragments@.dom(),
            forall|k: int|
                0 <= k < out@.len() ==> {
                    let u = #[trigger] updates_view(out@)[k];
                    &&& u.bucket_id == bucket_id
                    &&& fragments.order().take(i as int).contains(u.key)
                    &&& fragments@.contains_key(u.key)
                    &&& fragments@[u.key].value != "null"@
                    &&& u.value == Some(fragments@[u.key].value)
                    &&& u.bucket_counter == fragments@[u.key].key_version
                },
            forall|a: int, b: int|
                0 <= a < b < out@.len() ==> (#[trigger] updates_view(out@)[a]).key != (
                #[trigger] updates_view(out@)[b]).key,
            forall|k: int|
                0 <= k < i && fragments@[#[trigger] fragments.order()[k]].value != "null"@
                    ==> exists|j: int|
                    0 <= j < out@.len() && (#[trigger] updates_view(out@)[j]).key
                        == fragments.order()[k],
        decreases n - i,
    {
        let entry: &FragmentEntry = fragments.value_at(i);
        let ghost key = fragments.order()[i as int];
        let ghost before = updates_view(out@);
        if !entry.value.is_null() {
            out.push(
                DataUpdate {
                    bucket_id,
                    key: fragments.key_at(i).to_string(),
                    value: Some(entry.value.clone()),
                    bucket_counter: entry.key_version,
                },
            );
        }
        proof {
            let after = updates_view(out@);
            lemma_take_one_more(fragments.order(), i as int);
            assert forall|k: int| 0 <= k < before.len() implies #[trigger] after[k] == before[k] by {
            }
            if out@.len() > before.len() {
                assert(after[before.len() as int].key == key);
            }
            assert forall|k: int|
                0 <= k < i + 1 && fragments@[#[trigger] fragments.order()[k]].value
                    != "null"@ implies exists|j: int|
                0 <= j < out@.len() && (#[trigger] after[j]).key == fragments.order()[k] by {
                if k < i {
                    let j = choose|j: int|
                        0 <= j < before.len() && (#[trigger] before[j]).key == fragments.order()[k];
                    assert(after[j].key == fragments.order()[k]);
                } else {
                    assert(after[before.len() as int].key == key);
                }
            }
        }
        i = i + 1;
    }
    proof {
        let row = updates_view(out@);
        assert forall|key: Seq<char>| #[trigger] fragments@.contains_key(key)
            && fragments@[key].value != "null"@ implies exists|j: int|
            0 <= j < row.len() && (#[trigger] row[j]).key == key by {
            assert(fragments.order().to_set().contains(key));
            let k = choose|k: int| 0 <= k < fragments.order().len() && fragments.order()[k] == key;
            assert(fragments@[fragments.order()[k]].value != "null"@);
        }
    }
    out
}

/// The updates that bring a client up to date on the buckets of a room.
pub fn initial_sync(room: &RoomState, requested: &[u64]) -> (r: Vec<DataUpdate>)
    ensures
        tells_buckets(updates_view(r@), requested@, room@),
{
    let mut out: Vec<DataUpdate> = Vec::new();
    let mut i: usize = 0;
    assert(updates_view(out@).len() == 0);
    while i < requested.len()
        invariant
            i <= requested@.len(),
            tells_buckets(updates_view(out@), requested@.take(i as int), room@),
        decreases requested@.len() - i,
    {
        let bucket_id: u64 = requested[i];
        let mut row: Vec<DataUpdate> = match room.buckets.get(bucket_id) {
            Some(fragments) => bucket_updates(bucket_id, fragments),
            None => Vec::new(),
        };
        let ghost head = updates_view(out@);
        let ghost tail = updates_view(row@);
        assert(tells_bucket(tail, bucket_id, room@.fragments(bucket_id)));
        out.append(&mut row);
        proof {
            let all = updates_view(out@);
            let next = requested@.take(i + 1);
            let n = head.len() as int;
            assert(next.drop_last() =~= requested@.take(i as int));
            assert(next.last() == bucket_id);
            assert(all.take(n) =~= head);
            assert(all.skip(n) =~= tail);
            assert(tells_buckets(all, next, room@));
        }
        i = i + 1;
    }
    assert(requested@.take(i as int) =~= requested@);
    out
}

impl SyncpondKernel {
    /// The first updates for a client that has connected: all the values of the buckets it
    /// asked for. Nothing if the connection or its room is not there.
    pub fn handle_client_connected(&self, hub: &WsHub, conn_id: u64, requested_buckets: &[u64]) -> (r:
        Vec<DataUpdate>)
        ensures
            ({
                let room_known = hub@.connections.contains_key(conn_id)
                    && self.state@.rooms.contains_key(hub@.connections[conn_id].room_id);
                if room_known {
                    tells_buckets(
                        updates_view(r@),
                        requested_buckets@,
                        self.state@.rooms[hub@.connections[conn_id].room_id],
                    )
                } else {
                    r@.len() == 0
                }
            }),
    {
        match hub.get_client_room_id(conn_id) {
            None => Vec::new(),
            Some(room_id) => match self.state.rooms.get(room_id) {
                None => Vec::new(),
                Some(room) => initial_sync(room, requested_buckets),
            },
        }
    }
}

/// The updates in a row of messages on the way to the clients.
pub open spec fn updates_in(messages: Seq<UpdateChannelMessage>) -> Seq<UpdateView> {
    messages.map_values(|m: UpdateChannelMessage| update_in(m)@)
}

/// Whether all messages of a row are for one connection.
pub open spec fn all_for(messages: Seq<UpdateChannelMessage>, conn_id: u64) -> bool {
    forall|i: int|
        0 <= i < messages.len() ==> (#[trigger] messages[i] matches UpdateChannelMessage::Targeted {
            conn_id: target,
            ..
        } && target == conn_id)
}

/// Whether messages answer what came from the websocket server: a client that has connected
/// gets all the values of the buckets it asked for; nothing else is answered.
pub open spec fn replies(
    s: AppView,
    hub: HubView,
    message: DownstreamMessage,
    messages: Seq<UpdateChannelMessage>,
) -> bool {
    match message {
        DownstreamMessage::ClientConnected { conn_id, requested_buckets } => {
            &&& all_for(messages, conn_id)
            &&& if hub.connections.contains_key(conn_id) && s.rooms.contains_key(
                hub.connections[conn_id].room_id,
            ) {
                tells_buckets(
                    updates_in(messages),
                    requested_buckets@,
                    s.rooms[hub.connections[conn_id].room_id],
                )
            } else {
                messages.len() == 0
            }
        },
        _ => messages.len() == 0,
    }
}

impl SyncpondKernel {
    /// Takes what a client has sent; it is acknowledged and changes nothing.
    pub fn handle_ws_message(&self, _room_id: u64, _msg: &[u8]) -> (r: CommandResponse)
        ensures
            r is WsMessageAck,
    {
        CommandResponse::WsMessageAck
    }

    /// Answers what came from the websocket server.
    pub fn handle_downstream_message(&self, hub: &WsHub, message: DownstreamMessage) -> (r: Vec<
        UpdateChannelMessage,
    >)
        ensures
            replies(self.state@, hub@, message, r@),
    {
        let mut out: Vec<UpdateChannelMessage> = Vec::new();
        match message {
            DownstreamMessage::ClientConnected { conn_id, requested_buckets } => {
                let updates: Vec<DataUpdate> = self.handle_client_connected(
                    hub,
                    conn_id,
                    requested_buckets.as_slice(),
                );
                let ghost all = updates@;
                for msg in it: updates
                    invariant
                        it.seq() == all,
                        out@.len() == it.index(),
                        all_for(out@, conn_id),
                        forall|k: int|
                            0 <= k < out@.len() ==> update_in(#[trigger] out@[k]) == all[k],
                {
                    out.push(UpdateChannelMessage::Targeted { conn_id, msg });
                }
                assert(updates_in(out@) =~= updates_view(all));
            },
            DownstreamMessage::ClientDisconnected { .. } => {},
            DownstreamMessage::WsMessage(room_id, msg) => {
                let _ack: CommandResponse = self.handle_ws_message(room_id, msg.as_slice());
            },
        }
        out
    }
}

} // verus!
