//! What callers of the kernel can rely on: what each command does to the state, what it answers,
//! what the subscribers are told, and what is kept on disk.

use crate::commands::{CommandResponse, Commands, DataUpdate, DownstreamMessage, UpdateChannelMessage};
use crate::hub::WsHub;
use crate::json::{json_string, json_text_of_bytes, lossy_text};
use crate::kernel::{
    tells_bucket, tells_buckets, updates_in, updates_view, Outcome, PersistRequest, SyncpondKernel,
};
use crate::kernel_state::{AppView, FragmentView, RoomCommandView, RoomView};
use crate::kernel_state_calls::{
    fits, in_memory, kept, same_but_for, same_data, same_elsewhere,
};
use crate::loading::StoredRoom;
use crate::text::trim;
use vstd::prelude::*;
use vstd::string::*;
use vstd::utf8::encode_utf8;

verus! {

/// Whether a command told no one of anything and had nothing kept.
pub open spec fn silent(r: Outcome) -> bool {
    r.update is None && r.persist is None
}

/// The value that bytes stand for: what they denote as JSON, else a string that holds them.
pub open spec fn denoted(data: Seq<u8>) -> Seq<char> {
    if json_text_of_bytes(data) is Ok {
        json_text_of_bytes(data)->Ok_0
    } else {
        json_string(lossy_text(data))
    }
}

/// Whether a command for a room that is there but not in memory was turned down: it says so,
/// changes nothing, and nothing is told or kept.
pub open spec fn turned_down_rightly(before: AppView, after: AppView, id: u64, r: Outcome) -> bool {
    before.rooms.contains_key(id) && !before.rooms[id].loaded ==> {
        &&& r.response matches CommandResponse::LoadRoomResponse(Err(e))
        &&& e@ == "room_not_loaded"@
        &&& after == before
        &&& silent(r)
    }
}

// ---------------------------------------------------------------------------
// Changes
// ---------------------------------------------------------------------------

/// Whether a room was made: it has a number that no room had, is empty and in memory, and has the
/// name as its label if that has between one and 256 bytes and is no other room's. The labels and
/// rooms that were there stay.
pub open spec fn room_made(before: AppView, after: AppView, id: u64, name: Seq<char>) -> bool {
    &&& !before.rooms.contains_key(id)
    &&& after.rooms.dom() == before.rooms.dom().insert(id)
    &&& forall|other: u64|
        before.rooms.contains_key(other) ==> #[trigger] after.rooms[other] == before.rooms[other]
    &&& forall|b: u64| !#[trigger] after.rooms[id].buckets.contains_key(b)
    &&& forall|b: u64| !#[trigger] after.rooms[id].bucket_labels.contains_key(b)
    &&& forall|b: u64| !#[trigger] after.rooms[id].bucket_flags.contains_key(b)
    &&& forall|m: Seq<char>| !#[trigger] after.rooms[id].members.contains(m)
    &&& after.rooms[id].room_counter == 0
    &&& after.rooms[id].tx_buffer is None
    &&& in_memory(after, id)
    &&& after.next_room_id == before.next_room_id + 1
    &&& after == AppView {
        rooms: after.rooms,
        labels: after.labels,
        next_room_id: after.next_room_id,
        ..before
    }
    &&& after.labels == if fits(name) && !before.labels.contains_key(trim(name)) {
        before.labels.insert(trim(name), id)
    } else {
        before.labels
    }
}

/// Whether a room is gone, and no label leads to it; every other room and every label of another
/// room stays.
pub open spec fn room_gone(before: AppView, after: AppView, id: u64) -> bool {
    &&& after == AppView { rooms: after.rooms, labels: after.labels, ..before }
    &&& forall|other: u64| #[trigger]
        after.rooms.contains_key(other) <==> before.rooms.contains_key(other) && other != id
    &&& forall|other: u64| #[trigger]
        after.rooms.contains_key(other) ==> after.rooms[other] == before.rooms[other]
    &&& forall|label: Seq<char>| #[trigger]
        after.labels.contains_key(label) <==> before.labels.contains_key(label)
            && before.labels[label] != id
    &&& forall|label: Seq<char>| #[trigger]
        after.labels.contains_key(label) ==> after.labels[label] == before.labels[label]
}

/// Whether a room holds exactly what was kept of it: the values by bucket and key, the buckets that
/// have a record or a value, their labels and flags, and the members. The versions of the values
/// come after the one that the room had, and no two are the same.
pub open spec fn room_filled(before: RoomView, after: RoomView, stored: StoredRoom) -> bool {
    let values = stored.fragments@;
    let records = stored.records@;
    &&& after.loaded
    &&& after.tx_buffer == before.tx_buffer
    &&& after.room_counter == before.room_counter + Set::new(
        |place: (u64, Seq<char>)|
            values.contains_key(place.0) && values[place.0].contains_key(place.1),
    ).len()
    &&& forall|m: Seq<char>| #[trigger] after.members.contains(m) <==> stored.members@.contains(m)
    &&& forall|b: u64| #[trigger]
        after.buckets.contains_key(b) <==> records.contains_key(b) || values.contains_key(b)
    &&& forall|b: u64, k: Seq<char>| #[trigger]
        after.holds(b, k) <==> values.contains_key(b) && values[b].contains_key(k)
    &&& forall|b: u64, k: Seq<char>| #[trigger]
        after.holds(b, k) ==> after.buckets[b][k].value == values[b][k] && before.room_counter
            < after.buckets[b][k].key_version <= after.room_counter
    &&& forall|b1: u64, k1: Seq<char>, b2: u64, k2: Seq<char>|
        #[trigger] after.holds(b1, k1) && #[trigger] after.holds(b2, k2)
            && after.buckets[b1][k1].key_version == after.buckets[b2][k2].key_version ==> b1 == b2
            && k1 == k2
    &&& forall|b: u64| #[trigger]
        after.bucket_labels.contains_key(b) <==> records.contains_key(b) && records[b].label is Some
    &&& forall|b: u64| #[trigger]
        after.bucket_labels.contains_key(b) ==> records[b].label == Some(after.bucket_labels[b])
    &&& forall|b: u64| #[trigger] after.bucket_flags.contains_key(b) <==> records.contains_key(b)
    &&& forall|b: u64| #[trigger]
        after.bucket_flags.contains_key(b) ==> after.bucket_flags[b] == records[b].flags
}

/// The places of the values that are kept are those that have a value.
pub(crate) proof fn lemma_places(values: Map<u64, Map<Seq<char>, Seq<char>>>)
    ensures
        Set::new(
            |place: (u64, Seq<char>)|
                values.contains_key(place.0) && values[place.0].contains_key(place.1),
        ) == crate::kernel_state::fragment_places(values),
{
    assert(Set::new(
        |place: (u64, Seq<char>)|
            values.contains_key(place.0) && values[place.0].contains_key(place.1),
    ) =~= crate::kernel_state::fragment_places(values));
}

/// Whether a room holds nothing in memory any more, but has its version.
pub open spec fn room_emptied(before: RoomView, after: RoomView) -> bool {
    &&& !after.loaded
    &&& after.room_counter == before.room_counter
    &&& after.tx_buffer is None
    &&& forall|b: u64| !#[trigger] after.buckets.contains_key(b)
    &&& forall|b: u64| !#[trigger] after.bucket_labels.contains_key(b)
    &&& forall|b: u64| !#[trigger] after.bucket_flags.contains_key(b)
    &&& forall|m: Seq<char>| !#[trigger] after.members.contains(m)
}

/// Whether a bucket was made: no entry of any bucket changed, a label that is not blank is on it,
/// and its flags are what they were, or zero if it had none.
pub open spec fn bucket_made(
    before: RoomView,
    after: RoomView,
    bucket_id: u64,
    label: Seq<char>,
) -> bool {
    &&& forall|b: u64, k: Seq<char>| #[trigger] after.holds(b, k) <==> before.holds(b, k)
    &&& forall|b: u64, k: Seq<char>| #[trigger]
        after.holds(b, k) ==> after.buckets[b][k] == before.buckets[b][k]
    &&& forall|b: u64| #[trigger]
        after.buckets.contains_key(b) <==> before.buckets.contains_key(b) || b == bucket_id
    &&& after.room_counter == before.room_counter
    &&& after.tx_buffer == before.tx_buffer
    &&& after.members == before.members
    &&& after.loaded
    &&& after.bucket_labels == if trim(label).len() > 0 {
        before.bucket_labels.insert(bucket_id, trim(label))
    } else {
        before.bucket_labels
    }
    &&& after.bucket_flags == if before.bucket_flags.contains_key(bucket_id) {
        before.bucket_flags
    } else {
        before.bucket_flags.insert(bucket_id, 0)
    }
}

/// Whether a bucket is gone with what was in it, its label and its flags; all else stays.
pub open spec fn bucket_gone(before: RoomView, after: RoomView, bucket_id: u64) -> bool {
    &&& forall|b: u64| #[trigger]
        after.buckets.contains_key(b) <==> before.buckets.contains_key(b) && b != bucket_id
    &&& forall|b: u64| #[trigger]
        after.buckets.contains_key(b) ==> after.buckets[b] == before.buckets[b]
    &&& after.bucket_labels == before.bucket_labels.remove(bucket_id)
    &&& after.bucket_flags == before.bucket_flags.remove(bucket_id)
    &&& after.room_counter == before.room_counter
    &&& after.tx_buffer == before.tx_buffer
    &&& after.members == before.members
    &&& after.loaded
}

/// Whether a name that is not blank was made a member, without the white space around it; all else
/// stays.
pub open spec fn member_added(before: RoomView, after: RoomView, member: Seq<char>) -> bool {
    &&& same_data(before, after)
    &&& after.bucket_labels == before.bucket_labels
    &&& after.bucket_flags == before.bucket_flags
    &&& forall|m: Seq<char>| #[trigger]
        after.members.contains(m) <==> before.members.contains(m) || (m == trim(member) && m.len()
            > 0)
}

/// Whether a name, without the white space around it, is a member no more; all else stays.
pub open spec fn member_gone(before: RoomView, after: RoomView, member: Seq<char>) -> bool {
    &&& same_data(before, after)
    &&& after.bucket_labels == before.bucket_labels
    &&& after.bucket_flags == before.bucket_flags
    &&& forall|m: Seq<char>| #[trigger]
        after.members.contains(m) <==> before.members.contains(m) && m != trim(member)
}

/// Whether a value was written under a key: outside a transaction it stands there at a version that
/// is one more than that of the room before, and no other key is touched; in a transaction it waits
/// at the end of the row.
pub open spec fn value_written(
    before: RoomView,
    after: RoomView,
    bucket_id: u64,
    key: Seq<char>,
    value: Seq<char>,
) -> bool {
    &&& kept(before, after)
    &&& match before.tx_buffer {
        Some(waiting) => {
            &&& after.buckets == before.buckets
            &&& after.room_counter == before.room_counter
            &&& after.tx_buffer == Some(
                waiting.push(RoomCommandView::SetValue { bucket_id, key, value }),
            )
        },
        None => {
            &&& after.tx_buffer is None
            &&& after.room_counter == before.room_counter + 1
            &&& after.holds(bucket_id, key)
            &&& after.buckets[bucket_id][key] == (FragmentView {
                value,
                key_version: (before.room_counter + 1) as u64,
            })
            &&& same_but_for(before, after, bucket_id, key)
            &&& forall|b: u64| #[trigger]
                after.buckets.contains_key(b) <==> before.buckets.contains_key(b) || b == bucket_id
        },
    }
}

// ---------------------------------------------------------------------------
// Rooms
// ---------------------------------------------------------------------------

/// A new room has a number that no room had before, and that is what is answered. It is empty and
/// in memory. It has the name as its label if that has between one and 256 bytes and is no other
/// room's; the labels and rooms that were there stay.
pub proof fn law_new_room(kernel: &mut SyncpondKernel, name: String, r: Outcome)
    requires
        call_ensures(SyncpondKernel::handle_command, (kernel, Commands::NewRoom(name)), r),
        old(kernel).state@.valid(),
        old(kernel).state@.next_room_id < u64::MAX,
    ensures
        silent(r),
        ({
            let before = old(kernel).state@;
            let after = final(kernel).state@;
            r.response matches CommandResponse::NewRoomResponse(id) && room_made(
                before,
                after,
                id,
                name@,
            )
        }),
{
    let before = old(kernel).state@;
    let after = final(kernel).state@;
    let id = before.next_room_id;
    assert(after.rooms.dom() =~= before.rooms.dom().insert(id));
    if before.labels.contains_key(trim(name@)) {
        assert(before.rooms.contains_key(before.labels[trim(name@)]));
    }
}

/// A closed room is gone, and no label leads to it; every other room and every label of another
/// room stays. Closing a room that is not there changes nothing.
pub proof fn law_close_room(kernel: &mut SyncpondKernel, room_id: u64, r: Outcome)
    requires
        call_ensures(SyncpondKernel::handle_command, (kernel, Commands::CloseRoom(room_id)), r),
    ensures
        silent(r),
        r.response is CloseRoomResponse,
        ({
            let before = old(kernel).state@;
            let after = final(kernel).state@;
            if before.rooms.contains_key(room_id) {
                room_gone(before, after, room_id)
            } else {
                after == before
            }
        }),
{
}

/// Deleting a room does what closing it does, and tells whether it was there.
pub proof fn law_delete_room(kernel: &mut SyncpondKernel, room_id: u64, r: Result<(), String>)
    requires
        call_ensures(SyncpondKernel::delete_room, (kernel, room_id), r),
    ensures
        r is Ok <==> old(kernel).state@.rooms.contains_key(room_id),
        r matches Err(e) ==> e@ == "room_not_found"@ && final(kernel).state@ == old(kernel).state@,
        r is Ok ==> room_gone(old(kernel).state@, final(kernel).state@, room_id),
{
}

/// A room that is loaded holds exactly what was kept of it: the values by bucket and key, the
/// buckets that have a record or a value, their labels and flags, and the members. The versions
/// of the values come after the one that the room had, and no two are the same. Other rooms and
/// the labels of rooms stay.
pub proof fn law_load_room(kernel: &mut SyncpondKernel, room_id: u64, stored: StoredRoom, r: Outcome)
    requires
        call_ensures(
            SyncpondKernel::handle_command,
            (kernel, Commands::LoadRoom(room_id, stored)),
            r,
        ),
    ensures
        silent(r),
        !old(kernel).state@.rooms.contains_key(room_id) ==> final(kernel).state@ == old(
            kernel,
        ).state@ && (r.response matches CommandResponse::LoadRoomResponse(Err(e)) && e@
            == "room_not_found"@),
        old(kernel).state@.rooms.contains_key(room_id) ==> {
            &&& r.response matches CommandResponse::LoadRoomResponse(Ok(_))
            &&& same_elsewhere(old(kernel).state@, final(kernel).state@, room_id)
            &&& room_filled(
                old(kernel).state@.rooms[room_id],
                final(kernel).state@.rooms[room_id],
                stored,
            )
        },
{
    lemma_places(stored.fragments@);
}

/// A room that is unloaded holds nothing in memory any more, keeps its version, and waits to be
/// loaded. Other rooms and the labels of rooms stay.
pub proof fn law_unload_room(kernel: &mut SyncpondKernel, room_id: u64, r: Outcome)
    requires
        call_ensures(SyncpondKernel::handle_command, (kernel, Commands::UnloadRoom(room_id)), r),
    ensures
        silent(r),
        !old(kernel).state@.rooms.contains_key(room_id) ==> final(kernel).state@ == old(
            kernel,
        ).state@ && (r.response matches CommandResponse::UnloadRoomResponse(Err(e)) && e@
            == "room_not_found"@),
        old(kernel).state@.rooms.contains_key(room_id) ==> {
            &&& r.response matches CommandResponse::UnloadRoomResponse(Ok(_))
            &&& same_elsewhere(old(kernel).state@, final(kernel).state@, room_id)
            &&& room_emptied(
                old(kernel).state@.rooms[room_id],
                final(kernel).state@.rooms[room_id],
            )
        },
{
}

// ---------------------------------------------------------------------------
// Buckets and members
// ---------------------------------------------------------------------------

/// Making a bucket changes no entry of any bucket: a bucket that is there keeps all that is in it,
/// and a new one is empty. A label that is not blank is put on it; its flags stay, or are zero if
/// it had none. Other buckets, the version and the members stay. The bucket is kept on disk.
pub proof fn law_new_bucket(
    kernel: &mut SyncpondKernel,
    room_id: u64,
    bucket_id: u64,
    label: String,
    r: Outcome,
)
    requires
        call_ensures(
            SyncpondKernel::handle_command,
            (kernel, Commands::NewBucket(room_id, bucket_id, label)),
            r,
        ),
    ensures
        turned_down_rightly(old(kernel).state@, final(kernel).state@, room_id, r),
        !old(kernel).state@.rooms.contains_key(room_id) ==> final(kernel).state@ == old(
            kernel,
        ).state@ && silent(r) && r.response is NewBucketResponse,
        in_memory(old(kernel).state@, room_id) ==> {
            let before = old(kernel).state@.rooms[room_id];
            let after = final(kernel).state@.rooms[room_id];
            &&& r.response is NewBucketResponse
            &&& r.update is None
            &&& same_elsewhere(old(kernel).state@, final(kernel).state@, room_id)
            &&& bucket_made(before, after, bucket_id, label@)
            &&& r.persist matches Some(PersistRequest::SaveBucket { room_id: of, record })
            &&& of == room_id
            &&& record@.id == bucket_id
            &&& record@.flags == 0
            &&& record@.label == if trim(label@).len() > 0 {
                Some(trim(label@))
            } else {
                None
            }
        },
{
    assert(r.persist matches Some(p) ==> p@ == crate::kernel::optional_persist(r.persist)->0);
}

/// What was written before a bucket was made is read back after it.
pub proof fn law_new_bucket_keeps_what_was_written(
    kernel: &mut SyncpondKernel,
    room_id: u64,
    bucket_id: u64,
    label: String,
    made: Outcome,
    before: &mut SyncpondKernel,
    later: &mut SyncpondKernel,
    of: u64,
    key: String,
    first: Outcome,
    second: Outcome,
)
    requires
        call_ensures(
            SyncpondKernel::handle_command,
            (kernel, Commands::NewBucket(room_id, bucket_id, label)),
            made,
        ),
        in_memory(old(kernel).state@, room_id),
        old(before).state@ == old(kernel).state@,
        old(later).state@ == final(kernel).state@,
        call_ensures(
            SyncpondKernel::handle_command,
            (before, Commands::ReadFragment(room_id, of, key)),
            first,
        ),
        call_ensures(
            SyncpondKernel::handle_command,
            (later, Commands::ReadFragment(room_id, of, key)),
            second,
        ),
    ensures
        match (first.response, second.response) {
            (
                CommandResponse::FragmentReadResponse(Some(a)),
                CommandResponse::FragmentReadResponse(Some(b)),
            ) => a@ == b@,
            (
                CommandResponse::FragmentReadResponse(None),
                CommandResponse::FragmentReadResponse(None),
            ) => true,
            _ => false,
        },
{
    law_new_bucket(kernel, room_id, bucket_id, label, made);
    law_read_fragment(before, room_id, of, key, first);
    law_read_fragment(later, room_id, of, key, second);
    let a = old(kernel).state@.rooms[room_id];
    let b = final(kernel).state@.rooms[room_id];
    assert(b.holds(of, key@) <==> a.holds(of, key@));
}

/// A bucket that is deleted is gone with what is in it, its label and its flags; other buckets, the
/// version and the members stay. It is taken off the disk.
pub proof fn law_delete_bucket(
    kernel: &mut SyncpondKernel,
    room_id: u64,
    bucket_id: u64,
    r: Outcome,
)
    requires
        call_ensures(
            SyncpondKernel::handle_command,
            (kernel, Commands::DeleteBucket(room_id, bucket_id)),
            r,
        ),
    ensures
        turned_down_rightly(old(kernel).state@, final(kernel).state@, room_id, r),
        !old(kernel).state@.rooms.contains_key(room_id) ==> final(kernel).state@ == old(
            kernel,
        ).state@ && silent(r) && r.response is DeleteBucketResponse,
        in_memory(old(kernel).state@, room_id) ==> {
            let before = old(kernel).state@.rooms[room_id];
            let after = final(kernel).state@.rooms[room_id];
            &&& r.response is DeleteBucketResponse
            &&& r.update is None
            &&& same_elsewhere(old(kernel).state@, final(kernel).state@, room_id)
            &&& bucket_gone(before, after, bucket_id)
            &&& r.persist == Some(PersistRequest::RemoveBucket { room_id, bucket_id })
        },
{
    assert(r.persist matches Some(p) ==> p@ == crate::kernel::optional_persist(r.persist)->0);
}

/// A name that is not blank becomes a member, without the white space around it, and is kept on
/// disk. The other members stay, and nothing else changes.
pub proof fn law_new_member(kernel: &mut SyncpondKernel, room_id: u64, member: String, r: Outcome)
    requires
        call_ensures(
            SyncpondKernel::handle_command,
            (kernel, Commands::NewMember(room_id, member)),
            r,
        ),
    ensures
        turned_down_rightly(old(kernel).state@, final(kernel).state@, room_id, r),
        !old(kernel).state@.rooms.contains_key(room_id) ==> final(kernel).state@ == old(
            kernel,
        ).state@ && silent(r) && r.response is NewMemberResponse,
        in_memory(old(kernel).state@, room_id) ==> {
            let before = old(kernel).state@.rooms[room_id];
            let after = final(kernel).state@.rooms[room_id];
            &&& r.response is NewMemberResponse
            &&& r.update is None
            &&& same_elsewhere(old(kernel).state@, final(kernel).state@, room_id)
            &&& member_added(before, after, member@)
            &&& trim(member@).len() == 0 ==> r.persist is None
            &&& trim(member@).len() > 0 ==> (r.persist matches Some(
                PersistRequest::SaveMember { room_id: of, member: name },
            ) && of == room_id && name@ == trim(member@))
        },
{
    assert(r.persist matches Some(p) ==> p@ == crate::kernel::optional_persist(r.persist)->0);
}

/// A name, without the white space around it, is a member no more, also on disk. The other members
/// stay, and nothing else changes.
pub proof fn law_delete_member(kernel: &mut SyncpondKernel, room_id: u64, member: String, r: Outcome)
    requires
        call_ensures(
            SyncpondKernel::handle_command,
            (kernel, Commands::DeleteMember(room_id, member)),
            r,
        ),
    ensures
        turned_down_rightly(old(kernel).state@, final(kernel).state@, room_id, r),
        !old(kernel).state@.rooms.contains_key(room_id) ==> final(kernel).state@ == old(
            kernel,
        ).state@ && silent(r) && r.response is DeleteMemberResponse,
        in_memory(old(kernel).state@, room_id) ==> {
            let before = old(kernel).state@.rooms[room_id];
            let after = final(kernel).state@.rooms[room_id];
            &&& r.response is DeleteMemberResponse
            &&& r.update is None
            &&& same_elsewhere(old(kernel).state@, final(kernel).state@, room_id)
            &&& member_gone(before, after, member@)
            &&& r.persist matches Some(PersistRequest::RemoveMember { room_id: of, member: name })
            &&& of == room_id
            &&& name@ == trim(member@)
        },
{
    assert(r.persist matches Some(p) ==> p@ == crate::kernel::optional_persist(r.persist)->0);
}

// ---------------------------------------------------------------------------
// Fragments
// ---------------------------------------------------------------------------

/// Whether the subscribers are told of a write, with a version, and it is kept on disk, or taken off
/// it if it is a null.
pub open spec fn tells_write(
    r: Outcome,
    room_id: u64,
    bucket_id: u64,
    key: Seq<char>,
    value: Seq<char>,
    version: u64,
) -> bool {
    &&& r.update matches Some(told)
    &&& told@.bucket_id == bucket_id
    &&& told@.key == key
    &&& told@.value == Some(value)
    &&& told@.bucket_counter == version
    &&& value != "null"@ ==> (r.persist matches Some(
        PersistRequest::SaveFragment { room_id: of, bucket_id: b, key: k, value: v },
    ) && of == room_id && b == bucket_id && k@ == key && v@ == value)
    &&& value == "null"@ ==> (r.persist matches Some(
        PersistRequest::RemoveFragment { room_id: of, bucket_id: b, key: k },
    ) && of == room_id && b == bucket_id && k@ == key)
}

/// A write to a room in memory outside a transaction puts the value that the bytes stand for under
/// the key, at a version that is one more than that of the room, and touches no other key. In a
/// transaction it waits at the end of the row. The subscribers are told the bucket, the key, the
/// value and the version of the room. The value is kept on disk; a null is taken off it.
pub proof fn law_write_fragment(
    kernel: &mut SyncpondKernel,
    room_id: u64,
    bucket_id: u64,
    key: String,
    data: Vec<u8>,
    r: Outcome,
)
    requires
        call_ensures(
            SyncpondKernel::handle_command,
            (kernel, Commands::WriteFragment(room_id, bucket_id, key, data)),
            r,
        ),
        in_memory(old(kernel).state@, room_id) && old(kernel).state@.rooms[room_id].tx_buffer is None
            ==> old(kernel).state@.rooms[room_id].room_counter < u64::MAX,
    ensures
        turned_down_rightly(old(kernel).state@, final(kernel).state@, room_id, r),
        !old(kernel).state@.rooms.contains_key(room_id) ==> final(kernel).state@ == old(
            kernel,
        ).state@ && r.response is FragmentWriteResponse && tells_write(
            r,
            room_id,
            bucket_id,
            key@,
            denoted(data@),
            0,
        ),
        in_memory(old(kernel).state@, room_id) ==> {
            let before = old(kernel).state@.rooms[room_id];
            let after = final(kernel).state@.rooms[room_id];
            let value = denoted(data@);
            &&& r.response is FragmentWriteResponse
            &&& same_elsewhere(old(kernel).state@, final(kernel).state@, room_id)
            &&& value_written(before, after, bucket_id, key@, value)
            &&& tells_write(r, room_id, bucket_id, key@, value, after.room_counter)
        },
{
    assert(r.persist matches Some(p) ==> p@ == crate::kernel::optional_persist(r.persist)->0);
    assert(r.update matches Some(u) ==> u@ == crate::kernel::optional_update(r.update)->0);
}

/// A read of a room in memory gives the bytes of the value under the key, if there is one and it is
/// not a null; else nothing. It changes nothing. A room that is not in memory is not read.
pub proof fn law_read_fragment(
    kernel: &mut SyncpondKernel,
    room_id: u64,
    bucket_id: u64,
    key: String,
    r: Outcome,
)
    requires
        call_ensures(
            SyncpondKernel::handle_command,
            (kernel, Commands::ReadFragment(room_id, bucket_id, key)),
            r,
        ),
    ensures
        final(kernel).state@ == old(kernel).state@,
        silent(r),
        !in_memory(old(kernel).state@, room_id) ==> (
        r.response matches CommandResponse::LoadRoomResponse(Err(e)) && e@ == "room_not_loaded"@),
        in_memory(old(kernel).state@, room_id) ==> {
            let room = old(kernel).state@.rooms[room_id];
            if room.holds(bucket_id, key@) && room.buckets[bucket_id][key@].value != "null"@ {
                r.response matches CommandResponse::FragmentReadResponse(Some(bytes)) && bytes@
                    == encode_utf8(room.buckets[bucket_id][key@].value)
            } else {
                r.response == CommandResponse::FragmentReadResponse(None)
            }
        },
{
}

/// The remaining commands are acknowledged and change nothing.
pub proof fn law_other_commands_change_nothing(kernel: &mut SyncpondKernel, cmd: Commands, r: Outcome)
    requires
        call_ensures(SyncpondKernel::handle_command, (kernel, cmd), r),
        cmd is SetFragmentFlags || cmd is WsMessage,
    ensures
        final(kernel).state@ == old(kernel).state@,
        silent(r),
        cmd is SetFragmentFlags ==> r.response is SetFragmentFlagsResponse,
        cmd is WsMessage ==> r.response is WsMessageAck,
{
}

// ---------------------------------------------------------------------------
// Clients that connect
// ---------------------------------------------------------------------------

/// Whether a row of updates tells exactly of the values of the buckets asked for: each update is
/// of a bucket asked for and says what the room holds under its key, which is not a null, and of
/// every such key there is an update.
pub open spec fn tells_all(row: Seq<DataUpdate>, requested: Seq<u64>, room: RoomView) -> bool {
    &&& forall|i: int| #![trigger row[i]]
        0 <= i < row.len() ==> {
            let u = row[i]@;
            &&& requested.contains(u.bucket_id)
            &&& room.holds(u.bucket_id, u.key)
            &&& room.buckets[u.bucket_id][u.key].value != "null"@
            &&& u.value == Some(room.buckets[u.bucket_id][u.key].value)
            &&& u.bucket_counter == room.buckets[u.bucket_id][u.key].key_version
        }
    &&& forall|b: u64, k: Seq<char>|
        requested.contains(b) && #[trigger] room.holds(b, k) && room.buckets[b][k].value != "null"@
            ==> exists|i: int| 0 <= i < row.len() && #[trigger] row[i]@.bucket_id == b && row[i]@.key
            == k
}

/// Whether no two updates of a row are of the same key.
pub open spec fn tells_once(row: Seq<DataUpdate>) -> bool {
    forall|i: int, j: int|
        0 <= i < j < row.len() ==> (#[trigger] row[i]@).bucket_id != (#[trigger] row[j]@).bucket_id
            || row[i]@.key != row[j]@.key
}

proof fn lemma_tells_all(row: Seq<DataUpdate>, requested: Seq<u64>, room: RoomView)
    requires
        tells_buckets(updates_view(row), requested, room),
    ensures
        tells_all(row, requested, room),
        requested.no_duplicates() ==> tells_once(row),
    decreases requested.len(),
{
    let views = updates_view(row);
    if requested.len() > 0 {
        let head = requested.drop_last();
        let last = requested.last();
        let n = choose|n: int|
            0 <= n <= views.len() && tells_buckets(#[trigger] views.take(n), head, room)
                && tells_bucket(views.skip(n), last, room.fragments(last));
        let first = row.take(n);
        let told = views.skip(n);
        assert(updates_view(first) =~= views.take(n));
        lemma_tells_all(first, head, room);
        assert forall|b: u64| requested.contains(b) == (head.contains(b) || b == last) by {
            if head.contains(b) {
                let i = choose|i: int| 0 <= i < head.len() && head[i] == b;
                assert(requested[i] == b);
            }
            if requested.contains(b) {
                let i = choose|i: int| 0 <= i < requested.len() && requested[i] == b;
                if i < head.len() {
                    assert(head[i] == b);
                }
            }
            assert(requested[requested.len() - 1] == last);
        }
        assert forall|i: int| 0 <= i < row.len() implies {
            let u = (#[trigger] row[i])@;
            &&& requested.contains(u.bucket_id)
            &&& room.holds(u.bucket_id, u.key)
            &&& room.buckets[u.bucket_id][u.key].value != "null"@
            &&& u.value == Some(room.buckets[u.bucket_id][u.key].value)
            &&& u.bucket_counter == room.buckets[u.bucket_id][u.key].key_version
        } by {
            if i < n {
                assert(first[i] == row[i]);
            } else {
                assert(told[i - n] == row[i]@);
            }
        }
        assert forall|b: u64, k: Seq<char>|
            requested.contains(b) && #[trigger] room.holds(b, k) && room.buckets[b][k].value
                != "null"@ implies exists|i: int|
            0 <= i < row.len() && #[trigger] row[i]@.bucket_id == b && row[i]@.key == k by {
            if head.contains(b) {
                let i = choose|i: int|
                    0 <= i < first.len() && #[trigger] first[i]@.bucket_id == b && first[i]@.key
                        == k;
                assert(row[i]@.bucket_id == b);
            } else {
                assert(room.fragments(last).contains_key(k));
                let i = choose|i: int| 0 <= i < told.len() && (#[trigger] told[i]).key == k;
                assert(told[i] == row[i + n]@);
                assert(row[i + n]@.bucket_id == b);
            }
        }
        if requested.no_duplicates() {
            assert(head.no_duplicates());
            assert(!head.contains(last)) by {
                if head.contains(last) {
                    let i = choose|i: int| 0 <= i < head.len() && head[i] == last;
                    assert(requested[i] == requested[requested.len() - 1]);
                }
            }
            assert forall|i: int, j: int| 0 <= i < j < row.len() implies (
            #[trigger] row[i]@).bucket_id != (#[trigger] row[j]@).bucket_id || row[i]@.key
                != row[j]@.key by {
                if j < n {
                    assert(first[i]@ == row[i]@ && first[j]@ == row[j]@);
                } else if i < n {
                    assert(first[i] == row[i]);
                    assert(told[j - n] == row[j]@);
                } else {
                    assert(told[i - n] == row[i]@ && told[j - n] == row[j]@);
                }
            }
        }
    } else {
        assert(views.len() == row.len());
    }
}

/// A client that has connected is told exactly the values of the buckets it asked for in its room,
/// each once if it asked for no bucket twice. Of a connection or a room that is not there nothing
/// is told.
pub proof fn law_connected_clients_are_told_all(
    kernel: &SyncpondKernel,
    hub: &WsHub,
    conn_id: u64,
    requested: &[u64],
    r: Vec<DataUpdate>,
)
    requires
        call_ensures(
            SyncpondKernel::handle_client_connected,
            (kernel, hub, conn_id, requested),
            r,
        ),
    ensures
        ({
            let room_id = hub@.connections[conn_id].room_id;
            if hub@.connections.contains_key(conn_id) && kernel.state@.rooms.contains_key(room_id) {
                &&& tells_all(r@, requested@, kernel.state@.rooms[room_id])
                &&& requested@.no_duplicates() ==> tells_once(r@)
            } else {
                r@.len() == 0
            }
        }),
{
    let room_id = hub@.connections[conn_id].room_id;
    if hub@.connections.contains_key(conn_id) && kernel.state@.rooms.contains_key(room_id) {
        lemma_tells_all(r@, requested@, kernel.state@.rooms[room_id]);
    }
}

/// The updates that bring a client up to date tell exactly of the values of the buckets asked for.
pub proof fn law_first_updates_tell_all(
    room: &crate::kernel_state::RoomState,
    requested: &[u64],
    r: Vec<DataUpdate>,
)
    requires
        call_ensures(crate::kernel::initial_sync, (room, requested), r),
    ensures
        tells_all(r@, requested@, room@),
        requested@.no_duplicates() ==> tells_once(r@),
{
    lemma_tells_all(r@, requested@, room@);
}

/// Of what comes from the websocket server, only a client that has connected is answered: it, and
/// no one else, is told exactly the values of the buckets it asked for in its room.
pub proof fn law_only_connected_clients_are_answered(
    kernel: &SyncpondKernel,
    hub: &WsHub,
    message: DownstreamMessage,
    r: Vec<UpdateChannelMessage>,
    told: Seq<DataUpdate>,
)
    requires
        call_ensures(SyncpondKernel::handle_downstream_message, (kernel, hub, message), r),
        told.len() == r@.len(),
        forall|i: int|
            0 <= i < r@.len() ==> #[trigger] told[i] == match r@[i] {
                UpdateChannelMessage::Broadcast(update) => update,
                UpdateChannelMessage::Targeted { msg, .. } => msg,
            },
    ensures
        match message {
            DownstreamMessage::ClientConnected { conn_id, requested_buckets } => {
                let room_id = hub@.connections[conn_id].room_id;
                &&& forall|i: int|
                    0 <= i < r@.len() ==> (#[trigger] r@[i] matches UpdateChannelMessage::Targeted {
                        conn_id: target,
                        ..
                    } && target == conn_id)
                &&& if hub@.connections.contains_key(conn_id) && kernel.state@.rooms.contains_key(
                    room_id,
                ) {
                    &&& tells_all(told, requested_buckets@, kernel.state@.rooms[room_id])
                    &&& requested_buckets@.no_duplicates() ==> tells_once(told)
                } else {
                    r@.len() == 0
                }
            },
            _ => r@.len() == 0,
        },
{
    if let DownstreamMessage::ClientConnected { conn_id, requested_buckets } = message {
        let room_id = hub@.connections[conn_id].room_id;
        if hub@.connections.contains_key(conn_id) && kernel.state@.rooms.contains_key(room_id) {
            assert(updates_view(told) =~= updates_in(r@));
            lemma_tells_all(told, requested_buckets@, kernel.state@.rooms[room_id]);
        }
    }
}

/// A command can be given as long as the numbers that it needs are left: one for a new room, a version
/// for a write outside a transaction, and a version for each value of a room that is loaded.
pub proof fn law_what_can_be_commanded(kernel: &mut SyncpondKernel, cmd: Commands)
    requires
        match cmd {
            Commands::NewRoom(_) => old(kernel).state@.next_room_id < u64::MAX,
            Commands::WriteFragment(id, _, _, _) => in_memory(old(kernel).state@, id) && old(
                kernel,
            ).state@.rooms[id].tx_buffer is None ==> old(kernel).state@.rooms[id].room_counter
                < u64::MAX,
            Commands::LoadRoom(id, stored) => old(kernel).state@.rooms.contains_key(id) ==> old(
                kernel,
            ).state@.rooms[id].room_counter + Set::new(
                |place: (u64, Seq<char>)|
                    stored.fragments@.contains_key(place.0)
                        && stored.fragments@[place.0].contains_key(place.1),
            ).len() <= u64::MAX,
            _ => true,
        },
    ensures
        call_requires(SyncpondKernel::handle_command, (kernel, cmd)),
{
    if let Commands::LoadRoom(id, stored) = cmd {
        lemma_places(stored.fragments@);
    }
}

} // verus!
