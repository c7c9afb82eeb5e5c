//! What application servers can rely on when they call the service.

use crate::collections::texts;
use crate::commands::{CommandResponse, Commands, DataUpdate, UpdateView};
use crate::kernel::{updates_view, Outcome, PersistRequest, PersistView, SyncpondKernel};
use crate::kernel_calls::{
    bucket_gone, bucket_made, denoted, member_added, member_gone, room_emptied, room_filled,
    room_gone, room_made, value_written,
};
use crate::kernel_state::AppView;
use crate::kernel_state_calls::{
    can_sign, fits, grants_room, in_memory, may_have, missing_for_token, same_data,
    same_elsewhere,
};
use crate::loading::StoredRoom;
use crate::persistence::RecordView;
use crate::state_calls::later_of;
use crate::text::{decimal, precedes, trim};
use crate::tokens::clock_gave;
use crate::upstream::{
    check_api_key, failed_precondition, id_line, map_room_error, map_token_error, not_found,
    requests_view, CommandHandler, CommandServer, ServerView, Status, StatusCode,
};
use vstd::prelude::*;
use vstd::string::*;
use vstd::utf8::encode_utf8;

verus! {

/// Whether a call was turned down because its room is there but not in memory, and changed
/// nothing.
pub open spec fn turned_down_rightly(
    before: ServerView,
    after: ServerView,
    id: u64,
    r: Result<(), String>,
) -> bool {
    before.state.rooms.contains_key(id) && !before.state.rooms[id].loaded ==> (r matches Err(e) && e@
        == "room_not_loaded"@) && after == before
}

/// Whether a call told the subscribers of nothing more.
pub open spec fn tells_no_more(before: ServerView, after: ServerView) -> bool {
    after.updates == before.updates
}

/// Whether a call had nothing more kept on disk.
pub open spec fn keeps_no_more(before: ServerView, after: ServerView) -> bool {
    after.requests == before.requests
}

// ---------------------------------------------------------------------------
// Rooms
// ---------------------------------------------------------------------------

/// A new room is made as long as numbers are left, and its number is the answer.
pub proof fn law_new_room(server: &mut CommandServer, name: String, r: u64)
    requires
        call_ensures(<CommandServer as CommandHandler>::new_room, (server, name), r),
        old(server)@.state.valid(),
    ensures
        tells_no_more(old(server)@, final(server)@),
        keeps_no_more(old(server)@, final(server)@),
        old(server)@.state.next_room_id < u64::MAX ==> room_made(
            old(server)@.state,
            final(server)@.state,
            r,
            name@,
        ),
        old(server)@.state.next_room_id == u64::MAX ==> r == 0 && final(server)@ == old(server)@,
{
    let before = old(server)@.state;
    let after = final(server)@.state;
    if before.next_room_id < u64::MAX {
        assert(after.rooms.dom() =~= before.rooms.dom().insert(r));
        if before.labels.contains_key(trim(name@)) {
            assert(before.rooms.contains_key(before.labels[trim(name@)]));
        }
    }
}

/// The rooms are listed in ascending order of their numbers, each in a line of its own: the number,
/// a colon, and a label of the room if it has one.
pub proof fn law_rooms_are_listed(server: &CommandServer, r: Vec<String>) -> (ids: Seq<u64>)
    requires
        call_ensures(<CommandServer as CommandHandler>::list_rooms, (server,), r),
    ensures
        ids.len() == r@.len(),
        forall|i: int, j: int| 0 <= i < j < ids.len() ==> #[trigger] ids[i] < #[trigger] ids[j],
        forall|id: u64| #[trigger] ids.contains(id) <==> server@.state.rooms.contains_key(id),
        forall|i: int|
            0 <= i < ids.len() ==> {
                let head = decimal(ids[i] as nat) + ":"@;
                let labels = server@.state.labels;
                ||| (exists|label: Seq<char>| #[trigger]
                    labels.contains_key(label) && labels[label] == ids[i] && (#[trigger] r@[i])@
                        == head + label)
                ||| r@[i]@ == head && forall|label: Seq<char>| #[trigger]
                    labels.contains_key(label) ==> labels[label] != ids[i]
            },
{
    let s = server@.state;
    let lines = texts(r@);
    let ids = choose|ids: Seq<u64>|
        {
            &&& #[trigger] crate::upstream::lists_ids(ids, s.rooms.dom())
            &&& lines.len() == ids.len()
            &&& forall|i: int|
                0 <= i < ids.len() ==> crate::upstream::tells_room(
                    #[trigger] lines[i],
                    ids[i],
                    s.labels,
                )
        };
    assert forall|id: u64| #[trigger] ids.contains(id) <==> s.rooms.contains_key(id) by {
        assert(ids.to_set().contains(id) == s.rooms.dom().contains(id));
    }
    assert forall|i: int| 0 <= i < ids.len() implies {
        let head = decimal(ids[i] as nat) + ":"@;
        ||| (exists|label: Seq<char>| #[trigger]
            s.labels.contains_key(label) && s.labels[label] == ids[i] && (#[trigger] r@[i])@ == head
                + label)
        ||| r@[i]@ == head && forall|label: Seq<char>| #[trigger]
            s.labels.contains_key(label) ==> s.labels[label] != ids[i]
    } by {
        assert(lines[i] == r@[i]@);
        assert(crate::upstream::tells_room(lines[i], ids[i], s.labels));
        let head = decimal(ids[i] as nat) + ":"@;
        assert(id_line(ids[i], Seq::empty()) =~= head);
    }
    ids
}

/// A room that is deleted is gone; one that was not there is not found.
pub proof fn law_delete_room(server: &mut CommandServer, room_id: u64, r: Result<(), String>)
    requires
        call_ensures(<CommandServer as CommandHandler>::delete_room, (server, room_id), r),
    ensures
        r is Ok <==> old(server)@.state.rooms.contains_key(room_id),
        r matches Err(e) ==> e@ == "room_not_found"@ && final(server)@ == old(server)@,
        r is Ok ==> room_gone(old(server)@.state, final(server)@.state, room_id),
        tells_no_more(old(server)@, final(server)@),
        keeps_no_more(old(server)@, final(server)@),
{
}

/// A room is loaded from what is kept of it, as long as it is there and versions are left for its
/// values.
pub proof fn law_load_room(
    server: &mut CommandServer,
    room_id: u64,
    stored: StoredRoom,
    r: Result<(), String>,
)
    requires
        call_ensures(<CommandServer as CommandHandler>::load_room, (server, room_id, stored), r),
    ensures
        tells_no_more(old(server)@, final(server)@),
        keeps_no_more(old(server)@, final(server)@),
        !old(server)@.state.rooms.contains_key(room_id) ==> (r matches Err(e) && e@
            == "room_not_found"@),
        r is Err ==> final(server)@.state == old(server)@.state,
        old(server)@.state.rooms.contains_key(room_id) ==> {
            let room = old(server)@.state.rooms[room_id];
            let count = Set::new(
                |place: (u64, Seq<char>)|
                    stored.fragments@.contains_key(place.0)
                        && stored.fragments@[place.0].contains_key(place.1),
            ).len();
            &&& r is Ok <==> room.room_counter + count <= u64::MAX
            &&& r matches Err(e) ==> e@ == "load_room_failed"@
            &&& r is Ok ==> same_elsewhere(old(server)@.state, final(server)@.state, room_id)
                && room_filled(room, final(server)@.state.rooms[room_id], stored)
        },
{
    assert(Set::new(
        |place: (u64, Seq<char>)|
            stored.fragments@.contains_key(place.0) && stored.fragments@[place.0].contains_key(
                place.1,
            ),
    ) =~= crate::kernel_state::fragment_places(stored.fragments@));
}

/// A room that is there is unloaded.
pub proof fn law_unload_room(server: &mut CommandServer, room_id: u64, r: Result<(), String>)
    requires
        call_ensures(<CommandServer as CommandHandler>::unload_room, (server, room_id), r),
    ensures
        tells_no_more(old(server)@, final(server)@),
        keeps_no_more(old(server)@, final(server)@),
        r is Ok <==> old(server)@.state.rooms.contains_key(room_id),
        r matches Err(e) ==> e@ == "room_not_found"@ && final(server)@ == old(server)@,
        r is Ok ==> same_elsewhere(old(server)@.state, final(server)@.state, room_id)
            && room_emptied(
            old(server)@.state.rooms[room_id],
            final(server)@.state.rooms[room_id],
        ),
{
}

/// A token is issued exactly to a member of a room for buckets that it may have, by a server that
/// can sign, at the time that the clock gives, but later than the one before.
pub proof fn law_issue_jwt(
    server: &mut CommandServer,
    room_id: u64,
    sub: String,
    buckets: Vec<u64>,
    r: Result<String, String>,
)
    requires
        call_ensures(
            <CommandServer as CommandHandler>::issue_jwt,
            (server, room_id, sub, buckets),
            r,
        ),
    ensures
        tells_no_more(old(server)@, final(server)@),
        keeps_no_more(old(server)@, final(server)@),
        r is Ok <==> can_sign(old(server)@.state) && may_have(
            old(server)@.state,
            room_id,
            sub@,
            buckets@,
        ),
        r is Err ==> final(server)@.state == old(server)@.state,
        r matches Err(e) ==> {
            let missing = missing_for_token(old(server)@.state, room_id, sub@);
            &&& missing is JwtKeyNotConfigured ==> e@ == "jwt_key_not_configured"@
            &&& missing is JwtKeyTooShort ==> e@ == "jwt_key_too_short"@
            &&& missing is JwtIssuerAudienceNotConfigured ==> e@
                == "jwt_issuer_audience_not_configured"@
            &&& missing is RoomNotFound ==> e@ == "room_not_found"@
            &&& missing is InvalidMember ==> e@ == "invalid_member"@
            &&& missing is ReservedBucketId ==> e@ == "reserved_bucket_id"@
        },
        r matches Ok(token) ==> {
            let before = old(server)@.state;
            &&& final(server)@.state.last_jwt_issue_seconds matches Some(issued)
            &&& final(server)@.state == AppView { last_jwt_issue_seconds: Some(issued), ..before }
            &&& grants_room(before, room_id, sub@, buckets@, issued, token@)
            &&& exists|now: u64| #[trigger]
                clock_gave(now) && (before.last_jwt_issue_seconds is None ==> issued == now) && (
                before.last_jwt_issue_seconds matches Some(last) ==> (last < u64::MAX ==> issued
                    == later_of(now, last)))
        },
{
    crate::kernel_state_calls::lemma_granted(buckets@);
}

// ---------------------------------------------------------------------------
// Buckets and members
// ---------------------------------------------------------------------------

/// Making a bucket changes no entry: what is in a bucket that is there stays. It is to be kept on
/// disk. For a room that is not there nothing happens.
pub proof fn law_new_bucket(
    server: &mut CommandServer,
    room_id: u64,
    bucket_id: u64,
    label: String,
    r: Result<(), String>,
)
    requires
        call_ensures(
            <CommandServer as CommandHandler>::new_bucket,
            (server, room_id, bucket_id, label),
            r,
        ),
    ensures
        tells_no_more(old(server)@, final(server)@),
        turned_down_rightly(old(server)@, final(server)@, room_id, r),
        !old(server)@.state.rooms.contains_key(room_id) ==> r is Ok && final(server)@ == old(server)@,
        in_memory(old(server)@.state, room_id) ==> {
            &&& r is Ok
            &&& same_elsewhere(old(server)@.state, final(server)@.state, room_id)
            &&& bucket_made(
                old(server)@.state.rooms[room_id],
                final(server)@.state.rooms[room_id],
                bucket_id,
                label@,
            )
            &&& final(server)@.requests == old(server)@.requests.push(
                PersistView::SaveBucket {
                    room_id,
                    record: RecordView {
                        id: bucket_id,
                        label: if trim(label@).len() > 0 {
                            Some(trim(label@))
                        } else {
                            None
                        },
                        flags: 0,
                    },
                },
            )
        },
{
}

/// Making a bucket without a label does what making one with a blank label does.
pub proof fn law_create_bucket(
    server: &mut CommandServer,
    room_id: u64,
    bucket_id: u64,
    r: Result<(), String>,
)
    requires
        call_ensures(CommandServer::create_bucket, (server, room_id, bucket_id), r),
    ensures
        tells_no_more(old(server)@, final(server)@),
        turned_down_rightly(old(server)@, final(server)@, room_id, r),
        !old(server)@.state.rooms.contains_key(room_id) ==> r is Ok && final(server)@ == old(server)@,
        in_memory(old(server)@.state, room_id) ==> {
            &&& r is Ok
            &&& same_elsewhere(old(server)@.state, final(server)@.state, room_id)
            &&& bucket_made(
                old(server)@.state.rooms[room_id],
                final(server)@.state.rooms[room_id],
                bucket_id,
                Seq::empty(),
            )
            &&& final(server)@.requests == old(server)@.requests.push(
                PersistView::SaveBucket {
                    room_id,
                    record: RecordView { id: bucket_id, label: None, flags: 0 },
                },
            )
        },
{
    crate::text_laws::law_trim(Seq::empty());
}

/// A bucket that is deleted is gone, and is to be taken off the disk.
pub proof fn law_delete_bucket(
    server: &mut CommandServer,
    room_id: u64,
    bucket_id: u64,
    r: Result<(), String>,
)
    requires
        call_ensures(
            <CommandServer as CommandHandler>::delete_bucket,
            (server, room_id, bucket_id),
            r,
        ),
    ensures
        tells_no_more(old(server)@, final(server)@),
        turned_down_rightly(old(server)@, final(server)@, room_id, r),
        !old(server)@.state.rooms.contains_key(room_id) ==> r is Ok && final(server)@ == old(server)@,
        in_memory(old(server)@.state, room_id) ==> {
            &&& r is Ok
            &&& same_elsewhere(old(server)@.state, final(server)@.state, room_id)
            &&& bucket_gone(
                old(server)@.state.rooms[room_id],
                final(server)@.state.rooms[room_id],
                bucket_id,
            )
            &&& final(server)@.requests == old(server)@.requests.push(
                PersistView::RemoveBucket { room_id, bucket_id },
            )
        },
{
}

/// A name that is not blank becomes a member, and is to be kept on disk.
pub proof fn law_new_member(
    server: &mut CommandServer,
    room_id: u64,
    member: String,
    r: Result<(), String>,
)
    requires
        call_ensures(<CommandServer as CommandHandler>::new_member, (server, room_id, member), r),
    ensures
        tells_no_more(old(server)@, final(server)@),
        turned_down_rightly(old(server)@, final(server)@, room_id, r),
        !old(server)@.state.rooms.contains_key(room_id) ==> r is Ok && final(server)@ == old(server)@,
        in_memory(old(server)@.state, room_id) ==> {
            &&& r is Ok
            &&& same_elsewhere(old(server)@.state, final(server)@.state, room_id)
            &&& member_added(
                old(server)@.state.rooms[room_id],
                final(server)@.state.rooms[room_id],
                member@,
            )
            &&& final(server)@.requests == if trim(member@).len() > 0 {
                old(server)@.requests.push(
                    PersistView::SaveMember { room_id, member: trim(member@) },
                )
            } else {
                old(server)@.requests
            }
        },
{
}

/// A name is a member no more, and is to be taken off the disk.
pub proof fn law_delete_member(
    server: &mut CommandServer,
    room_id: u64,
    member: String,
    r: Result<(), String>,
)
    requires
        call_ensures(<CommandServer as CommandHandler>::delete_member, (server, room_id, member), r),
    ensures
        tells_no_more(old(server)@, final(server)@),
        turned_down_rightly(old(server)@, final(server)@, room_id, r),
        !old(server)@.state.rooms.contains_key(room_id) ==> r is Ok && final(server)@ == old(server)@,
        in_memory(old(server)@.state, room_id) ==> {
            &&& r is Ok
            &&& same_elsewhere(old(server)@.state, final(server)@.state, room_id)
            &&& member_gone(
                old(server)@.state.rooms[room_id],
                final(server)@.state.rooms[room_id],
                member@,
            )
            &&& final(server)@.requests == old(server)@.requests.push(
                PersistView::RemoveMember { room_id, member: trim(member@) },
            )
        },
{
}

/// The members of a room in memory are listed, each once and in their order, and no one else.
pub proof fn law_members_are_listed(server: &CommandServer, room_id: u64, r: Vec<String>)
    requires
        call_ensures(<CommandServer as CommandHandler>::list_members, (server, room_id), r),
    ensures
        !in_memory(server@.state, room_id) ==> r@.len() == 0,
        in_memory(server@.state, room_id) ==> {
            &&& forall|m: Seq<char>| #[trigger]
                texts(r@).contains(m) <==> server@.state.rooms[room_id].members.contains(m)
            &&& forall|i: int, j: int|
                0 <= i < j < r@.len() ==> precedes((#[trigger] r@[i])@, (#[trigger] r@[j])@)
        },
{
    if in_memory(server@.state, room_id) {
        assert forall|m: Seq<char>| #[trigger] texts(r@).contains(m)
            <==> server@.state.rooms[room_id].members.contains(m) by {
            assert(texts(r@).to_set().contains(m) == texts(r@).contains(m));
        }
        assert forall|i: int, j: int| 0 <= i < j < r@.len() implies precedes(
            (#[trigger] r@[i])@,
            (#[trigger] r@[j])@,
        ) by {
            assert(precedes(texts(r@)[i], texts(r@)[j]));
        }
    }
}

/// The buckets of a room in memory are listed in ascending order of their numbers, each in a line
/// of its own: the number, a colon, and the label if it has one.
pub proof fn law_buckets_are_listed(server: &CommandServer, room_id: u64, r: Vec<String>) -> (ids:
    Seq<u64>)
    requires
        call_ensures(<CommandServer as CommandHandler>::list_buckets, (server, room_id), r),
    ensures
        !in_memory(server@.state, room_id) ==> r@.len() == 0,
        in_memory(server@.state, room_id) ==> {
            let room = server@.state.rooms[room_id];
            &&& ids.len() == r@.len()
            &&& forall|i: int, j: int| 0 <= i < j < ids.len() ==> #[trigger] ids[i] < #[trigger] ids[j]
            &&& forall|b: u64| #[trigger] ids.contains(b) <==> room.buckets.contains_key(b)
            &&& forall|i: int|
                0 <= i < ids.len() ==> (#[trigger] r@[i])@ == decimal(ids[i] as nat) + ":"@ + (
                if room.bucket_labels.contains_key(ids[i]) {
                    room.bucket_labels[ids[i]]
                } else {
                    Seq::empty()
                })
        },
{
    if in_memory(server@.state, room_id) {
        let room = server@.state.rooms[room_id];
        let lines = texts(r@);
        let ids = choose|ids: Seq<u64>|
            {
                &&& #[trigger] crate::upstream::lists_ids(ids, room.buckets.dom())
                &&& lines.len() == ids.len()
                &&& forall|i: int|
                    0 <= i < ids.len() ==> #[trigger] lines[i] == id_line(
                        ids[i],
                        crate::upstream::bucket_label(room, ids[i]),
                    )
            };
        assert forall|b: u64| #[trigger] ids.contains(b) <==> room.buckets.contains_key(b) by {
            assert(ids.to_set().contains(b) == room.buckets.dom().contains(b));
        }
        assert forall|i: int| 0 <= i < ids.len() implies (#[trigger] r@[i])@ == decimal(
            ids[i] as nat,
        ) + ":"@ + (if room.bucket_labels.contains_key(ids[i]) {
            room.bucket_labels[ids[i]]
        } else {
            Seq::empty()
        }) by {
            assert(lines[i] == r@[i]@);
        }
        ids
    } else {
        Seq::empty()
    }
}

// ---------------------------------------------------------------------------
// Fragments
// ---------------------------------------------------------------------------

/// A read of a room in memory gives the bytes of the value under the key, if there is one and it is
/// not a null; else nothing. It changes nothing. A room that is not in memory is not read.
pub proof fn law_read_fragment(
    server: &mut CommandServer,
    room_id: u64,
    bucket_id: u64,
    key: String,
    r: Result<Option<Vec<u8>>, String>,
)
    requires
        call_ensures(
            <CommandServer as CommandHandler>::read_fragment,
            (server, room_id, bucket_id, key),
            r,
        ),
    ensures
        final(server)@ == old(server)@,
        !in_memory(old(server)@.state, room_id) ==> (r matches Err(e) && e@ == "room_not_loaded"@),
        in_memory(old(server)@.state, room_id) ==> {
            let room = old(server)@.state.rooms[room_id];
            if room.holds(bucket_id, key@) && room.buckets[bucket_id][key@].value != "null"@ {
                r matches Ok(Some(bytes)) && bytes@ == encode_utf8(
                    room.buckets[bucket_id][key@].value,
                )
            } else {
                r matches Ok(None)
            }
        },
{
}

/// A write to a room in memory writes the value that the bytes stand for, as long as a version is
/// left for it; the subscribers are to be told, and it is to be kept on disk, or taken off it if it
/// is a null.
pub proof fn law_write_fragment(
    server: &mut CommandServer,
    room_id: u64,
    bucket_id: u64,
    key: String,
    data: Vec<u8>,
    r: Result<(), String>,
)
    requires
        call_ensures(
            <CommandServer as CommandHandler>::write_fragment,
            (server, room_id, bucket_id, key, data),
            r,
        ),
    ensures
        turned_down_rightly(old(server)@, final(server)@, room_id, r),
        !old(server)@.state.rooms.contains_key(room_id) ==> {
            let value = denoted(data@);
            &&& r is Ok
            &&& final(server)@.state == old(server)@.state
            &&& final(server)@.updates == old(server)@.updates.push(
                UpdateView { bucket_id, key: key@, value: Some(value), bucket_counter: 0 },
            )
            &&& final(server)@.requests == old(server)@.requests.push(
                if value == "null"@ {
                    PersistView::RemoveFragment { room_id, bucket_id, key: key@ }
                } else {
                    PersistView::SaveFragment { room_id, bucket_id, key: key@, value }
                },
            )
        },
        in_memory(old(server)@.state, room_id) ==> {
            let before = old(server)@.state.rooms[room_id];
            let after = final(server)@.state.rooms[room_id];
            let value = denoted(data@);
            if before.tx_buffer is None && before.room_counter == u64::MAX {
                (r matches Err(e) && e@ == "write_fragment_failed"@) && final(server)@ == old(
                    server,
                )@
            } else {
                &&& r is Ok
                &&& same_elsewhere(old(server)@.state, final(server)@.state, room_id)
                &&& value_written(before, after, bucket_id, key@, value)
                &&& final(server)@.updates.len() == old(server)@.updates.len() + 1
                &&& final(server)@.updates.drop_last() == old(server)@.updates
                &&& final(server)@.updates.last().bucket_id == bucket_id
                &&& final(server)@.updates.last().key == key@
                &&& final(server)@.updates.last().value == Some(value)
                &&& final(server)@.updates.last().bucket_counter == after.room_counter
                &&& final(server)@.requests == old(server)@.requests.push(
                    if value == "null"@ {
                        PersistView::RemoveFragment { room_id, bucket_id, key: key@ }
                    } else {
                        PersistView::SaveFragment { room_id, bucket_id, key: key@, value }
                    },
                )
            }
        },
{
    if in_memory(old(server)@.state, room_id) && r is Ok {
        assert(final(server)@.updates.drop_last() =~= old(server)@.updates);
    }
}

/// What was written through the service is read back through it.
pub proof fn law_written_values_are_read_back(
    server: &mut CommandServer,
    later: &mut CommandServer,
    room_id: u64,
    bucket_id: u64,
    key: String,
    data: Vec<u8>,
    done: Result<(), String>,
    r: Result<Option<Vec<u8>>, String>,
)
    requires
        call_ensures(
            <CommandServer as CommandHandler>::write_fragment,
            (server, room_id, bucket_id, key, data),
            done,
        ),
        done is Ok,
        in_memory(old(server)@.state, room_id),
        old(server)@.state.rooms[room_id].tx_buffer is None,
        old(later)@ == final(server)@,
        call_ensures(
            <CommandServer as CommandHandler>::read_fragment,
            (later, room_id, bucket_id, key),
            r,
        ),
    ensures
        denoted(data@) != "null"@ ==> (r matches Ok(Some(bytes)) && bytes@ == encode_utf8(
            denoted(data@),
        )),
        denoted(data@) == "null"@ ==> r matches Ok(None),
{
    law_write_fragment(server, room_id, bucket_id, key, data, done);
    law_read_fragment(later, room_id, bucket_id, key, r);
}

// ---------------------------------------------------------------------------
// Labels
// ---------------------------------------------------------------------------

/// A label that fits is given to a room that is there, unless it is another room's.
pub proof fn law_set_room_label(
    server: &mut CommandServer,
    room_id: u64,
    label: String,
    r: Result<(), String>,
)
    requires
        call_ensures(CommandServer::set_room_label, (server, room_id, label), r),
    ensures
        tells_no_more(old(server)@, final(server)@),
        keeps_no_more(old(server)@, final(server)@),
        ({
            let before = old(server)@.state;
            let after = final(server)@.state;
            let name = trim(label@);
            let taken = before.labels.contains_key(name) && before.labels[name] != room_id;
            &&& r is Ok <==> fits(label@) && before.rooms.contains_key(room_id) && !taken
            &&& r is Ok ==> after == AppView { labels: before.labels.insert(name, room_id), ..before }
            &&& r is Err ==> after == before
            &&& !fits(label@) ==> (r matches Err(e) && e@ == "label_invalid"@)
            &&& fits(label@) && !before.rooms.contains_key(room_id) ==> (r matches Err(e) && e@
                == "room_not_found"@)
            &&& fits(label@) && before.rooms.contains_key(room_id) && taken ==> (r matches Err(e)
                && e@ == "label_in_use"@)
        }),
{
}

/// A label of a room is one that leads to it, and there is one if any does.
pub proof fn law_get_room_label(server: &CommandServer, room_id: u64, r: Option<String>)
    requires
        call_ensures(CommandServer::get_room_label, (server, room_id), r),
    ensures
        r is Some <==> exists|label: Seq<char>| #[trigger]
            server@.state.labels.contains_key(label) && server@.state.labels[label] == room_id,
        r matches Some(label) ==> server@.state.labels.contains_key(label@)
            && server@.state.labels[label@] == room_id,
{
}

/// A label that fits is given to a bucket of a room in memory; what the room holds and the other
/// labels stay.
pub proof fn law_set_bucket_label(
    server: &mut CommandServer,
    room_id: u64,
    bucket_id: u64,
    label: String,
    r: Result<(), String>,
)
    requires
        call_ensures(CommandServer::set_bucket_label, (server, room_id, bucket_id, label), r),
    ensures
        tells_no_more(old(server)@, final(server)@),
        keeps_no_more(old(server)@, final(server)@),
        r is Ok <==> fits(label@) && in_memory(old(server)@.state, room_id) && old(
            server,
        )@.state.rooms[room_id].buckets.contains_key(bucket_id),
        r is Err ==> final(server)@.state == old(server)@.state,
        r matches Err(e) ==> e@ == (if !fits(label@) {
            "label_invalid"@
        } else if !old(server)@.state.rooms.contains_key(room_id) {
            "room_not_found"@
        } else if !old(server)@.state.rooms[room_id].loaded {
            "room_not_loaded"@
        } else {
            "bucket_not_found"@
        }),
        r is Ok ==> {
            let before = old(server)@.state.rooms[room_id];
            let after = final(server)@.state.rooms[room_id];
            &&& same_elsewhere(old(server)@.state, final(server)@.state, room_id)
            &&& same_data(before, after)
            &&& after.members == before.members
            &&& after.bucket_flags == before.bucket_flags
            &&& after.bucket_labels == before.bucket_labels.insert(bucket_id, trim(label@))
        },
{
}

/// The label of a bucket is the one that it has.
pub proof fn law_get_bucket_label(
    server: &CommandServer,
    room_id: u64,
    bucket_id: u64,
    r: Option<String>,
)
    requires
        call_ensures(CommandServer::get_bucket_label, (server, room_id, bucket_id), r),
    ensures
        r is Some <==> server@.state.rooms.contains_key(room_id)
            && server@.state.rooms[room_id].bucket_labels.contains_key(bucket_id),
        r matches Some(label) ==> label@ == server@.state.rooms[room_id].bucket_labels[bucket_id],
{
}

/// A service does to its state what its kernel does, and what the kernel says is to be told and to be
/// kept waits at the end of the queues.
pub proof fn law_the_kernel_does_it(
    server: &mut CommandServer,
    kernel: &mut SyncpondKernel,
    cmd: Commands,
    response: CommandResponse,
    outcome: Outcome,
)
    requires
        call_ensures(CommandServer::handle_command, (server, cmd), response),
        call_ensures(SyncpondKernel::handle_command, (kernel, cmd), outcome),
        old(server)@.state == old(kernel).state@,
        !(cmd is LoadRoom),
    ensures
        final(server)@.state == final(kernel).state@,
        outcome.update matches Some(update) ==> final(server)@.updates == old(
            server,
        )@.updates.push(update@),
        outcome.update is None ==> final(server)@.updates == old(server)@.updates,
        outcome.persist matches Some(request) ==> final(server)@.requests == old(
            server,
        )@.requests.push(request@),
        outcome.persist is None ==> final(server)@.requests == old(server)@.requests,
{
}

// ---------------------------------------------------------------------------
// Queues, keys and failures
// ---------------------------------------------------------------------------

/// What waits is handed out once, in the order in which it came.
pub proof fn law_queues_are_handed_out(
    for_updates: &mut CommandServer,
    updates: Vec<DataUpdate>,
    for_requests: &mut CommandServer,
    requests: Vec<PersistRequest>,
)
    requires
        call_ensures(CommandServer::take_updates, (for_updates,), updates),
        call_ensures(CommandServer::take_requests, (for_requests,), requests),
    ensures
        updates_view(updates@) == old(for_updates)@.updates,
        final(for_updates)@.updates.len() == 0,
        final(for_updates)@.state == old(for_updates)@.state,
        final(for_updates)@.requests == old(for_updates)@.requests,
        requests_view(requests@) == old(for_requests)@.requests,
        final(for_requests)@.requests.len() == 0,
        final(for_requests)@.state == old(for_requests)@.state,
        final(for_requests)@.updates == old(for_requests)@.updates,
{
}

/// A service begins with the state of its kernel and nothing waiting.
pub proof fn law_new_service(kernel: SyncpondKernel, r: CommandServer)
    requires
        call_ensures(CommandServer::new, (kernel,), r),
    ensures
        r@.state == kernel.state@,
        r@.updates.len() == 0,
        r@.requests.len() == 0,
{
}

/// A caller is let in exactly if a key is configured and the caller gives it.
pub proof fn law_api_key(configured: Option<&str>, given: Option<&str>, r: Result<(), Status>)
    requires
        call_ensures(check_api_key, (configured, given), r),
    ensures
        r is Ok <==> configured is Some && given is Some && configured->0@ == given->0@,
        r matches Err(e) ==> e.code == StatusCode::Unauthenticated && e.message@ == (
        if configured is Some && given is Some {
            "invalid api key"@
        } else {
            "no api key provided"@
        }),
{
}

/// Failures are reported with their text. A room that is not there is not found, and one that is
/// not in memory is a precondition that failed; so is a server that cannot sign. What the caller
/// asked for in vain is an argument that is not valid.
pub proof fn law_failures_are_reported(
    e: &str,
    of_room: Status,
    of_token: Status,
    of_deletion: Status,
    of_loading: Status,
)
    requires
        call_ensures(map_room_error, (e,), of_room),
        call_ensures(map_token_error, (e,), of_token),
        call_ensures(not_found, (e,), of_deletion),
        call_ensures(failed_precondition, (e,), of_loading),
    ensures
        of_room.message@ == e@,
        of_token.message@ == e@,
        of_deletion.message@ == e@,
        of_loading.message@ == e@,
        of_deletion.code == StatusCode::NotFound,
        of_loading.code == StatusCode::FailedPrecondition,
        (of_room.code == StatusCode::NotFound) <==> e@ == "room_not_found"@,
        (of_room.code == StatusCode::FailedPrecondition) <==> e@ == "room_not_loaded"@,
        (of_room.code == StatusCode::Internal) <==> e@ != "room_not_found"@ && e@
            != "room_not_loaded"@,
        (of_token.code == StatusCode::NotFound) <==> e@ == "room_not_found"@,
        (of_token.code == StatusCode::InvalidArgument) <==> e@ == "reserved_bucket_id"@ || e@
            == "invalid_member"@,
        (of_token.code == StatusCode::FailedPrecondition) <==> e@ == "jwt_key_not_configured"@ || e@
            == "jwt_key_too_short"@ || e@ == "jwt_issuer_audience_not_configured"@,
        of_token.code != StatusCode::Unauthenticated,
{
    reveal_strlit("room_not_found");
    reveal_strlit("room_not_loaded");
    reveal_strlit("reserved_bucket_id");
    reveal_strlit("invalid_member");
    reveal_strlit("jwt_key_not_configured");
    reveal_strlit("jwt_key_too_short");
    reveal_strlit("jwt_issuer_audience_not_configured");
    assert("room_not_found"@[0] == 'r');
    assert("room_not_found"@[9] == 'f');
    assert("room_not_loaded"@[9] == 'l');
    assert("reserved_bucket_id"@[1] == 'e');
    assert("room_not_found"@[1] == 'o');
    assert("invalid_member"@[0] == 'i');
    assert("jwt_key_not_configured"@[0] == 'j');
    assert("jwt_key_too_short"@[0] == 'j');
    assert("jwt_issuer_audience_not_configured"@[0] == 'j');
    assert("reserved_bucket_id"@[0] == 'r');
}

} // verus!
