//! What holds of the kernel as a whole: what commands keep, what they leave alone, and what
//! comes back of what was written.

use crate::commands::{CommandResponse, Commands};
use crate::downstream_auth::ClaimsView;
use crate::downstream_connection::{allowed_buckets, opening, OpeningView};
use crate::json::{holds_float, value_of_bytes};
use crate::kernel::{
    after_command, answers, can_handle, leads_to, persist_of, turned_down, update_of, with_bucket,
    with_label, with_new_room, without_bucket, without_room, PersistView,
};
use crate::kernel_state::{
    error_text, granted, AppView, RoomCommandView, RoomView, StateError, SERVER_ONLY_BUCKET_ID,
};
use crate::kernel_state_laws::{
    law_read_after_delete, law_read_after_write, law_submit_keeps_valid, law_token_grants,
    law_with_room_keeps_valid,
};
use crate::loading::{unloaded, StoredRoom};
use crate::persistence::{fragments_in, scans, writes_fragment, written, StoreWrite};
use crate::persistence_laws::{law_fragment_read_back, sole_place};
use crate::text::decimal;
use crate::upstream::{token_error_code, StatusCode};
use vstd::prelude::*;
use vstd::string::*;
use vstd::utf8::encode_utf8;

verus! {

// ---------------------------------------------------------------------------
// What commands keep
// ---------------------------------------------------------------------------

/// Every command keeps the state valid.
pub proof fn law_commands_keep_valid(s: AppView, cmd: Commands, after: AppView)
    requires
        s.valid(),
        can_handle(s, cmd),
        leads_to(s, cmd, after),
    ensures
        after.valid(),
{
    match cmd {
        Commands::LoadRoom(id, _) => {
            if s.rooms.contains_key(id) {
                law_with_room_keeps_valid(s, id, after.rooms[id]);
            }
        },
        Commands::UnloadRoom(id) => {
            if s.rooms.contains_key(id) {
                law_with_room_keeps_valid(s, id, unloaded(s.rooms[id]));
            }
        },
        Commands::NewRoom(name) => {
            let made = with_new_room(s);
            assert forall|id: u64| #[trigger] made.rooms.contains_key(id) implies id
                < made.next_room_id && made.rooms[id].valid() by {
                if id != s.next_room_id {
                    assert(s.rooms.contains_key(id));
                }
            }
            assert forall|label: Seq<char>| #[trigger] made.labels.contains_key(
                label,
            ) implies made.rooms.contains_key(made.labels[label]) by {
                assert(s.labels.contains_key(label));
            }
            let after = with_label(made, s.next_room_id, name@);
            assert forall|id: u64| #[trigger] after.rooms.contains_key(id) implies id
                < after.next_room_id && after.rooms[id].valid() by {
                assert(made.rooms.contains_key(id));
            }
            assert forall|label: Seq<char>| #[trigger] after.labels.contains_key(
                label,
            ) implies after.rooms.contains_key(after.labels[label]) by {
                if after.labels[label] != s.next_room_id {
                    assert(made.labels.contains_key(label));
                }
            }
        },
        Commands::CloseRoom(id) => {
            let after = without_room(s, id);
            assert forall|other: u64| #[trigger] after.rooms.contains_key(other) implies other
                < after.next_room_id && after.rooms[other].valid() by {
                assert(s.rooms.contains_key(other));
            }
            assert forall|label: Seq<char>| #[trigger] after.labels.contains_key(
                label,
            ) implies after.rooms.contains_key(after.labels[label]) by {
                assert(s.labels.contains_key(label));
            }
        },
        Commands::NewBucket(id, bucket_id, label) => {
            if s.rooms.contains_key(id) {
                let room = s.rooms[id];
                let after = with_bucket(room, bucket_id, label@);
                lemma_fewer_fragments(room, after);
                law_with_room_keeps_valid(s, id, after);
            }
        },
        Commands::DeleteBucket(id, bucket_id) => {
            if s.rooms.contains_key(id) {
                let room = s.rooms[id];
                let after = without_bucket(room, bucket_id);
                lemma_fewer_fragments(room, after);
                law_with_room_keeps_valid(s, id, after);
            }
        },
        Commands::NewMember(id, member) => {
            if s.rooms.contains_key(id) {
                let room = s.rooms[id];
                let after = crate::kernel::with_member(room, member@);
                lemma_fewer_fragments(room, after);
                law_with_room_keeps_valid(s, id, after);
            }
        },
        Commands::DeleteMember(id, member) => {
            if s.rooms.contains_key(id) {
                let room = s.rooms[id];
                let after = crate::kernel::without_member(room, member@);
                lemma_fewer_fragments(room, after);
                law_with_room_keeps_valid(s, id, after);
            }
        },
        Commands::WriteFragment(id, bucket_id, key, data) => {
            if s.refusal(id) is None {
                let command = RoomCommandView::SetValue {
                    bucket_id,
                    key: key@,
                    value: value_of_bytes(data@),
                };
                law_submit_keeps_valid(s.rooms[id], command);
                law_with_room_keeps_valid(s, id, s.rooms[id].submit(command));
            }
        },
        _ => {},
    }
}

/// A room that holds nothing but what a valid room of the same version holds is valid.
proof fn lemma_fewer_fragments(before: RoomView, after: RoomView)
    requires
        before.valid(),
        after.room_counter == before.room_counter,
        forall|b: u64, k: Seq<char>| #[trigger] after.holds(b, k) ==> before.holds(b, k)
            && after.buckets[b][k] == before.buckets[b][k],
    ensures
        after.valid(),
{
}

/// A command for one room leaves all others as they are.
pub proof fn law_commands_leave_other_rooms(s: AppView, cmd: Commands, after: AppView, other: u64)
    requires
        leads_to(s, cmd, after),
        match cmd {
            Commands::NewRoom(_) => other != s.next_room_id,
            Commands::CloseRoom(id) => other != id,
            Commands::NewBucket(id, _, _) => other != id,
            Commands::DeleteBucket(id, _) => other != id,
            Commands::NewMember(id, _) => other != id,
            Commands::DeleteMember(id, _) => other != id,
            Commands::WriteFragment(id, _, _, _) => other != id,
            Commands::LoadRoom(id, _) => other != id,
            Commands::UnloadRoom(id) => other != id,
            _ => true,
        },
    ensures
        after.rooms.contains_key(other) == s.rooms.contains_key(other),
        s.rooms.contains_key(other) ==> after.rooms[other] == s.rooms[other],
{
}

/// The identifier of a new room was never that of another one that is still there.
pub proof fn law_new_rooms_are_new(s: AppView, cmd: Commands)
    requires
        s.valid(),
        can_handle(s, cmd),
        cmd is NewRoom,
    ensures
        !s.rooms.contains_key(s.next_room_id),
        after_command(s, cmd).rooms[s.next_room_id] == RoomView::fresh(),
        after_command(s, cmd).next_room_id > s.next_room_id,
{
}

/// A closed room is gone, and so are its labels.
pub proof fn law_closed_rooms_are_gone(s: AppView, id: u64, label: Seq<char>)
    requires
        s.valid(),
    ensures
        ({
            let after = after_command(s, Commands::CloseRoom(id));
            &&& !after.rooms.contains_key(id)
            &&& after.labels.contains_key(label) ==> after.labels[label] != id
        }),
{
    if !s.rooms.contains_key(id) && s.labels.contains_key(label) {
        assert(s.rooms.contains_key(s.labels[label]));
    }
}

// ---------------------------------------------------------------------------
// What comes back
// ---------------------------------------------------------------------------

/// A value that was written outside a transaction is read back, as the bytes of its JSON
/// text.
pub proof fn law_written_values_are_read_back(
    s: AppView,
    id: u64,
    bucket_id: u64,
    key: String,
    data: Vec<u8>,
    response: CommandResponse,
)
    requires
        s.refusal(id) is None,
        s.rooms[id].tx_buffer is None,
        s.rooms[id].room_counter < u64::MAX,
        value_of_bytes(data@) != "null"@,
        answers(
            after_command(s, Commands::WriteFragment(id, bucket_id, key, data)),
            Commands::ReadFragment(id, bucket_id, key),
            response,
        ),
    ensures
        match response {
            CommandResponse::FragmentReadResponse(Some(bytes)) => bytes@ == encode_utf8(
                value_of_bytes(data@),
            ),
            _ => false,
        },
{
    law_read_after_write(s, id, bucket_id, key@, value_of_bytes(data@));
}

/// Writing a null outside a transaction deletes: nothing is read back.
pub proof fn law_written_nulls_delete(
    s: AppView,
    id: u64,
    bucket_id: u64,
    key: String,
    data: Vec<u8>,
    response: CommandResponse,
)
    requires
        s.refusal(id) is None,
        s.rooms[id].tx_buffer is None,
        s.rooms[id].room_counter < u64::MAX,
        value_of_bytes(data@) == "null"@,
        answers(
            after_command(s, Commands::WriteFragment(id, bucket_id, key, data)),
            Commands::ReadFragment(id, bucket_id, key),
            response,
        ),
    ensures
        response == CommandResponse::FragmentReadResponse(None),
{
    law_read_after_delete(s, id, bucket_id, key@);
}

/// Reading changes nothing, tells subscribers nothing, and keeps nothing.
pub proof fn law_reading_changes_nothing(s: AppView, id: u64, bucket_id: u64, key: String)
    ensures
        ({
            let cmd = Commands::ReadFragment(id, bucket_id, key);
            &&& after_command(s, cmd) == s
            &&& update_of(after_command(s, cmd), cmd) is None
            &&& persist_of(s, cmd) is None
        }),
{
}

/// What subscribers are told of a write outside a transaction is what the room then holds:
/// the value, and the version at which it was written.
pub proof fn law_updates_tell_what_is_held(
    s: AppView,
    id: u64,
    bucket_id: u64,
    key: String,
    data: Vec<u8>,
)
    requires
        s.refusal(id) is None,
        s.rooms[id].tx_buffer is None,
        s.rooms[id].room_counter < u64::MAX,
    ensures
        ({
            let cmd = Commands::WriteFragment(id, bucket_id, key, data);
            let after = after_command(s, cmd);
            &&& update_of(after, cmd) matches Some(u)
            &&& u.bucket_id == bucket_id
            &&& u.key == key@
            &&& after.rooms[id].holds(bucket_id, key@)
            &&& u.value == Some(after.rooms[id].buckets[bucket_id][key@].value)
            &&& u.bucket_counter == after.rooms[id].buckets[bucket_id][key@].key_version
        }),
{
}

/// What is kept on disk of a write is brought back by every later scan of the store: the
/// value that was written, unless it holds a floating-point number.
pub proof fn law_kept_values_are_brought_back(
    s: AppView,
    id: u64,
    bucket_id: u64,
    key: String,
    data: Vec<u8>,
    store: Map<Seq<u8>, Seq<u8>>,
    write: StoreWrite,
    rows: Seq<(Seq<u8>, Seq<u8>)>,
)
    requires
        match persist_of(s, Commands::WriteFragment(id, bucket_id, key, data)) {
            Some(PersistView::SaveFragment { bucket_id, key, value, .. }) => writes_fragment(
                write,
                decimal(bucket_id as nat),
                key,
                Some(value),
            ),
            _ => false,
        },
        !holds_float(value_of_bytes(data@), false),
        sole_place(store, bucket_id, key@),
        scans(rows, written(store, write)),
    ensures
        fragments_in(rows).contains_key(bucket_id),
        fragments_in(rows)[bucket_id].contains_key(key@),
        fragments_in(rows)[bucket_id][key@] == value_of_bytes(data@),
{
    law_fragment_read_back(store, write, bucket_id, key@, value_of_bytes(data@), rows);
}

/// What is kept of a room is what is read from it once it is loaded: every value, as the
/// bytes of its JSON text, and nothing else.
pub proof fn law_loaded_values_are_read(
    s: AppView,
    id: u64,
    stored: StoredRoom,
    after: AppView,
    bucket_id: u64,
    key: String,
    response: CommandResponse,
)
    requires
        s.rooms.contains_key(id),
        leads_to(s, Commands::LoadRoom(id, stored), after),
        answers(after, Commands::ReadFragment(id, bucket_id, key), response),
    ensures
        ({
            let kept = stored.fragments@;
            if kept.contains_key(bucket_id) && kept[bucket_id].contains_key(key@)
                && kept[bucket_id][key@] != "null"@ {
                response matches CommandResponse::FragmentReadResponse(Some(bytes)) && bytes@
                    == encode_utf8(kept[bucket_id][key@])
            } else {
                response == CommandResponse::FragmentReadResponse(None)
            }
        }),
{
    assert(after.rooms[id].holds(bucket_id, key@) <==> stored.fragments@.contains_key(bucket_id)
        && stored.fragments@[bucket_id].contains_key(key@));
}

/// A value that was written and kept is read again after the server was started anew and the
/// room was loaded from what a scan of its store brings; a value with a floating-point number
/// is left out, of which the last digit may change.
pub proof fn law_values_outlive_the_server(
    s: AppView,
    id: u64,
    bucket_id: u64,
    key: String,
    data: Vec<u8>,
    store: Map<Seq<u8>, Seq<u8>>,
    write: StoreWrite,
    rows: Seq<(Seq<u8>, Seq<u8>)>,
    started: AppView,
    stored: StoredRoom,
    loaded: AppView,
    response: CommandResponse,
)
    requires
        match persist_of(s, Commands::WriteFragment(id, bucket_id, key, data)) {
            Some(PersistView::SaveFragment { bucket_id, key, value, .. }) => writes_fragment(
                write,
                decimal(bucket_id as nat),
                key,
                Some(value),
            ),
            _ => false,
        },
        !holds_float(value_of_bytes(data@), false),
        sole_place(store, bucket_id, key@),
        scans(rows, written(store, write)),
        stored.fragments@ == fragments_in(rows),
        started.rooms.contains_key(id),
        leads_to(started, Commands::LoadRoom(id, stored), loaded),
        answers(loaded, Commands::ReadFragment(id, bucket_id, key), response),
    ensures
        response matches CommandResponse::FragmentReadResponse(Some(bytes)) && bytes@
            == encode_utf8(value_of_bytes(data@)),
{
    law_kept_values_are_brought_back(s, id, bucket_id, key, data, store, write, rows);
    law_loaded_values_are_read(started, id, stored, loaded, bucket_id, key, response);
}

/// A room that was unloaded holds nothing, keeps its version, and is turned down until it is
/// loaded again.
pub proof fn law_unloaded_rooms_wait(
    s: AppView,
    id: u64,
    bucket_id: u64,
    key: String,
    data: Vec<u8>,
)
    requires
        s.rooms.contains_key(id),
    ensures
        ({
            let after = after_command(s, Commands::UnloadRoom(id));
            &&& after.refusal(id) == Some(StateError::RoomNotLoaded)
            &&& !after.rooms[id].holds(bucket_id, key@)
            &&& after.rooms[id].room_counter == s.rooms[id].room_counter
            &&& turned_down(after, Commands::ReadFragment(id, bucket_id, key))
            &&& turned_down(after, Commands::WriteFragment(id, bucket_id, key, data))
        }),
{
}

/// A command that is turned down changes nothing, tells subscribers nothing, and keeps
/// nothing.
pub proof fn law_turned_down_commands_change_nothing(s: AppView, cmd: Commands, after: AppView)
    requires
        turned_down(s, cmd),
        leads_to(s, cmd, after),
    ensures
        after == s,
        update_of(after, cmd) is None,
        persist_of(s, cmd) is None,
{
}

// ---------------------------------------------------------------------------
// Tokens
// ---------------------------------------------------------------------------

/// The claims of a token that was issued for a member of a room let their bearer into that
/// room, with the buckets that were granted and the public one.
pub proof fn law_issued_tokens_open_their_room(
    s: AppView,
    id: u64,
    sub: Seq<char>,
    buckets: Seq<u64>,
    exp: u64,
)
    requires
        s.token_refusal(id, sub, buckets) is None,
        s.refusal(id) is None,
        id > 0,
    ensures
        ({
            let claims = ClaimsView {
                sub: crate::text::trim(sub),
                room_id: Some(id),
                buckets: Some(granted(buckets)),
                exp,
            };
            opening(s, Ok(claims), SERVER_ONLY_BUCKET_ID) matches OpeningView::Accepted {
                room_id,
                allowed,
                ..
            } && room_id == id && allowed == buckets.to_set().insert(0)
        }),
{
    law_token_grants(s, id, sub, buckets);
    let allowed = allowed_buckets(Some(granted(buckets)), SERVER_ONLY_BUCKET_ID);
    assert forall|b: u64| allowed.contains(b) == buckets.to_set().insert(0).contains(b) by {
        assert(granted(buckets).to_set().contains(b) == granted(buckets).contains(b));
    }
    assert(allowed =~= buckets.to_set().insert(0));
}

/// No refusal to issue a token is reported as a fault of the server.
pub proof fn law_token_refusals_are_the_callers(
    s: AppView,
    id: u64,
    sub: Seq<char>,
    buckets: Seq<u64>,
)
    ensures
        s.token_refusal(id, sub, buckets) matches Some(e) ==> token_error_code(error_text(e))
            != StatusCode::Internal,
{
}

} // verus!
