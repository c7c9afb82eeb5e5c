//! What callers of the state with numbered buckets can rely on: the arguments and the results of
//! each call, and what it leaves as it was.

use crate::collections::texts;
use crate::json::Value;
use crate::kernel_state::{
    AppState, AppView, FragmentView, RoomCommandView, RoomSnapshot, RoomView, SnapshotView,
    StateError,
};
use crate::kernel_state_laws::lemma_distinct_ids;
use crate::state::{Metrics, RoomInfo};
use crate::state_calls::later_of;
use crate::text::{decimal, precedes, trim};
use crate::tokens::{bucket_claims, clock_gave};
use std::collections::HashSet;
use vstd::prelude::*;
use vstd::string::*;

verus! {

// ---------------------------------------------------------------------------
// What a client sees
// ---------------------------------------------------------------------------

/// The name under which a bucket is shown: the word and the number.
pub open spec fn shown_name(bucket_id: u64) -> Seq<char> {
    "bucket_"@ + decimal(bucket_id as nat)
}

/// Whether a snapshot shows of a room what may be seen of it: it has a bucket, under its name,
/// exactly if the room has it and it is the public one or one of those allowed, and never the last
/// one, which is for the server alone. Of it it has exactly the keys whose value is not a null,
/// with these values. It has nothing under any other name.
pub open spec fn shows(snapshot: SnapshotView, room: RoomView, allowed: Set<u64>) -> bool {
    let seen = snapshot.buckets;
    &&& snapshot.room_counter == room.room_counter
    &&& forall|name: Seq<char>| #[trigger]
        seen.contains_key(name) ==> exists|b: u64| name == #[trigger] shown_name(b)
    &&& forall|b: u64|
        seen.contains_key(#[trigger] shown_name(b)) <==> room.buckets.contains_key(b) && b
            != u64::MAX && (b == 0 || allowed.contains(b))
    &&& forall|b: u64, k: Seq<char>|
        seen.contains_key(shown_name(b)) ==> (#[trigger] seen[shown_name(b)].contains_key(k)
            <==> room.buckets[b].contains_key(k) && room.buckets[b][k].value != "null"@)
    &&& forall|b: u64, k: Seq<char>|
        seen.contains_key(shown_name(b)) && #[trigger] seen[shown_name(b)].contains_key(k)
            ==> seen[shown_name(b)][k] == room.buckets[b][k].value
}

/// A snapshot has a bucket, under its name, exactly if the room has it and it is the public one or
/// one of those allowed, and never the last one, which is for the server alone. Of it it has
/// exactly the keys whose value is not a null, with these values. It has nothing under any other
/// name.
pub proof fn law_snapshot_keeps_to_what_is_allowed(
    app: &AppState,
    room_id: u64,
    allowed: &HashSet<u64>,
    r: Option<RoomSnapshot>,
)
    requires
        call_ensures(AppState::room_snapshot, (app, room_id, allowed), r),
    ensures
        r is Some <==> app@.rooms.contains_key(room_id),
        r matches Some(snapshot) ==> shows(snapshot@, app@.rooms[room_id], allowed@),
{
    if let Some(snapshot) = r {
        lemma_snapshot_shows(app@.rooms[room_id], allowed@);
    }
}

pub(crate) proof fn lemma_snapshot_shows(room: RoomView, allowed: Set<u64>)
    ensures
        shows(room.snapshot(allowed), room, allowed),
{
    let seen = room.snapshot(allowed).buckets;
    assert forall|b: u64| crate::kernel_state::bucket_named(#[trigger] shown_name(b)) == b
        && shown_name(b) == crate::kernel_state::bucket_name(b) by {
        crate::kernel_state::lemma_bucket_name(b);
    }
    assert forall|name: Seq<char>| #[trigger] seen.contains_key(name) implies exists|b: u64| name
        == #[trigger] shown_name(b) by {
        assert(name == shown_name(crate::kernel_state::bucket_named(name)));
    }
}

/// A delta has a key exactly if the room holds it in the public bucket or in one of those allowed,
/// but not in the one for the server alone, and it was written after the version that the client
/// has seen. It has no bucket without such a key. Tombstones are among what it has.
pub proof fn law_delta_keeps_to_what_is_allowed(
    app: &AppState,
    room_id: u64,
    since: u64,
    allowed: &HashSet<u64>,
    r: Option<RoomSnapshot>,
)
    requires
        call_ensures(AppState::room_delta, (app, room_id, since, allowed), r),
        app@.valid(),
    ensures
        r is Some <==> app@.rooms.contains_key(room_id),
        r matches Some(delta) ==> {
            let room = app@.rooms[room_id];
            let seen = delta@.buckets;
            &&& delta@.room_counter == room.room_counter
            &&& forall|name: Seq<char>| #[trigger]
                seen.contains_key(name) ==> (exists|b: u64| name == #[trigger] shown_name(b)) && (
                exists|k: Seq<char>| #[trigger] seen[name].contains_key(k))
            &&& forall|b: u64|
                seen.contains_key(#[trigger] shown_name(b)) ==> b != u64::MAX && (b == 0
                    || allowed@.contains(b))
            &&& forall|b: u64, k: Seq<char>|
                (seen.contains_key(shown_name(b)) && #[trigger] seen[shown_name(b)].contains_key(k))
                    ==> {
                    &&& room.holds(b, k)
                    &&& room.buckets[b][k].key_version > since
                    &&& seen[shown_name(b)][k] == room.buckets[b][k].value
                }
            &&& forall|b: u64, k: Seq<char>|
                b != u64::MAX && (b == 0 || allowed@.contains(b)) && #[trigger] room.holds(b, k)
                    && room.buckets[b][k].key_version > since ==> seen.contains_key(shown_name(b))
                    && seen[shown_name(b)].contains_key(k)
        },
{
    if let Some(delta) = r {
        let room = app@.rooms[room_id];
        let seen = delta@.buckets;
        assert forall|b: u64| crate::kernel_state::bucket_named(#[trigger] shown_name(b)) == b
            && shown_name(b) == crate::kernel_state::bucket_name(b) by {
            crate::kernel_state::lemma_bucket_name(b);
        }
        assert forall|name: Seq<char>| #[trigger] seen.contains_key(name) implies (exists|b: u64|
            name == #[trigger] shown_name(b)) && (exists|k: Seq<char>| #[trigger]
            seen[name].contains_key(k)) by {
            assert(name == shown_name(crate::kernel_state::bucket_named(name)));
            if forall|k: Seq<char>| !#[trigger] seen[name].contains_key(k) {
                assert(seen[name] =~= Map::<Seq<char>, Seq<char>>::empty());
            }
        }
        assert forall|b: u64, k: Seq<char>|
            b != u64::MAX && (b == 0 || allowed@.contains(b)) && #[trigger] room.holds(b, k)
                && room.buckets[b][k].key_version > since implies seen.contains_key(shown_name(b))
            && seen[shown_name(b)].contains_key(k) by {
            let values = crate::kernel_state::shown_values(room.buckets[b], Some(since));
            assert(values.contains_key(k));
            assert(shown_name(b) == crate::kernel_state::bucket_name(b));
        }
    }
}

// ---------------------------------------------------------------------------
// What a call leaves as it was
// ---------------------------------------------------------------------------

/// Whether two states differ in one room at most.
pub open spec fn same_elsewhere(before: AppView, after: AppView, id: u64) -> bool {
    &&& after == AppView { rooms: after.rooms, ..before }
    &&& forall|other: u64| #[trigger]
        after.rooms.contains_key(other) <==> before.rooms.contains_key(other)
    &&& forall|other: u64|
        other != id && before.rooms.contains_key(other) ==> #[trigger] after.rooms[other]
            == before.rooms[other]
}

/// Whether two rooms hold the same under every key but one.
pub open spec fn same_but_for(
    before: RoomView,
    after: RoomView,
    bucket_id: u64,
    key: Seq<char>,
) -> bool {
    forall|b: u64, k: Seq<char>|
        b != bucket_id || k != key ==> (#[trigger] after.holds(b, k) <==> before.holds(b, k)) && (
        before.holds(b, k) ==> after.buckets[b][k] == before.buckets[b][k])
}

/// Whether two rooms have the same labels and flags of buckets and the same members, and are both
/// in memory or both not.
pub open spec fn kept(before: RoomView, after: RoomView) -> bool {
    &&& after.bucket_labels == before.bucket_labels
    &&& after.bucket_flags == before.bucket_flags
    &&& after.members == before.members
    &&& after.loaded == before.loaded
}

/// Whether a call on a room that is not there, or not loaded, was answered so and changed nothing.
pub open spec fn refused_rightly<T>(
    before: AppView,
    after: AppView,
    id: u64,
    r: Result<T, StateError>,
) -> bool {
    &&& !before.rooms.contains_key(id) ==> r == Err::<T, StateError>(StateError::RoomNotFound)
        && after == before
    &&& before.rooms.contains_key(id) && !before.rooms[id].loaded ==> r == Err::<T, StateError>(
        StateError::RoomNotLoaded,
    ) && after == before
}

/// Whether a room was there and loaded.
pub open spec fn in_memory(s: AppView, id: u64) -> bool {
    s.rooms.contains_key(id) && s.rooms[id].loaded
}

// ---------------------------------------------------------------------------
// Writing and reading
// ---------------------------------------------------------------------------

/// A write to a loaded room outside a transaction puts the value under the key, at a version that
/// is one more than that of the room, and touches no other key and no other room. In a
/// transaction it waits at the end of the row, and nothing that is held changes.
pub proof fn law_set_writes_one_key(
    app: &mut AppState,
    room_id: u64,
    bucket_id: u64,
    key: String,
    value: Value,
    r: Result<(), StateError>,
)
    requires
        call_ensures(AppState::set_fragment, (app, room_id, bucket_id, key, value), r),
        in_memory(old(app)@, room_id) && old(app)@.rooms[room_id].tx_buffer is None ==> old(
            app,
        )@.rooms[room_id].room_counter < u64::MAX,
    ensures
        refused_rightly(old(app)@, final(app)@, room_id, r),
        in_memory(old(app)@, room_id) ==> {
            let before = old(app)@.rooms[room_id];
            let after = final(app)@.rooms[room_id];
            &&& r is Ok
            &&& same_elsewhere(old(app)@, final(app)@, room_id)
            &&& kept(before, after)
            &&& match before.tx_buffer {
                Some(waiting) => {
                    &&& after.buckets == before.buckets
                    &&& after.room_counter == before.room_counter
                    &&& after.tx_buffer == Some(
                        waiting.push(
                            RoomCommandView::SetValue {
                                bucket_id,
                                key: key@,
                                value: value@,
                            },
                        ),
                    )
                },
                None => {
                    &&& after.tx_buffer is None
                    &&& after.room_counter == before.room_counter + 1
                    &&& after.holds(bucket_id, key@)
                    &&& after.buckets[bucket_id][key@] == (FragmentView {
                        value: value@,
                        key_version: (before.room_counter + 1) as u64,
                                    })
                    &&& same_but_for(before, after, bucket_id, key@)
                    &&& forall|b: u64| #[trigger]
                        after.buckets.contains_key(b) <==> before.buckets.contains_key(b)
                            || b == bucket_id
                },
            }
        },
{
}

/// A deletion in a loaded room outside a transaction puts a null under the key, at a version that
/// is one more than that of the room, and touches no other key; the bucket must be there. In
/// a transaction it waits at the end of the row.
pub proof fn law_del_deletes_one_key(
    app: &mut AppState,
    room_id: u64,
    bucket_id: u64,
    key: String,
    r: Result<(), StateError>,
)
    requires
        call_ensures(AppState::del_fragment, (app, room_id, bucket_id, key), r),
        in_memory(old(app)@, room_id) && old(app)@.rooms[room_id].tx_buffer is None ==> old(
            app,
        )@.rooms[room_id].room_counter < u64::MAX,
    ensures
        refused_rightly(old(app)@, final(app)@, room_id, r),
        in_memory(old(app)@, room_id) ==> {
            let before = old(app)@.rooms[room_id];
            let after = final(app)@.rooms[room_id];
            &&& same_elsewhere(old(app)@, final(app)@, room_id)
            &&& kept(before, after)
            &&& match before.tx_buffer {
                Some(waiting) => {
                    &&& r is Ok
                    &&& after.buckets == before.buckets
                    &&& after.room_counter == before.room_counter
                    &&& after.tx_buffer == Some(
                        waiting.push(
                            RoomCommandView::Del { bucket_id, key: key@ },
                        ),
                    )
                },
                None => if before.buckets.contains_key(bucket_id) {
                    &&& r is Ok
                    &&& after.tx_buffer is None
                    &&& after.room_counter == before.room_counter + 1
                    &&& after.holds(bucket_id, key@)
                    &&& after.buckets[bucket_id][key@] == (FragmentView {
                        value: "null"@,
                        key_version: (before.room_counter + 1) as u64,
                                    })
                    &&& same_but_for(before, after, bucket_id, key@)
                    &&& after.buckets.dom() == before.buckets.dom()
                } else {
                    r == Err::<(), StateError>(StateError::BucketNotFound) && final(app)@ == old(
                        app,
                    )@
                },
            }
        },
{
    let before = old(app)@.rooms[room_id];
    let after = final(app)@.rooms[room_id];
    if in_memory(old(app)@, room_id) && before.tx_buffer is None && before.buckets.contains_key(
        bucket_id,
    ) {
        assert(after.buckets.dom() =~= before.buckets.dom());
    }
}

/// A key of a loaded room is read exactly if it is held with a value other than a null: its value
/// and its version come back. Each error tells what is missing.
pub proof fn law_get_reads_what_is_held(
    app: &AppState,
    room_id: u64,
    bucket_id: u64,
    key: &str,
    r: Result<(Value, u64), StateError>,
)
    requires
        call_ensures(AppState::get_fragment, (app, room_id, bucket_id, key), r),
    ensures
        refused_rightly(app@, app@, room_id, r),
        in_memory(app@, room_id) ==> {
            let room = app@.rooms[room_id];
            if !room.buckets.contains_key(bucket_id) {
                r == Err::<(Value, u64), StateError>(StateError::BucketNotFound)
            } else if !room.buckets[bucket_id].contains_key(key@) {
                r == Err::<(Value, u64), StateError>(StateError::FragmentNotFound)
            } else if room.buckets[bucket_id][key@].value == "null"@ {
                r == Err::<(Value, u64), StateError>(StateError::FragmentTombstone)
            } else {
                r matches Ok((value, version)) && value@ == room.buckets[bucket_id][key@].value
                    && version == room.buckets[bucket_id][key@].key_version
            }
        },
{
}

/// What was written is read back: after a write outside a transaction a read of the key gives
/// the value, with the version that the room then has; of a null it says that it was deleted.
pub proof fn law_written_values_are_read_back(
    app: &mut AppState,
    room_id: u64,
    bucket_id: u64,
    key: String,
    value: Value,
    done: Result<(), StateError>,
    later: &AppState,
    k: &str,
    r: Result<(Value, u64), StateError>,
)
    requires
        call_ensures(AppState::set_fragment, (app, room_id, bucket_id, key, value), done),
        done is Ok,
        old(app)@.rooms[room_id].tx_buffer is None,
        old(app)@.rooms[room_id].room_counter < u64::MAX,
        later@ == final(app)@,
        k@ == key@,
        call_ensures(AppState::get_fragment, (later, room_id, bucket_id, k), r),
    ensures
        if value@ == "null"@ {
            r == Err::<(Value, u64), StateError>(StateError::FragmentTombstone)
        } else {
            r matches Ok((read, version)) && read@ == value@ && version
                == old(app)@.rooms[room_id].room_counter + 1
        },
{
    law_set_writes_one_key(app, room_id, bucket_id, key, value, done);
    law_get_reads_what_is_held(later, room_id, bucket_id, k, r);
}

// ---------------------------------------------------------------------------
// Transactions
// ---------------------------------------------------------------------------

/// A transaction opens in a loaded room that has none open, with nothing waiting in it; nothing
/// that the room holds changes.
pub proof fn law_begin_opens(app: &mut AppState, room_id: u64, r: Result<(), StateError>)
    requires
        call_ensures(AppState::tx_begin, (app, room_id), r),
    ensures
        refused_rightly(old(app)@, final(app)@, room_id, r),
        in_memory(old(app)@, room_id) ==> {
            let before = old(app)@.rooms[room_id];
            let after = final(app)@.rooms[room_id];
            if before.tx_buffer is Some {
                r == Err::<(), StateError>(StateError::TxAlreadyOpen) && final(app)@ == old(app)@
            } else {
                &&& r is Ok
                &&& same_elsewhere(old(app)@, final(app)@, room_id)
                &&& kept(before, after)
                &&& after.tx_buffer == Some(Seq::<RoomCommandView>::empty())
                &&& after.buckets == before.buckets
                &&& after.room_counter == before.room_counter
                }
        },
{
}

/// Aborting closes a transaction, if one is open, and changes nothing that the room holds.
pub proof fn law_abort_changes_nothing(app: &mut AppState, room_id: u64, r: Result<(), StateError>)
    requires
        call_ensures(AppState::tx_abort, (app, room_id), r),
    ensures
        refused_rightly(old(app)@, final(app)@, room_id, r),
        in_memory(old(app)@, room_id) ==> {
            let before = old(app)@.rooms[room_id];
            let after = final(app)@.rooms[room_id];
            &&& r is Ok
            &&& same_elsewhere(old(app)@, final(app)@, room_id)
            &&& kept(before, after)
            &&& after.tx_buffer is None
            &&& after.buckets == before.buckets
            &&& after.room_counter == before.room_counter
        },
{
}

/// The key that an operation is about.
pub open spec fn place_of(command: RoomCommandView) -> (u64, Seq<char>) {
    match command {
        RoomCommandView::SetValue { bucket_id, key, .. } => (bucket_id, key),
        RoomCommandView::Del { bucket_id, key } => (bucket_id, key),
    }
}

/// The value that an operation leaves under its key.
pub open spec fn value_of(command: RoomCommandView) -> Seq<char> {
    match command {
        RoomCommandView::SetValue { value, .. } => value,
        RoomCommandView::Del { .. } => "null"@,
    }
}

/// Whether an operation is the last of a row about its key.
pub open spec fn is_last(waiting: Seq<RoomCommandView>, i: int) -> bool {
    forall|j: int| i < j < waiting.len() ==> place_of(#[trigger] waiting[j]) != place_of(waiting[i])
}

/// Whether a room holds what a row of operations leaves: under each key the value of the last
/// operation about it, at the version that this operation has by its place in the row, and under
/// the other keys what was there.
pub open spec fn holds_what_is_left(
    before: RoomView,
    after: RoomView,
    waiting: Seq<RoomCommandView>,
) -> bool {
    &&& after.room_counter == before.room_counter + waiting.len()
    &&& forall|i: int| #![trigger waiting[i]]
        0 <= i < waiting.len() && is_last(waiting, i) ==> {
            let (b, k) = place_of(waiting[i]);
            &&& after.holds(b, k)
            &&& after.buckets[b][k].value == value_of(waiting[i])
            &&& after.buckets[b][k].key_version == before.room_counter + i + 1
        }
    &&& forall|b: u64, k: Seq<char>|
        (forall|i: int| 0 <= i < waiting.len() ==> place_of(#[trigger] waiting[i]) != (b, k)) ==> (
        #[trigger] after.holds(b, k) <==> before.holds(b, k)) && (before.holds(b, k)
            ==> after.buckets[b][k] == before.buckets[b][k])
}

/// Whether a room is one in which one operation was done.
spec fn one_done(before: RoomView, after: RoomView, command: RoomCommandView) -> bool {
    let (b, k) = place_of(command);
    &&& after.room_counter == before.room_counter + 1
    &&& after.tx_buffer == before.tx_buffer
    &&& kept(before, after)
    &&& after.holds(b, k)
    &&& after.buckets[b][k].value == value_of(command)
    &&& after.buckets[b][k].key_version == before.room_counter + 1
    &&& same_but_for(before, after, b, k)
}

proof fn lemma_one_done(room: RoomView, command: RoomCommandView)
    requires
        room.room_counter < u64::MAX,
    ensures
        one_done(room, room.apply(command), command),
{
}

proof fn lemma_one_more_done(
    before: RoomView,
    mid: RoomView,
    after: RoomView,
    waiting: Seq<RoomCommandView>,
)
    requires
        waiting.len() > 0,
        holds_what_is_left(before, mid, waiting.drop_last()),
        one_done(mid, after, waiting.last()),
    ensures
        holds_what_is_left(before, after, waiting),
{
    let head = waiting.drop_last();
    let n = head.len() as int;
    assert forall|i: int|
        #![trigger waiting[i]]
        0 <= i < waiting.len() && is_last(waiting, i) implies {
        let (b, k) = place_of(waiting[i]);
        &&& after.holds(b, k)
        &&& after.buckets[b][k].value == value_of(waiting[i])
        &&& after.buckets[b][k].key_version == before.room_counter + i + 1
    } by {
        if i < n {
            assert(head[i] == waiting[i]);
            assert(place_of(waiting[n]) != place_of(waiting[i]));
            assert(is_last(head, i)) by {
                assert forall|j: int| i < j < head.len() implies place_of(#[trigger] head[j])
                    != place_of(head[i]) by {
                    assert(head[j] == waiting[j]);
                }
            }
            let (b, k) = place_of(head[i]);
            assert(mid.holds(b, k));
            assert(after.holds(b, k));
        }
    }
    assert forall|b: u64, k: Seq<char>|
        (forall|i: int| 0 <= i < waiting.len() ==> place_of(#[trigger] waiting[i]) != (b, k))
        implies (#[trigger] after.holds(b, k) <==> before.holds(b, k)) && (before.holds(b, k)
        ==> after.buckets[b][k] == before.buckets[b][k]) by {
        assert(place_of(waiting[n]) != (b, k));
        assert forall|i: int| 0 <= i < head.len() implies place_of(#[trigger] head[i]) != (b, k) by {
            assert(head[i] == waiting[i]);
        }
        assert(mid.holds(b, k) <==> before.holds(b, k));
    }
}

proof fn lemma_row_leaves(room: RoomView, waiting: Seq<RoomCommandView>)
    requires
        room.room_counter + waiting.len() <= u64::MAX,
    ensures
        holds_what_is_left(room, room.apply_all(waiting), waiting),
        room.apply_all(waiting).tx_buffer == room.tx_buffer,
        kept(room, room.apply_all(waiting)),
    decreases waiting.len(),
{
    if waiting.len() > 0 {
        let head = waiting.drop_last();
        lemma_row_leaves(room, head);
        lemma_one_done(room.apply_all(head), waiting.last());
        lemma_one_more_done(room, room.apply_all(head), room.apply_all(waiting), waiting);
    }
}

/// Ending an open transaction does all that waited in it: under each key stands what the last
/// operation about it says, the other keys are as they were, and the version has gone up by one
/// for each operation.
pub proof fn law_end_does_what_waited(app: &mut AppState, room_id: u64, r: Result<(), StateError>)
    requires
        call_ensures(AppState::tx_end, (app, room_id), r),
        in_memory(old(app)@, room_id) ==> (old(app)@.rooms[room_id].tx_buffer matches Some(waiting)
            ==> old(app)@.rooms[room_id].room_counter + waiting.len() <= u64::MAX),
    ensures
        refused_rightly(old(app)@, final(app)@, room_id, r),
        in_memory(old(app)@, room_id) ==> {
            let before = old(app)@.rooms[room_id];
            let after = final(app)@.rooms[room_id];
            match before.tx_buffer {
                None => r == Err::<(), StateError>(StateError::TxNotOpen) && final(app)@ == old(
                    app,
                )@,
                Some(waiting) => {
                    &&& r is Ok
                    &&& same_elsewhere(old(app)@, final(app)@, room_id)
                    &&& kept(before, after)
                    &&& after.tx_buffer is None
                            &&& holds_what_is_left(before, after, waiting)
                },
            }
        },
{
    if in_memory(old(app)@, room_id) {
        if let Some(waiting) = old(app)@.rooms[room_id].tx_buffer {
            let before = old(app)@.rooms[room_id];
            let closed = before.with_buffer(None);
            lemma_row_leaves(closed, waiting);
            assert forall|b: u64, k: Seq<char>| closed.holds(b, k) == #[trigger] before.holds(b, k) by {}
            let after = final(app)@.rooms[room_id];
            assert forall|b: u64, k: Seq<char>|
                (forall|i: int| 0 <= i < waiting.len() ==> place_of(#[trigger] waiting[i]) != (b, k))
                implies (#[trigger] after.holds(b, k) <==> before.holds(b, k)) && (before.holds(b, k)
                ==> after.buckets[b][k] == before.buckets[b][k]) by {
                assert(closed.holds(b, k) == before.holds(b, k));
            }
        }
    }
}

// ---------------------------------------------------------------------------
// Rooms and labels
// ---------------------------------------------------------------------------

/// A new state has no rooms and no labels, counts from zero, gives out one as its first room, and
/// issues tokens for an hour.
pub proof fn law_new_is_empty(app: AppState)
    requires
        call_ensures(AppState::new, (), app),
    ensures
        app@.rooms.dom() == Set::<u64>::empty(),
        app@.labels.dom() == Set::<Seq<char>>::empty(),
        app@.next_room_id == 1,
        app@.jwt_ttl_seconds == 3600,
        app@.jwt_key is None,
        app@.jwt_issuer is None,
        app@.jwt_audience is None,
        app@.last_jwt_issue_seconds is None,
        app@.command_api_key is None,
        app@.total_ws_connections == 0,
        app@.total_command_requests == 0,
        app@.command_error_count == 0,
        app@.ws_auth_success == 0,
        app@.ws_auth_failure == 0,
        app@.command_auth_failure == 0,
        app@.invalid_command_count == 0,
        app@.ws_connection_latency_ns_total == 0,
        app@.ws_connection_count == 0,
        app@.ws_update_dropped == 0,
        app@.ws_update_rate_limited == 0,
        app@.ws_send_errors == 0,
{
    assert(app@.rooms.dom() =~= Set::<u64>::empty());
    assert(app@.labels.dom() =~= Set::<Seq<char>>::empty());
}

/// A new room has an identifier that no room had before, is empty and loaded, and touches no other
/// room and no label. The next one gets another identifier.
pub proof fn law_created_rooms_are_new(app: &mut AppState, r: u64)
    requires
        call_ensures(AppState::create_room, (app,), r),
        old(app)@.valid(),
        old(app)@.next_room_id < u64::MAX,
    ensures
        !old(app)@.rooms.contains_key(r),
        final(app)@.rooms.dom() == old(app)@.rooms.dom().insert(r),
        forall|other: u64|
            old(app)@.rooms.contains_key(other) ==> #[trigger] final(app)@.rooms[other] == old(
                app,
            )@.rooms[other],
        forall|b: u64| !#[trigger] final(app)@.rooms[r].buckets.contains_key(b),
        final(app)@.rooms[r].room_counter == 0,
        final(app)@.rooms[r].tx_buffer is None,
        forall|b: u64| !#[trigger] final(app)@.rooms[r].bucket_labels.contains_key(b),
        forall|b: u64| !#[trigger] final(app)@.rooms[r].bucket_flags.contains_key(b),
        forall|m: Seq<char>| !#[trigger] final(app)@.rooms[r].members.contains(m),
        in_memory(final(app)@, r),
        final(app)@.next_room_id == old(app)@.next_room_id + 1,
        r < final(app)@.next_room_id,
        final(app)@ == (AppView {
            rooms: final(app)@.rooms,
            next_room_id: final(app)@.next_room_id,
            ..old(app)@
        }),
{
    assert(final(app)@.rooms.dom() =~= old(app)@.rooms.dom().insert(r));
}

/// A room that is deleted is gone, and no label leads to it; every other room and every
/// label of another room stays.
pub proof fn law_deleted_rooms_are_gone(app: &mut AppState, room_id: u64, r: Result<(), StateError>)
    requires
        call_ensures(AppState::delete_room, (app, room_id), r),
    ensures
        !old(app)@.rooms.contains_key(room_id) ==> r == Err::<(), StateError>(
            StateError::RoomNotFound,
        ) && final(app)@ == old(app)@,
        old(app)@.rooms.contains_key(room_id) ==> {
            let before = old(app)@;
            let after = final(app)@;
            &&& r is Ok
            &&& after == AppView { rooms: after.rooms, labels: after.labels, ..before }
            &&& forall|other: u64| #[trigger]
                after.rooms.contains_key(other) <==> before.rooms.contains_key(other) && other
                    != room_id
            &&& forall|other: u64| #[trigger]
                after.rooms.contains_key(other) ==> after.rooms[other] == before.rooms[other]
            &&& forall|label: Seq<char>| #[trigger]
                after.labels.contains_key(label) <==> before.labels.contains_key(label)
                    && before.labels[label] != room_id
            &&& forall|label: Seq<char>| #[trigger]
                after.labels.contains_key(label) ==> after.labels[label] == before.labels[label]
        },
{
}

/// A label, without the white space around it, is given to a room if it has between one and
/// 256 bytes and belongs to no other room. The other labels stay, and nothing else changes.
pub proof fn law_labels_are_given(
    app: &mut AppState,
    room_id: u64,
    label: String,
    r: Result<(), StateError>,
)
    requires
        call_ensures(AppState::set_room_label, (app, room_id, label), r),
    ensures
        ({
            let before = old(app)@;
            let after = final(app)@;
            let name = trim(label@);
            let bytes = vstd::utf8::encode_utf8(name).len();
            &&& r is Err ==> after == before
            &&& (r == Err::<(), StateError>(StateError::LabelInvalid)) <==> (name.len() == 0
                || bytes > 256)
            &&& 0 < name.len() && bytes <= 256 ==> {
                &&& !before.rooms.contains_key(room_id) ==> r == Err::<(), StateError>(
                    StateError::RoomNotFound,
                )
                &&& before.rooms.contains_key(room_id) ==> {
                    &&& (r == Err::<(), StateError>(StateError::LabelInUse))
                        <==> before.labels.contains_key(name) && before.labels[name] != room_id
                    &&& r is Ok <==> !(before.labels.contains_key(name) && before.labels[name]
                        != room_id)
                }
            }
            &&& r is Ok ==> {
                &&& after == AppView { labels: after.labels, ..before }
                &&& after.labels.contains_key(name)
                &&& after.labels[name] == room_id
                &&& forall|other: Seq<char>| #![trigger after.labels.contains_key(other)]
                    other != name ==> (after.labels.contains_key(other)
                        <==> before.labels.contains_key(other)) && (before.labels.contains_key(
                        other,
                    ) ==> after.labels[other] == before.labels[other])
            }
        }),
{
}

/// A label that was given leads to its room, with or without white space around it.
pub proof fn law_labels_lead_to_rooms(
    app: &mut AppState,
    room_id: u64,
    label: String,
    given: Result<(), StateError>,
    later: &AppState,
    asked: &str,
    r: Result<u64, StateError>,
)
    requires
        call_ensures(AppState::set_room_label, (app, room_id, label), given),
        given is Ok,
        later@ == final(app)@,
        trim(asked@) == trim(label@),
        call_ensures(AppState::get_room_id_by_label, (later, asked), r),
    ensures
        r == Ok::<u64, StateError>(room_id),
{
    law_labels_are_given(app, room_id, label, given);
}

/// A label leads to the room that it belongs to; of a label that no room has it is said that
/// there is none.
pub proof fn law_labels_are_looked_up(app: &AppState, label: &str, r: Result<u64, StateError>)
    requires
        call_ensures(AppState::get_room_id_by_label, (app, label), r),
    ensures
        r is Ok <==> app@.labels.contains_key(trim(label@)),
        r matches Ok(id) ==> app@.labels[trim(label@)] == id,
        r matches Err(e) ==> e == StateError::LabelNotFound,
{
}

/// The version of a loaded room is its counter.
pub proof fn law_version_is_the_counter(app: &AppState, room_id: u64, r: Result<u64, StateError>)
    requires
        call_ensures(AppState::room_version, (app, room_id), r),
    ensures
        refused_rightly(app@, app@, room_id, r),
        in_memory(app@, room_id) ==> r == Ok::<u64, StateError>(app@.rooms[room_id].room_counter),
{
}

/// All rooms are listed, each once and in ascending order, and nothing else is.
pub proof fn law_all_rooms_are_listed(app: &AppState, r: Vec<u64>)
    requires
        call_ensures(AppState::list_rooms, (app,), r),
    ensures
        forall|id: u64| #[trigger] r@.contains(id) <==> app@.rooms.contains_key(id),
        forall|i: int, j: int| 0 <= i < j < r@.len() ==> #[trigger] r@[i] < #[trigger] r@[j],
{
    assert forall|id: u64| #[trigger] r@.contains(id) <==> app@.rooms.contains_key(id) by {
        assert(r@.to_set().contains(id) == app@.rooms.dom().contains(id));
    }
}

/// What is told of a loaded room: its number, its version, and how many buckets and keys it
/// has, keys with tombstones among them.
pub proof fn law_info_counts(app: &AppState, room_id: u64, r: Result<RoomInfo, StateError>)
    requires
        call_ensures(AppState::room_info, (app, room_id), r),
    ensures
        refused_rightly(app@, app@, room_id, r),
        in_memory(app@, room_id) ==> {
            let room = app@.rooms[room_id];
            &&& r matches Ok(info)
            &&& info.room_id == room_id
            &&& info.room_counter == room.room_counter
            &&& info.container_count == room.buckets.dom().len()
            &&& info.fragment_count == Set::new(
                |place: (u64, Seq<char>)| room.holds(place.0, place.1),
            ).len()
        },
{
    if in_memory(app@, room_id) {
        let room = app@.rooms[room_id];
        assert(Set::new(|place: (u64, Seq<char>)| room.holds(place.0, place.1))
            =~= crate::kernel_state::fragment_places(room.buckets));
    }
}

/// The metrics are the counters of the state and the number of its rooms.
pub proof fn law_metrics_tell_the_counters(app: &AppState, r: Metrics)
    requires
        call_ensures(AppState::metrics, (app,), r),
    ensures
        r == (Metrics {
            room_count: app@.rooms.dom().len() as usize,
            ws_connections: app@.total_ws_connections,
            next_room_id: app@.next_room_id,
            total_command_requests: app@.total_command_requests,
            command_error_count: app@.command_error_count,
            ws_auth_success: app@.ws_auth_success,
            ws_auth_failure: app@.ws_auth_failure,
            command_auth_failure: app@.command_auth_failure,
            invalid_command_count: app@.invalid_command_count,
            ws_connection_count: app@.ws_connection_count,
            ws_connection_latency_ns_total: app@.ws_connection_latency_ns_total,
            ws_update_rate_limited: app@.ws_update_rate_limited,
            ws_update_dropped: app@.ws_update_dropped,
            ws_send_errors: app@.ws_send_errors,
        }),
        r.room_count == app@.rooms.dom().len(),
{
}

// ---------------------------------------------------------------------------
// Settings and tokens
// ---------------------------------------------------------------------------

/// Each setting is what it was set to, and setting it changes nothing else.
pub proof fn law_settings_are_set(
    for_key: &mut AppState,
    for_ttl: &mut AppState,
    for_issuer: &mut AppState,
    for_audience: &mut AppState,
    text: String,
    seconds: u64,
)
    requires
        call_ensures(AppState::set_jwt_key, (for_key, text), ()),
        call_ensures(AppState::set_jwt_ttl, (for_ttl, seconds), ()),
        call_ensures(AppState::set_jwt_issuer, (for_issuer, text), ()),
        call_ensures(AppState::set_jwt_audience, (for_audience, text), ()),
    ensures
        final(for_key)@ == (AppView { jwt_key: Some(text@), ..old(for_key)@ }),
        final(for_ttl)@ == (AppView { jwt_ttl_seconds: seconds, ..old(for_ttl)@ }),
        final(for_issuer)@ == (AppView { jwt_issuer: Some(text@), ..old(for_issuer)@ }),
        final(for_audience)@ == (AppView { jwt_audience: Some(text@), ..old(for_audience)@ }),
{
}

/// The key of the command API is set unless it is blank; nothing else changes.
pub proof fn law_api_key_is_set(app: &mut AppState, key: String, r: Result<(), StateError>)
    requires
        call_ensures(AppState::set_command_api_key, (app, key), r),
    ensures
        trim(key@).len() > 0 ==> r is Ok && final(app)@ == (AppView {
            command_api_key: Some(key@),
            ..old(app)@
        }),
        trim(key@).len() == 0 ==> r == Err::<(), StateError>(StateError::CommandApiKeyInvalid)
            && final(app)@ == old(app)@,
{
}

/// Whether a state can issue tokens: it has a key of at least 32 bytes, an issuer and an audience.
pub open spec fn can_sign(s: AppView) -> bool {
    &&& s.jwt_key matches Some(key)
    &&& vstd::utf8::encode_utf8(key).len() >= 32
    &&& s.jwt_issuer is Some
    &&& s.jwt_audience is Some
}

/// Whether a token can be issued for a member of a room: the room is there, the subject, without
/// the white space around it, is one of its members, and the bucket for the server alone is not
/// asked for.
pub open spec fn may_have(s: AppView, room_id: u64, sub: Seq<char>, buckets: Seq<u64>) -> bool {
    &&& s.rooms.contains_key(room_id)
    &&& trim(sub).len() > 0
    &&& s.rooms[room_id].members.contains(trim(sub))
    &&& !buckets.contains(u64::MAX)
}

/// What is missing first where a token cannot be issued: a key, a key that is long enough, an issuer
/// and an audience, the room, or the member; else it is the bucket that cannot be had.
pub open spec fn missing_for_token(s: AppView, room_id: u64, sub: Seq<char>) -> StateError {
    if s.jwt_key is None {
        StateError::JwtKeyNotConfigured
    } else if vstd::utf8::encode_utf8(s.jwt_key->0).len() < 32 {
        StateError::JwtKeyTooShort
    } else if s.jwt_issuer is None || s.jwt_audience is None {
        StateError::JwtIssuerAudienceNotConfigured
    } else if !s.rooms.contains_key(room_id) {
        StateError::RoomNotFound
    } else if trim(sub).len() == 0 || !s.rooms[room_id].members.contains(trim(sub)) {
        StateError::InvalidMember
    } else {
        StateError::ReservedBucketId
    }
}

/// Whether a token holds, for who knows the key of a state, its subject and its room, exactly the
/// buckets asked for and the public one, each once, and a time at which it expires that lies the
/// lifetime of tokens after the time of issue.
pub open spec fn grants_room(
    s: AppView,
    room_id: u64,
    sub: Seq<char>,
    buckets: Seq<u64>,
    issued: u64,
    token: Seq<char>,
) -> bool {
    &&& bucket_claims(token, s.jwt_key->0) matches Some((subject, room, granted, exp))
    &&& subject == trim(sub)
    &&& room == Some(room_id)
    &&& granted matches Some(ids)
    &&& ids.no_duplicates()
    &&& forall|b: u64| #[trigger] ids.contains(b) <==> b == 0 || buckets.contains(b)
    &&& issued + s.jwt_ttl_seconds <= u64::MAX ==> exp == issued + s.jwt_ttl_seconds
    &&& issued + s.jwt_ttl_seconds > u64::MAX ==> exp == u64::MAX
}

pub(crate) proof fn lemma_granted(buckets: Seq<u64>)
    ensures
        crate::kernel_state::granted(buckets).no_duplicates(),
        forall|b: u64| #[trigger]
            crate::kernel_state::granted(buckets).contains(b) <==> b == 0 || buckets.contains(b),
{
    let asked = buckets.push(0);
    lemma_distinct_ids(asked);
    assert forall|b: u64| asked.contains(b) == (b == 0 || buckets.contains(b)) by {
        if buckets.contains(b) {
            let i = choose|i: int| 0 <= i < buckets.len() && buckets[i] == b;
            assert(asked[i] == b);
        }
        assert(asked[buckets.len() as int] == 0);
    }
}

/// A token is issued by a state that can sign, for a member of a room and buckets that it may
/// have. It is issued now, but later than the one before, and nothing but the time of issue
/// changes. Each refusal tells what was missing.
pub proof fn law_tokens_grant_what_was_asked(
    app: &mut AppState,
    room_id: u64,
    sub: &str,
    buckets: &[u64],
    now: u64,
    r: Result<String, StateError>,
)
    requires
        call_ensures(AppState::create_room_token_at, (app, room_id, sub, buckets, now), r),
    ensures
        r is Ok <==> can_sign(old(app)@) && may_have(old(app)@, room_id, sub@, buckets@),
        r matches Err(e) ==> final(app)@ == old(app)@ && e == missing_for_token(
            old(app)@,
            room_id,
            sub@,
        ),
        r matches Ok(token) ==> {
            &&& final(app)@.last_jwt_issue_seconds matches Some(issued)
            &&& final(app)@ == AppView { last_jwt_issue_seconds: Some(issued), ..old(app)@ }
            &&& grants_room(old(app)@, room_id, sub@, buckets@, issued, token@)
            &&& old(app)@.last_jwt_issue_seconds is None ==> issued == now
            &&& old(app)@.last_jwt_issue_seconds matches Some(last) ==> (last < u64::MAX ==> issued
                == later_of(now, last))
        },
{
    lemma_granted(buckets@);
}

/// A token that is issued without a time of one's own is issued at the time that the clock gives,
/// but later than the one before.
pub proof fn law_tokens_are_issued_now(
    app: &mut AppState,
    room_id: u64,
    sub: &str,
    buckets: &[u64],
    r: Result<String, StateError>,
)
    requires
        call_ensures(AppState::create_room_token, (app, room_id, sub, buckets), r),
    ensures
        r is Ok <==> can_sign(old(app)@) && may_have(old(app)@, room_id, sub@, buckets@),
        r matches Err(e) ==> final(app)@ == old(app)@ && e == missing_for_token(
            old(app)@,
            room_id,
            sub@,
        ),
        r matches Ok(token) ==> {
            &&& final(app)@.last_jwt_issue_seconds matches Some(issued)
            &&& final(app)@ == AppView { last_jwt_issue_seconds: Some(issued), ..old(app)@ }
            &&& grants_room(old(app)@, room_id, sub@, buckets@, issued, token@)
            &&& exists|now: u64| #[trigger]
                clock_gave(now) && (old(app)@.last_jwt_issue_seconds is None ==> issued == now) && (
                old(app)@.last_jwt_issue_seconds matches Some(last) ==> (last < u64::MAX ==> issued
                    == later_of(now, last)))
        },
{
    lemma_granted(buckets@);
}

// ---------------------------------------------------------------------------
// Labels, members and flags
// ---------------------------------------------------------------------------

/// Whether a text, without the white space around it, has between one and 256 bytes.
pub open spec fn fits(text: Seq<char>) -> bool {
    trim(text).len() > 0 && vstd::utf8::encode_utf8(trim(text)).len() <= 256
}

/// Whether two rooms have the same buckets with the same fragments, the same version, and the same
/// operations waiting.
pub open spec fn same_data(before: RoomView, after: RoomView) -> bool {
    &&& after.buckets == before.buckets
    &&& after.room_counter == before.room_counter
    &&& after.tx_buffer == before.tx_buffer
    &&& after.loaded == before.loaded
}

/// A label of a room is one that leads to it, and there is one if any does.
pub proof fn law_room_labels_are_found(app: &AppState, room_id: u64, r: Option<String>)
    requires
        call_ensures(AppState::get_room_label, (app, room_id), r),
    ensures
        r is Some <==> exists|label: Seq<char>| #[trigger]
            app@.labels.contains_key(label) && app@.labels[label] == room_id,
        r matches Some(label) ==> app@.labels.contains_key(label@) && app@.labels[label@] == room_id,
{
}

/// A label, without the white space around it, is given to a bucket that is there if it has
/// between one and 256 bytes. What the room holds and the labels of its other buckets stay.
pub proof fn law_bucket_labels_are_given(
    app: &mut AppState,
    room_id: u64,
    bucket_id: u64,
    label: String,
    r: Result<(), StateError>,
)
    requires
        call_ensures(AppState::set_bucket_label, (app, room_id, bucket_id, label), r),
    ensures
        r is Err ==> final(app)@ == old(app)@,
        (r == Err::<(), StateError>(StateError::LabelInvalid)) <==> !fits(label@),
        fits(label@) ==> refused_rightly(old(app)@, final(app)@, room_id, r),
        fits(label@) && in_memory(old(app)@, room_id) ==> {
            let before = old(app)@.rooms[room_id];
            let after = final(app)@.rooms[room_id];
            &&& r is Ok <==> before.buckets.contains_key(bucket_id)
            &&& r is Err ==> r == Err::<(), StateError>(StateError::BucketNotFound)
            &&& r is Ok ==> {
                &&& same_elsewhere(old(app)@, final(app)@, room_id)
                &&& same_data(before, after)
                &&& after.members == before.members
                &&& after.bucket_flags == before.bucket_flags
                &&& after.bucket_labels == before.bucket_labels.insert(bucket_id, trim(label@))
            }
        },
{
}

/// The label of a bucket is the one that it has.
pub proof fn law_bucket_labels_are_read(
    app: &AppState,
    room_id: u64,
    bucket_id: u64,
    r: Option<String>,
)
    requires
        call_ensures(AppState::get_bucket_label, (app, room_id, bucket_id), r),
    ensures
        r is Some <==> app@.rooms.contains_key(room_id)
            && app@.rooms[room_id].bucket_labels.contains_key(bucket_id),
        r matches Some(label) ==> label@ == app@.rooms[room_id].bucket_labels[bucket_id],
{
}

/// A name, without the white space around it, becomes a member of a loaded room if it has between
/// one and 256 bytes. The other members stay, and nothing else changes.
pub proof fn law_members_are_added(
    app: &mut AppState,
    room_id: u64,
    member: String,
    r: Result<(), StateError>,
)
    requires
        call_ensures(AppState::add_member, (app, room_id, member), r),
    ensures
        r is Err ==> final(app)@ == old(app)@,
        (r == Err::<(), StateError>(StateError::LabelInvalid)) <==> !fits(member@),
        fits(member@) ==> refused_rightly(old(app)@, final(app)@, room_id, r),
        fits(member@) && in_memory(old(app)@, room_id) ==> {
            let before = old(app)@.rooms[room_id];
            let after = final(app)@.rooms[room_id];
            &&& r is Ok
            &&& same_elsewhere(old(app)@, final(app)@, room_id)
            &&& same_data(before, after)
            &&& after.bucket_labels == before.bucket_labels
            &&& after.bucket_flags == before.bucket_flags
            &&& forall|m: Seq<char>| #[trigger]
                after.members.contains(m) <==> before.members.contains(m) || m == trim(member@)
        },
{
}

/// A member of a loaded room that is removed is one no more. The other members stay, and nothing
/// else changes.
pub proof fn law_members_are_removed(
    app: &mut AppState,
    room_id: u64,
    member: &str,
    r: Result<(), StateError>,
)
    requires
        call_ensures(AppState::remove_member, (app, room_id, member), r),
    ensures
        refused_rightly(old(app)@, final(app)@, room_id, r),
        r is Err ==> final(app)@ == old(app)@,
        in_memory(old(app)@, room_id) ==> {
            let before = old(app)@.rooms[room_id];
            let after = final(app)@.rooms[room_id];
            &&& r is Ok <==> before.members.contains(member@)
            &&& r is Err ==> r == Err::<(), StateError>(StateError::FragmentNotFound)
            &&& r is Ok ==> {
                &&& same_elsewhere(old(app)@, final(app)@, room_id)
                &&& same_data(before, after)
                &&& after.bucket_labels == before.bucket_labels
                &&& after.bucket_flags == before.bucket_flags
                &&& forall|m: Seq<char>| #[trigger]
                    after.members.contains(m) <==> before.members.contains(m) && m != member@
            }
        },
{
}

/// All members of a loaded room are listed, each once and in their order, and no one else is.
pub proof fn law_all_members_are_listed(
    app: &AppState,
    room_id: u64,
    r: Result<Vec<String>, StateError>,
)
    requires
        call_ensures(AppState::list_members, (app, room_id), r),
    ensures
        refused_rightly(app@, app@, room_id, r),
        in_memory(app@, room_id) ==> {
            &&& r matches Ok(members)
            &&& forall|m: Seq<char>| #[trigger]
                texts(members@).contains(m) <==> app@.rooms[room_id].members.contains(m)
            &&& forall|i: int, j: int|
                0 <= i < j < members@.len() ==> precedes(
                    (#[trigger] members@[i])@,
                    (#[trigger] members@[j])@,
                )
        },
{
    if in_memory(app@, room_id) {
        let members = r->Ok_0;
        assert forall|m: Seq<char>| #[trigger] texts(members@).contains(m)
            <==> app@.rooms[room_id].members.contains(m) by {
            assert(texts(members@).to_set().contains(m) == texts(members@).contains(m));
        }
        assert forall|i: int, j: int| 0 <= i < j < members@.len() implies precedes(
            (#[trigger] members@[i])@,
            (#[trigger] members@[j])@,
        ) by {
            assert(precedes(texts(members@)[i], texts(members@)[j]));
        }
    }
}

/// Whether only the flags of one bucket of a room changed, and to what.
pub open spec fn flags_set(before: AppView, after: AppView, id: u64, bucket_id: u64, flags: u32) -> bool {
    let old_room = before.rooms[id];
    let new_room = after.rooms[id];
    &&& same_elsewhere(before, after, id)
    &&& same_data(old_room, new_room)
    &&& new_room.members == old_room.members
    &&& new_room.bucket_labels == old_room.bucket_labels
    &&& new_room.bucket_flags == old_room.bucket_flags.insert(bucket_id, flags)
}

/// The flags of a bucket that is there are what they were set to; the flags of other buckets and
/// what the room holds stay.
pub proof fn law_flags_are_set(
    app: &mut AppState,
    room_id: u64,
    bucket_id: u64,
    flags: u32,
    r: Result<(), StateError>,
)
    requires
        call_ensures(AppState::set_bucket_flags, (app, room_id, bucket_id, flags), r),
    ensures
        refused_rightly(old(app)@, final(app)@, room_id, r),
        r is Err ==> final(app)@ == old(app)@,
        in_memory(old(app)@, room_id) ==> {
            &&& r is Ok <==> old(app)@.rooms[room_id].buckets.contains_key(bucket_id)
            &&& r is Err ==> r == Err::<(), StateError>(StateError::BucketNotFound)
            &&& r is Ok ==> flags_set(old(app)@, final(app)@, room_id, bucket_id, flags)
        },
{
}

/// The flags that were set are read back; where none were set they are zero.
pub proof fn law_flags_are_read(
    app: &AppState,
    room_id: u64,
    bucket_id: u64,
    r: Result<u32, StateError>,
)
    requires
        call_ensures(AppState::get_bucket_flags, (app, room_id, bucket_id), r),
    ensures
        refused_rightly(app@, app@, room_id, r),
        in_memory(app@, room_id) ==> {
            let room = app@.rooms[room_id];
            &&& !room.buckets.contains_key(bucket_id) ==> r == Err::<u32, StateError>(
                StateError::BucketNotFound,
            )
            &&& room.buckets.contains_key(bucket_id) ==> (r matches Ok(flags) && flags == (
            if room.bucket_flags.contains_key(bucket_id) {
                room.bucket_flags[bucket_id]
            } else {
                0
            }))
        },
{
}

/// Setting or clearing the bits of a mask does so with these bits and leaves the other bits, the
/// flags of other buckets and what the room holds.
pub proof fn law_flag_bits_are_set(
    app: &mut AppState,
    room_id: u64,
    bucket_id: u64,
    mask: u32,
    enabled: bool,
    r: Result<(), StateError>,
)
    requires
        call_ensures(AppState::set_bucket_flag_bit, (app, room_id, bucket_id, mask, enabled), r),
    ensures
        refused_rightly(old(app)@, final(app)@, room_id, r),
        r is Err ==> final(app)@ == old(app)@,
        in_memory(old(app)@, room_id) ==> {
            let before = old(app)@.rooms[room_id];
            &&& r is Ok <==> before.buckets.contains_key(bucket_id)
            &&& r is Err ==> r == Err::<(), StateError>(StateError::BucketNotFound)
            &&& r is Ok ==> {
                let flags: u32 = if before.bucket_flags.contains_key(bucket_id) {
                    before.bucket_flags[bucket_id]
                } else {
                    0
                };
                let now = final(app)@.rooms[room_id].bucket_flags[bucket_id];
                &&& flags_set(old(app)@, final(app)@, room_id, bucket_id, now)
                &&& now & mask == (if enabled {
                    mask
                } else {
                    0
                })
                &&& now & !mask == flags & !mask
            }
        },
{
    let before = old(app)@.rooms[room_id];
    let flags: u32 = if before.bucket_flags.contains_key(bucket_id) {
        before.bucket_flags[bucket_id]
    } else {
        0
    };
    assert((flags | mask) & mask == mask) by (bit_vector);
    assert((flags | mask) & !mask == flags & !mask) by (bit_vector);
    assert((flags & !mask) & mask == 0) by (bit_vector);
    assert((flags & !mask) & !mask == flags & !mask) by (bit_vector);
}

// ---------------------------------------------------------------------------
// What can be asked for
// ---------------------------------------------------------------------------

/// A room can be made as long as numbers are left, and written to and committed as long as versions
/// are left; nothing else stands in the way.
pub proof fn law_what_can_be_asked_for(
    app: &mut AppState,
    room_id: u64,
    bucket_id: u64,
    key: String,
    value: Value,
)
    ensures
        old(app)@.next_room_id < u64::MAX ==> call_requires(AppState::create_room, (app,)),
        (in_memory(old(app)@, room_id) && old(app)@.rooms[room_id].tx_buffer is None ==> old(
            app,
        )@.rooms[room_id].room_counter < u64::MAX) ==> call_requires(
            AppState::set_fragment,
            (app, room_id, bucket_id, key, value),
        ) && call_requires(AppState::del_fragment, (app, room_id, bucket_id, key)),
        (in_memory(old(app)@, room_id) ==> (old(app)@.rooms[room_id].tx_buffer matches Some(waiting)
            ==> old(app)@.rooms[room_id].room_counter + waiting.len() <= u64::MAX))
            ==> call_requires(AppState::tx_end, (app, room_id)),
{
}

} // verus!
