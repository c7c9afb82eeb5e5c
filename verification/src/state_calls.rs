//! What callers of the state with named containers can rely on: the arguments and the results
//! of each call, and what it leaves as it was.

use crate::collections::{texts, StrSet};
use crate::json::Value;
use crate::state::{
    AppState, AppView, FragmentView, Metrics, RoomCommandView, RoomInfo, RoomSnapshot, RoomView,
    SnapshotView, StateError,
};
use crate::state_laws::law_token_grants;
use crate::text::{decimal, trim};
use crate::tokens::{clock_gave, container_claims};
use vstd::prelude::*;
use vstd::string::*;

verus! {

// ---------------------------------------------------------------------------
// What a client sees
// ---------------------------------------------------------------------------

/// Whether a snapshot shows of a room what may be seen of it: it has a container exactly if the
/// room has it and it is the public one or one of those allowed, and of it exactly the keys whose
/// value is not a null, with these values.
pub open spec fn shows(snapshot: SnapshotView, room: RoomView, allowed: Set<Seq<char>>) -> bool {
    let seen = snapshot.containers;
    &&& snapshot.room_counter == room.room_counter
    &&& forall|c: Seq<char>| #[trigger]
        seen.contains_key(c) <==> room.containers.contains_key(c) && (c == "public"@
            || allowed.contains(c))
    &&& forall|c: Seq<char>, k: Seq<char>|
        seen.contains_key(c) ==> (#[trigger] seen[c].contains_key(k)
            <==> room.containers[c].contains_key(k) && room.containers[c][k].value != "null"@)
    &&& forall|c: Seq<char>, k: Seq<char>|
        seen.contains_key(c) && #[trigger] seen[c].contains_key(k) ==> seen[c][k]
            == room.containers[c][k].value
}

/// A snapshot has a container exactly if the room has it and it is the public one or one of
/// those allowed, and of it exactly the keys whose value is not a null, with these values.
pub proof fn law_snapshot_keeps_to_what_is_allowed(
    app: &AppState,
    room_id: u64,
    allowed: &StrSet,
    r: Option<RoomSnapshot>,
)
    requires
        call_ensures(AppState::room_snapshot, (app, room_id, allowed), r),
    ensures
        r is Some <==> app@.rooms.contains_key(room_id),
        r matches Some(snapshot) ==> shows(snapshot@, app@.rooms[room_id], allowed@),
{
}

/// A delta has a key exactly if the room holds it in the public container or in one of those
/// allowed and it was written after the version that the client has seen; it has no container
/// without such a key. Tombstones are among what it has.
pub proof fn law_delta_keeps_to_what_is_allowed(
    app: &AppState,
    room_id: u64,
    since: u64,
    allowed: &StrSet,
    r: Option<RoomSnapshot>,
)
    requires
        call_ensures(AppState::room_delta, (app, room_id, since, allowed), r),
        app@.valid(),
    ensures
        r is Some <==> app@.rooms.contains_key(room_id),
        r matches Some(delta) ==> {
            let room = app@.rooms[room_id];
            let seen = delta@.containers;
            &&& delta@.room_counter == room.room_counter
            &&& forall|c: Seq<char>| #[trigger]
                seen.contains_key(c) ==> (c == "public"@ || allowed@.contains(c)) && exists|
                    k: Seq<char>,
                | #[trigger] seen[c].contains_key(k)
            &&& forall|c: Seq<char>, k: Seq<char>|
                (seen.contains_key(c) && #[trigger] seen[c].contains_key(k)) ==> {
                    &&& room.containers.contains_key(c)
                    &&& room.containers[c].contains_key(k)
                    &&& room.containers[c][k].key_version > since
                    &&& seen[c][k] == room.containers[c][k].value
                }
            &&& forall|c: Seq<char>, k: Seq<char>|
                (c == "public"@ || allowed@.contains(c)) && room.containers.contains_key(c)
                    && #[trigger] room.containers[c].contains_key(k)
                    && room.containers[c][k].key_version > since ==> seen.contains_key(c)
                    && seen[c].contains_key(k)
        },
{
    if let Some(delta) = r {
        let room = app@.rooms[room_id];
        let seen = delta@.containers;
        assert forall|c: Seq<char>| #[trigger] seen.contains_key(c) implies exists|k: Seq<char>|
            #[trigger] seen[c].contains_key(k) by {
            if forall|k: Seq<char>| !#[trigger] seen[c].contains_key(k) {
                assert(seen[c] =~= Map::<Seq<char>, Seq<char>>::empty());
            }
        }
        assert forall|c: Seq<char>, k: Seq<char>|
            (c == "public"@ || allowed@.contains(c)) && room.containers.contains_key(c)
                && #[trigger] room.containers[c].contains_key(k)
                && room.containers[c][k].key_version > since implies seen.contains_key(c)
            && seen[c].contains_key(k) by {
            assert(room.holds(c, k));
            let values = crate::state::shown_values(room.containers[c], Some(since));
            assert(values.contains_key(k));
        }
    }
}

// ---------------------------------------------------------------------------
// What a call leaves as it was
// ---------------------------------------------------------------------------

/// Whether two states differ in one room at most.
pub open spec fn same_elsewhere(before: AppView, after: AppView, id: u64) -> bool {
    &&& after == AppView { rooms: after.rooms, ..before }
    &&& forall|other: u64| #[trigger]
        after.rooms.contains_key(other) <==> before.rooms.contains_key(other)
    &&& forall|other: u64|
        other != id && before.rooms.contains_key(other) ==> #[trigger] after.rooms[other]
            == before.rooms[other]
}

/// Whether two rooms hold the same under every key but one.
pub open spec fn same_but_for(
    before: RoomView,
    after: RoomView,
    container: Seq<char>,
    key: Seq<char>,
) -> bool {
    forall|c: Seq<char>, k: Seq<char>|
        c != container || k != key ==> (#[trigger] after.holds(c, k) <==> before.holds(c, k)) && (
        before.holds(c, k) ==> after.containers[c][k] == before.containers[c][k])
}

/// Whether a call on a room that is not there, or busy, was answered so and changed nothing.
pub open spec fn refused_rightly<T>(
    before: AppView,
    after: AppView,
    id: u64,
    r: Result<T, StateError>,
) -> bool {
    &&& !before.rooms.contains_key(id) ==> r == Err::<T, StateError>(StateError::RoomNotFound)
        && after == before
    &&& before.rooms.contains_key(id) && before.rooms[id].io_locked ==> r == Err::<T, StateError>(
        StateError::RoomIoBusy,
    ) && after == before
}

/// Whether a room was there and free.
pub open spec fn free(s: AppView, id: u64) -> bool {
    s.rooms.contains_key(id) && !s.rooms[id].io_locked
}

// ---------------------------------------------------------------------------
// Writing and reading
// ---------------------------------------------------------------------------

/// A write to a free room outside a transaction puts the value under the key, at a version that
/// is one more than that of the room, and touches no other key and no other room. In a
/// transaction it waits at the end of the row, and nothing that is held changes.
pub proof fn law_set_writes_one_key(
    app: &mut AppState,
    room_id: u64,
    container: String,
    key: String,
    value: Value,
    r: Result<(), StateError>,
)
    requires
        call_ensures(AppState::set_fragment, (app, room_id, container, key, value), r),
        free(old(app)@, room_id) && old(app)@.rooms[room_id].tx_buffer is None ==> old(
            app,
        )@.rooms[room_id].room_counter < u64::MAX,
    ensures
        refused_rightly(old(app)@, final(app)@, room_id, r),
        free(old(app)@, room_id) ==> {
            let before = old(app)@.rooms[room_id];
            let after = final(app)@.rooms[room_id];
            &&& r is Ok
            &&& same_elsewhere(old(app)@, final(app)@, room_id)
            &&& !after.io_locked
            &&& match before.tx_buffer {
                Some(waiting) => {
                    &&& after.containers == before.containers
                    &&& after.room_counter == before.room_counter
                    &&& after.tx_buffer == Some(
                        waiting.push(
                            RoomCommandView::SetValue {
                                container: container@,
                                key: key@,
                                value: value@,
                            },
                        ),
                    )
                },
                None => {
                    &&& after.tx_buffer is None
                    &&& after.room_counter == before.room_counter + 1
                    &&& after.holds(container@, key@)
                    &&& after.containers[container@][key@] == (FragmentView {
                        value: value@,
                        key_version: (before.room_counter + 1) as u64,
                        persisted: false,
                    })
                    &&& same_but_for(before, after, container@, key@)
                    &&& forall|c: Seq<char>| #[trigger]
                        after.containers.contains_key(c) <==> before.containers.contains_key(c)
                            || c == container@
                },
            }
        },
{
}

/// A deletion in a free room outside a transaction puts a null under the key, at a version that
/// is one more than that of the room, and touches no other key; the container must be there. In
/// a transaction it waits at the end of the row.
pub proof fn law_del_deletes_one_key(
    app: &mut AppState,
    room_id: u64,
    container: String,
    key: String,
    r: Result<(), StateError>,
)
    requires
        call_ensures(AppState::del_fragment, (app, room_id, container, key), r),
        free(old(app)@, room_id) && old(app)@.rooms[room_id].tx_buffer is None ==> old(
            app,
        )@.rooms[room_id].room_counter < u64::MAX,
    ensures
        refused_rightly(old(app)@, final(app)@, room_id, r),
        free(old(app)@, room_id) ==> {
            let before = old(app)@.rooms[room_id];
            let after = final(app)@.rooms[room_id];
            &&& same_elsewhere(old(app)@, final(app)@, room_id)
            &&& !after.io_locked
            &&& match before.tx_buffer {
                Some(waiting) => {
                    &&& r is Ok
                    &&& after.containers == before.containers
                    &&& after.room_counter == before.room_counter
                    &&& after.tx_buffer == Some(
                        waiting.push(
                            RoomCommandView::Del { container: container@, key: key@ },
                        ),
                    )
                },
                None => if before.containers.contains_key(container@) {
                    &&& r is Ok
                    &&& after.tx_buffer is None
                    &&& after.room_counter == before.room_counter + 1
                    &&& after.holds(container@, key@)
                    &&& after.containers[container@][key@] == (FragmentView {
                        value: "null"@,
                        key_version: (before.room_counter + 1) as u64,
                        persisted: false,
                    })
                    &&& same_but_for(before, after, container@, key@)
                    &&& after.containers.dom() == before.containers.dom()
                } else {
                    r == Err::<(), StateError>(StateError::ContainerNotFound) && final(app)@ == old(
                        app,
                    )@
                },
            }
        },
{
    let before = old(app)@.rooms[room_id];
    let after = final(app)@.rooms[room_id];
    if free(old(app)@, room_id) && before.tx_buffer is None && before.containers.contains_key(
        container@,
    ) {
        assert(after.containers.dom() =~= before.containers.dom());
    }
}

/// A key of a free room is read exactly if it is held with a value other than a null: its value
/// and its version come back. Each error tells what is missing.
pub proof fn law_get_reads_what_is_held(
    app: &AppState,
    room_id: u64,
    container: &str,
    key: &str,
    r: Result<(Value, u64), StateError>,
)
    requires
        call_ensures(AppState::get_fragment, (app, room_id, container, key), r),
    ensures
        refused_rightly(app@, app@, room_id, r),
        free(app@, room_id) ==> {
            let room = app@.rooms[room_id];
            if !room.containers.contains_key(container@) {
                r == Err::<(Value, u64), StateError>(StateError::ContainerNotFound)
            } else if !room.containers[container@].contains_key(key@) {
                r == Err::<(Value, u64), StateError>(StateError::FragmentNotFound)
            } else if room.containers[container@][key@].value == "null"@ {
                r == Err::<(Value, u64), StateError>(StateError::FragmentTombstone)
            } else {
                r matches Ok((value, version)) && value@ == room.containers[container@][key@].value
                    && version == room.containers[container@][key@].key_version
            }
        },
{
}

/// What was written is read back: after a write outside a transaction a read of the key gives
/// the value, with the version that the room then has; of a null it says that it was deleted.
pub proof fn law_written_values_are_read_back(
    app: &mut AppState,
    room_id: u64,
    container: String,
    key: String,
    value: Value,
    done: Result<(), StateError>,
    later: &AppState,
    c: &str,
    k: &str,
    r: Result<(Value, u64), StateError>,
)
    requires
        call_ensures(AppState::set_fragment, (app, room_id, container, key, value), done),
        done is Ok,
        old(app)@.rooms[room_id].tx_buffer is None,
        old(app)@.rooms[room_id].room_counter < u64::MAX,
        later@ == final(app)@,
        c@ == container@,
        k@ == key@,
        call_ensures(AppState::get_fragment, (later, room_id, c, k), r),
    ensures
        if value@ == "null"@ {
            r == Err::<(Value, u64), StateError>(StateError::FragmentTombstone)
        } else {
            r matches Ok((read, version)) && read@ == value@ && version
                == old(app)@.rooms[room_id].room_counter + 1
        },
{
    law_set_writes_one_key(app, room_id, container, key, value, done);
    law_get_reads_what_is_held(later, room_id, c, k, r);
}

/// The mark that a fragment is on disk is read where it was set, and setting it changes no value,
/// no version and no other mark.
pub proof fn law_persisted_marks_one_key(
    app: &mut AppState,
    room_id: u64,
    container: String,
    key: String,
    persisted: bool,
    r: Result<(), StateError>,
)
    requires
        call_ensures(AppState::set_fragment_persisted, (app, room_id, container, key, persisted), r),
    ensures
        refused_rightly(old(app)@, final(app)@, room_id, r),
        r is Err ==> final(app)@ == old(app)@,
        free(old(app)@, room_id) ==> {
            let before = old(app)@.rooms[room_id];
            let after = final(app)@.rooms[room_id];
            &&& same_elsewhere(old(app)@, final(app)@, room_id)
            &&& after == RoomView { containers: after.containers, ..before }
            &&& after.containers.dom() == before.containers.dom()
            &&& same_but_for(before, after, container@, key@)
            &&& r is Ok <==> before.holds(container@, key@)
            &&& r is Ok ==> after.holds(container@, key@) && after.containers[container@][key@] == (
            FragmentView { persisted, ..before.containers[container@][key@] })
            &&& r is Err ==> r == Err::<(), StateError>(
                if before.containers.contains_key(container@) {
                    StateError::FragmentNotFound
                } else {
                    StateError::ContainerNotFound
                },
            )
        },
{
    let before = old(app)@.rooms[room_id];
    let after = final(app)@.rooms[room_id];
    if free(old(app)@, room_id) && before.holds(container@, key@) {
        assert(after.containers.dom() =~= before.containers.dom());
    }
}

/// The mark of a held fragment is what is read of it.
pub proof fn law_persisted_is_read(
    app: &AppState,
    room_id: u64,
    container: &str,
    key: &str,
    r: Result<bool, StateError>,
)
    requires
        call_ensures(AppState::get_fragment_persisted, (app, room_id, container, key), r),
    ensures
        refused_rightly(app@, app@, room_id, r),
        free(app@, room_id) ==> {
            let room = app@.rooms[room_id];
            &&& room.holds(container@, key@) ==> r == Ok::<bool, StateError>(
                room.containers[container@][key@].persisted,
            )
            &&& !room.containers.contains_key(container@) ==> r == Err::<bool, StateError>(
                StateError::ContainerNotFound,
            )
            &&& room.containers.contains_key(container@) && !room.holds(container@, key@) ==> r
                == Err::<bool, StateError>(StateError::FragmentNotFound)
        },
{
}

// ---------------------------------------------------------------------------
// Transactions
// ---------------------------------------------------------------------------

/// A transaction opens in a free room that has none open, with nothing waiting in it; nothing
/// that the room holds changes.
pub proof fn law_begin_opens(app: &mut AppState, room_id: u64, r: Result<(), StateError>)
    requires
        call_ensures(AppState::tx_begin, (app, room_id), r),
    ensures
        refused_rightly(old(app)@, final(app)@, room_id, r),
        free(old(app)@, room_id) ==> {
            let before = old(app)@.rooms[room_id];
            let after = final(app)@.rooms[room_id];
            if before.tx_buffer is Some {
                r == Err::<(), StateError>(StateError::TxAlreadyOpen) && final(app)@ == old(app)@
            } else {
                &&& r is Ok
                &&& same_elsewhere(old(app)@, final(app)@, room_id)
                &&& after.tx_buffer == Some(Seq::<RoomCommandView>::empty())
                &&& after.containers == before.containers
                &&& after.room_counter == before.room_counter
                &&& !after.io_locked
            }
        },
{
}

/// Aborting closes a transaction, if one is open, and changes nothing that the room holds.
pub proof fn law_abort_changes_nothing(app: &mut AppState, room_id: u64, r: Result<(), StateError>)
    requires
        call_ensures(AppState::tx_abort, (app, room_id), r),
    ensures
        refused_rightly(old(app)@, final(app)@, room_id, r),
        free(old(app)@, room_id) ==> {
            let before = old(app)@.rooms[room_id];
            let after = final(app)@.rooms[room_id];
            &&& r is Ok
            &&& same_elsewhere(old(app)@, final(app)@, room_id)
            &&& after.tx_buffer is None
            &&& after.containers == before.containers
            &&& after.room_counter == before.room_counter
            &&& !after.io_locked
        },
{
}

/// The key that an operation is about.
pub open spec fn place_of(command: RoomCommandView) -> (Seq<char>, Seq<char>) {
    match command {
        RoomCommandView::SetValue { container, key, .. } => (container, key),
        RoomCommandView::Del { container, key } => (container, key),
    }
}

/// The value that an operation leaves under its key.
pub open spec fn value_of(command: RoomCommandView) -> Seq<char> {
    match command {
        RoomCommandView::SetValue { value, .. } => value,
        RoomCommandView::Del { .. } => "null"@,
    }
}

/// Whether an operation is the last of a row about its key.
pub open spec fn is_last(waiting: Seq<RoomCommandView>, i: int) -> bool {
    forall|j: int| i < j < waiting.len() ==> place_of(#[trigger] waiting[j]) != place_of(waiting[i])
}

/// Whether a room holds what a row of operations leaves: under each key the value of the last
/// operation about it, at the version that this operation has by its place in the row, and under
/// the other keys what was there.
pub open spec fn holds_what_is_left(
    before: RoomView,
    after: RoomView,
    waiting: Seq<RoomCommandView>,
) -> bool {
    &&& after.room_counter == before.room_counter + waiting.len()
    &&& forall|i: int| #![trigger waiting[i]]
        0 <= i < waiting.len() && is_last(waiting, i) ==> {
            let (c, k) = place_of(waiting[i]);
            &&& after.holds(c, k)
            &&& after.containers[c][k].value == value_of(waiting[i])
            &&& after.containers[c][k].key_version == before.room_counter + i + 1
            &&& !after.containers[c][k].persisted
        }
    &&& forall|c: Seq<char>, k: Seq<char>|
        (forall|i: int| 0 <= i < waiting.len() ==> place_of(#[trigger] waiting[i]) != (c, k)) ==> (
        #[trigger] after.holds(c, k) <==> before.holds(c, k)) && (before.holds(c, k)
            ==> after.containers[c][k] == before.containers[c][k])
}

/// Whether a room is one in which one operation was done.
spec fn one_done(before: RoomView, after: RoomView, command: RoomCommandView) -> bool {
    let (c, k) = place_of(command);
    &&& after.room_counter == before.room_counter + 1
    &&& after.tx_buffer == before.tx_buffer
    &&& after.io_locked == before.io_locked
    &&& after.holds(c, k)
    &&& after.containers[c][k].value == value_of(command)
    &&& after.containers[c][k].key_version == before.room_counter + 1
    &&& !after.containers[c][k].persisted
    &&& same_but_for(before, after, c, k)
}

proof fn lemma_one_done(room: RoomView, command: RoomCommandView)
    requires
        room.room_counter < u64::MAX,
    ensures
        one_done(room, room.apply(command), command),
{
}

proof fn lemma_one_more_done(
    before: RoomView,
    mid: RoomView,
    after: RoomView,
    waiting: Seq<RoomCommandView>,
)
    requires
        waiting.len() > 0,
        holds_what_is_left(before, mid, waiting.drop_last()),
        one_done(mid, after, waiting.last()),
    ensures
        holds_what_is_left(before, after, waiting),
{
    let head = waiting.drop_last();
    let n = head.len() as int;
    assert forall|i: int|
        #![trigger waiting[i]]
        0 <= i < waiting.len() && is_last(waiting, i) implies {
        let (c, k) = place_of(waiting[i]);
        &&& after.holds(c, k)
        &&& after.containers[c][k].value == value_of(waiting[i])
        &&& after.containers[c][k].key_version == before.room_counter + i + 1
        &&& !after.containers[c][k].persisted
    } by {
        if i < n {
            assert(head[i] == waiting[i]);
            assert(place_of(waiting[n]) != place_of(waiting[i]));
            assert(is_last(head, i)) by {
                assert forall|j: int| i < j < head.len() implies place_of(#[trigger] head[j])
                    != place_of(head[i]) by {
                    assert(head[j] == waiting[j]);
                }
            }
            let (c, k) = place_of(head[i]);
            assert(mid.holds(c, k));
            assert(after.holds(c, k));
        }
    }
    assert forall|c: Seq<char>, k: Seq<char>|
        (forall|i: int| 0 <= i < waiting.len() ==> place_of(#[trigger] waiting[i]) != (c, k))
        implies (#[trigger] after.holds(c, k) <==> before.holds(c, k)) && (before.holds(c, k)
        ==> after.containers[c][k] == before.containers[c][k]) by {
        assert(place_of(waiting[n]) != (c, k));
        assert forall|i: int| 0 <= i < head.len() implies place_of(#[trigger] head[i]) != (
            c,
            k,
        ) by {
            assert(head[i] == waiting[i]);
        }
        assert(mid.holds(c, k) <==> before.holds(c, k));
    }
}

proof fn lemma_row_leaves(room: RoomView, waiting: Seq<RoomCommandView>)
    requires
        room.room_counter + waiting.len() <= u64::MAX,
    ensures
        holds_what_is_left(room, room.apply_all(waiting), waiting),
        room.apply_all(waiting).tx_buffer == room.tx_buffer,
        room.apply_all(waiting).io_locked == room.io_locked,
    decreases waiting.len(),
{
    if waiting.len() > 0 {
        let head = waiting.drop_last();
        lemma_row_leaves(room, head);
        lemma_one_done(room.apply_all(head), waiting.last());
        lemma_one_more_done(room, room.apply_all(head), room.apply_all(waiting), waiting);
    }
}

/// Ending an open transaction does all that waited in it: under each key stands what the last
/// operation about it says, the other keys are as they were, and the version has gone up by one
/// for each operation.
pub proof fn law_end_does_what_waited(app: &mut AppState, room_id: u64, r: Result<(), StateError>)
    requires
        call_ensures(AppState::tx_end, (app, room_id), r),
        free(old(app)@, room_id) ==> (old(app)@.rooms[room_id].tx_buffer matches Some(waiting)
            ==> old(app)@.rooms[room_id].room_counter + waiting.len() <= u64::MAX),
    ensures
        refused_rightly(old(app)@, final(app)@, room_id, r),
        free(old(app)@, room_id) ==> {
            let before = old(app)@.rooms[room_id];
            let after = final(app)@.rooms[room_id];
            match before.tx_buffer {
                None => r == Err::<(), StateError>(StateError::TxNotOpen) && final(app)@ == old(
                    app,
                )@,
                Some(waiting) => {
                    &&& r is Ok
                    &&& same_elsewhere(old(app)@, final(app)@, room_id)
                    &&& after.tx_buffer is None
                    &&& !after.io_locked
                    &&& holds_what_is_left(before, after, waiting)
                },
            }
        },
{
    if free(old(app)@, room_id) {
        if let Some(waiting) = old(app)@.rooms[room_id].tx_buffer {
            let before = old(app)@.rooms[room_id];
            let closed = before.with_buffer(None);
            lemma_row_leaves(closed, waiting);
            assert forall|c: Seq<char>, k: Seq<char>| closed.holds(c, k) == #[trigger] before.holds(
                c,
                k,
            ) by {}
            let after = final(app)@.rooms[room_id];
            assert forall|c: Seq<char>, k: Seq<char>|
                (forall|i: int| 0 <= i < waiting.len() ==> place_of(#[trigger] waiting[i]) != (c, k))
                implies (#[trigger] after.holds(c, k) <==> before.holds(c, k)) && (before.holds(
                c,
                k,
            ) ==> after.containers[c][k] == before.containers[c][k]) by {
                assert(closed.holds(c, k) == before.holds(c, k));
            }
        }
    }
}

// ---------------------------------------------------------------------------
// Rooms and labels
// ---------------------------------------------------------------------------

/// A new state has no rooms and no labels, counts from zero, gives out one as its first room, and
/// issues tokens for an hour.
pub proof fn law_new_is_empty(app: AppState)
    requires
        call_ensures(AppState::new, (), app),
    ensures
        app@.rooms.dom() == Set::<u64>::empty(),
        app@.labels.dom() == Set::<Seq<char>>::empty(),
        app@.next_room_id == 1,
        app@.jwt_ttl_seconds == 3600,
        app@.jwt_key is None,
        app@.jwt_issuer is None,
        app@.jwt_audience is None,
        app@.last_jwt_issue_seconds is None,
        app@.command_api_key is None,
        app@.save_dir is None,
        app@.total_ws_connections == 0,
        app@.total_command_requests == 0,
        app@.command_error_count == 0,
        app@.ws_auth_success == 0,
        app@.ws_auth_failure == 0,
        app@.command_auth_failure == 0,
        app@.invalid_command_count == 0,
        app@.ws_connection_latency_ns_total == 0,
        app@.ws_connection_count == 0,
        app@.ws_update_dropped == 0,
        app@.ws_update_rate_limited == 0,
        app@.ws_send_errors == 0,
{
    assert(app@.rooms.dom() =~= Set::<u64>::empty());
    assert(app@.labels.dom() =~= Set::<Seq<char>>::empty());
}

/// A new room has an identifier that no room had before, is empty and free, and touches no other
/// room and no label. The next one gets another identifier.
pub proof fn law_created_rooms_are_new(app: &mut AppState, r: u64)
    requires
        call_ensures(AppState::create_room, (app,), r),
        old(app)@.valid(),
        old(app)@.next_room_id < u64::MAX,
    ensures
        !old(app)@.rooms.contains_key(r),
        final(app)@.rooms.dom() == old(app)@.rooms.dom().insert(r),
        forall|other: u64|
            old(app)@.rooms.contains_key(other) ==> #[trigger] final(app)@.rooms[other] == old(
                app,
            )@.rooms[other],
        forall|c: Seq<char>| !#[trigger] final(app)@.rooms[r].containers.contains_key(c),
        final(app)@.rooms[r].room_counter == 0,
        final(app)@.rooms[r].tx_buffer is None,
        free(final(app)@, r),
        final(app)@.next_room_id == old(app)@.next_room_id + 1,
        r < final(app)@.next_room_id,
        final(app)@ == (AppView {
            rooms: final(app)@.rooms,
            next_room_id: final(app)@.next_room_id,
            ..old(app)@
        }),
{
    assert(final(app)@.rooms.dom() =~= old(app)@.rooms.dom().insert(r));
}

/// A free room that is deleted is gone, and no label leads to it; every other room and every
/// label of another room stays.
pub proof fn law_deleted_rooms_are_gone(app: &mut AppState, room_id: u64, r: Result<(), StateError>)
    requires
        call_ensures(AppState::delete_room, (app, room_id), r),
    ensures
        refused_rightly(old(app)@, final(app)@, room_id, r),
        free(old(app)@, room_id) ==> {
            let before = old(app)@;
            let after = final(app)@;
            &&& r is Ok
            &&& after == AppView { rooms: after.rooms, labels: after.labels, ..before }
            &&& forall|other: u64| #[trigger]
                after.rooms.contains_key(other) <==> before.rooms.contains_key(other) && other
                    != room_id
            &&& forall|other: u64| #[trigger]
                after.rooms.contains_key(other) ==> after.rooms[other] == before.rooms[other]
            &&& forall|label: Seq<char>| #[trigger]
                after.labels.contains_key(label) <==> before.labels.contains_key(label)
                    && before.labels[label] != room_id
            &&& forall|label: Seq<char>| #[trigger]
                after.labels.contains_key(label) ==> after.labels[label] == before.labels[label]
        },
{
}

/// A label, without the white space around it, is given to a free room if it has between one and
/// 256 bytes and belongs to no other room. The other labels stay, and nothing else changes.
pub proof fn law_labels_are_given(
    app: &mut AppState,
    room_id: u64,
    label: String,
    r: Result<(), StateError>,
)
    requires
        call_ensures(AppState::set_room_label, (app, room_id, label), r),
    ensures
        ({
            let before = old(app)@;
            let after = final(app)@;
            let name = trim(label@);
            let bytes = vstd::utf8::encode_utf8(name).len();
            &&& r is Err ==> after == before
            &&& (r == Err::<(), StateError>(StateError::LabelInvalid)) <==> (name.len() == 0
                || bytes > 256)
            &&& 0 < name.len() && bytes <= 256 ==> {
                &&& refused_rightly(before, after, room_id, r)
                &&& free(before, room_id) ==> {
                    &&& (r == Err::<(), StateError>(StateError::LabelInUse))
                        <==> before.labels.contains_key(name) && before.labels[name] != room_id
                    &&& r is Ok <==> !(before.labels.contains_key(name) && before.labels[name]
                        != room_id)
                }
            }
            &&& r is Ok ==> {
                &&& after == AppView { labels: after.labels, ..before }
                &&& after.labels.contains_key(name)
                &&& after.labels[name] == room_id
                &&& forall|other: Seq<char>| #![trigger after.labels.contains_key(other)]
                    other != name ==> (after.labels.contains_key(other)
                        <==> before.labels.contains_key(other)) && (before.labels.contains_key(
                        other,
                    ) ==> after.labels[other] == before.labels[other])
            }
        }),
{
}

/// A label that was given leads to its room, with or without white space around it.
pub proof fn law_labels_lead_to_rooms(
    app: &mut AppState,
    room_id: u64,
    label: String,
    given: Result<(), StateError>,
    later: &AppState,
    asked: &str,
    r: Result<u64, StateError>,
)
    requires
        call_ensures(AppState::set_room_label, (app, room_id, label), given),
        given is Ok,
        later@ == final(app)@,
        trim(asked@) == trim(label@),
        call_ensures(AppState::get_room_id_by_label, (later, asked), r),
    ensures
        r == Ok::<u64, StateError>(room_id),
{
    law_labels_are_given(app, room_id, label, given);
}

/// A label leads to the room that it belongs to; of a label that no room has it is said that
/// there is none.
pub proof fn law_labels_are_looked_up(app: &AppState, label: &str, r: Result<u64, StateError>)
    requires
        call_ensures(AppState::get_room_id_by_label, (app, label), r),
    ensures
        r is Ok <==> app@.labels.contains_key(trim(label@)),
        r matches Ok(id) ==> app@.labels[trim(label@)] == id,
        r matches Err(e) ==> e == StateError::LabelNotFound,
{
}

/// A room is busy after it was marked so and free after the mark was taken away; what it holds
/// does not change.
pub proof fn law_marks_make_busy(
    app: &mut AppState,
    room_id: u64,
    locked: bool,
    r: Result<(), StateError>,
)
    requires
        call_ensures(AppState::set_io_locked, (app, room_id, locked), r),
    ensures
        !old(app)@.rooms.contains_key(room_id) ==> r == Err::<(), StateError>(
            StateError::RoomNotFound,
        ) && final(app)@ == old(app)@,
        old(app)@.rooms.contains_key(room_id) ==> {
            let before = old(app)@.rooms[room_id];
            let after = final(app)@.rooms[room_id];
            &&& r is Ok
            &&& same_elsewhere(old(app)@, final(app)@, room_id)
            &&& after.io_locked == locked
            &&& after.containers == before.containers
            &&& after.room_counter == before.room_counter
            &&& after.tx_buffer == before.tx_buffer
        },
{
}

/// The version of a free room is its counter.
pub proof fn law_version_is_the_counter(app: &AppState, room_id: u64, r: Result<u64, StateError>)
    requires
        call_ensures(AppState::room_version, (app, room_id), r),
    ensures
        refused_rightly(app@, app@, room_id, r),
        free(app@, room_id) ==> r == Ok::<u64, StateError>(app@.rooms[room_id].room_counter),
{
}

/// All rooms are listed, each once and in ascending order, and nothing else is.
pub proof fn law_all_rooms_are_listed(app: &AppState, r: Vec<u64>)
    requires
        call_ensures(AppState::list_rooms, (app,), r),
    ensures
        forall|id: u64| #[trigger] r@.contains(id) <==> app@.rooms.contains_key(id),
        forall|i: int, j: int| 0 <= i < j < r@.len() ==> #[trigger] r@[i] < #[trigger] r@[j],
{
    assert forall|id: u64| #[trigger] r@.contains(id) <==> app@.rooms.contains_key(id) by {
        assert(r@.to_set().contains(id) == app@.rooms.dom().contains(id));
    }
}

/// What is told of a free room: its number, its version, and how many containers and keys it
/// has, keys with tombstones among them.
pub proof fn law_info_counts(app: &AppState, room_id: u64, r: Result<RoomInfo, StateError>)
    requires
        call_ensures(AppState::room_info, (app, room_id), r),
    ensures
        refused_rightly(app@, app@, room_id, r),
        free(app@, room_id) ==> {
            let room = app@.rooms[room_id];
            &&& r matches Ok(info)
            &&& info.room_id == room_id
            &&& info.room_counter == room.room_counter
            &&& info.container_count == room.containers.dom().len()
            &&& info.fragment_count == Set::new(
                |place: (Seq<char>, Seq<char>)| room.holds(place.0, place.1),
            ).len()
        },
{
    if free(app@, room_id) {
        let room = app@.rooms[room_id];
        assert(Set::new(|place: (Seq<char>, Seq<char>)| room.holds(place.0, place.1))
            =~= crate::state::fragment_places(room.containers));
    }
}

/// The metrics are the counters of the state and the number of its rooms.
pub proof fn law_metrics_tell_the_counters(app: &AppState, r: Metrics)
    requires
        call_ensures(AppState::metrics, (app,), r),
    ensures
        r == (Metrics {
            room_count: app@.rooms.dom().len() as usize,
            ws_connections: app@.total_ws_connections,
            next_room_id: app@.next_room_id,
            total_command_requests: app@.total_command_requests,
            command_error_count: app@.command_error_count,
            ws_auth_success: app@.ws_auth_success,
            ws_auth_failure: app@.ws_auth_failure,
            command_auth_failure: app@.command_auth_failure,
            invalid_command_count: app@.invalid_command_count,
            ws_connection_count: app@.ws_connection_count,
            ws_connection_latency_ns_total: app@.ws_connection_latency_ns_total,
            ws_update_rate_limited: app@.ws_update_rate_limited,
            ws_update_dropped: app@.ws_update_dropped,
            ws_send_errors: app@.ws_send_errors,
        }),
        r.room_count == app@.rooms.dom().len(),
{
}

// ---------------------------------------------------------------------------
// Settings and tokens
// ---------------------------------------------------------------------------

/// Each setting is what it was set to, and setting it changes nothing else.
pub proof fn law_settings_are_set(
    for_key: &mut AppState,
    for_ttl: &mut AppState,
    for_issuer: &mut AppState,
    for_audience: &mut AppState,
    text: String,
    seconds: u64,
)
    requires
        call_ensures(AppState::set_jwt_key, (for_key, text), ()),
        call_ensures(AppState::set_jwt_ttl, (for_ttl, seconds), ()),
        call_ensures(AppState::set_jwt_issuer, (for_issuer, text), ()),
        call_ensures(AppState::set_jwt_audience, (for_audience, text), ()),
    ensures
        final(for_key)@ == (AppView { jwt_key: Some(text@), ..old(for_key)@ }),
        final(for_ttl)@ == (AppView { jwt_ttl_seconds: seconds, ..old(for_ttl)@ }),
        final(for_issuer)@ == (AppView { jwt_issuer: Some(text@), ..old(for_issuer)@ }),
        final(for_audience)@ == (AppView { jwt_audience: Some(text@), ..old(for_audience)@ }),
{
}

/// The key of the command API is set unless it is blank; nothing else changes.
pub proof fn law_api_key_is_set(app: &mut AppState, key: String, r: Result<(), StateError>)
    requires
        call_ensures(AppState::set_command_api_key, (app, key), r),
    ensures
        trim(key@).len() > 0 ==> r is Ok && final(app)@ == (AppView {
            command_api_key: Some(key@),
            ..old(app)@
        }),
        trim(key@).len() == 0 ==> r == Err::<(), StateError>(StateError::CommandApiKeyInvalid)
            && final(app)@ == old(app)@,
{
}

/// Whether a state can issue tokens: it has a key of at least 32 bytes, an issuer and an audience.
pub open spec fn can_sign(s: AppView) -> bool {
    &&& s.jwt_key matches Some(key)
    &&& vstd::utf8::encode_utf8(key).len() >= 32
    &&& s.jwt_issuer is Some
    &&& s.jwt_audience is Some
}

/// What is missing first where a token cannot be issued: a key, a key that is long enough, an issuer
/// and an audience, or the room; else the room is busy.
pub open spec fn missing_for_token(s: AppView, room_id: u64) -> StateError {
    if s.jwt_key is None {
        StateError::JwtKeyNotConfigured
    } else if vstd::utf8::encode_utf8(s.jwt_key->0).len() < 32 {
        StateError::JwtKeyTooShort
    } else if s.jwt_issuer is None || s.jwt_audience is None {
        StateError::JwtIssuerAudienceNotConfigured
    } else if !s.rooms.contains_key(room_id) {
        StateError::RoomNotFound
    } else {
        StateError::RoomIoBusy
    }
}

/// Whether a token holds, for who knows the key of a state, its room as `room:` and a number and
/// as that number, exactly the containers asked for and the public one, each once, and a time at
/// which it expires that lies the lifetime of tokens after the time of issue.
pub open spec fn grants_room(
    s: AppView,
    room_id: u64,
    containers: Seq<Seq<char>>,
    issued: u64,
    token: Seq<char>,
) -> bool {
    &&& container_claims(token, s.jwt_key->0, s.jwt_issuer, s.jwt_audience) matches Some(
        (sub, room, granted, exp),
    )
    &&& room == decimal(room_id as nat)
    &&& sub == "room:"@ + decimal(room_id as nat)
    &&& granted matches Some(names)
    &&& names.no_duplicates()
    &&& forall|c: Seq<char>| #[trigger]
        names.contains(c) <==> c == "public"@ || containers.contains(c)
    &&& issued + s.jwt_ttl_seconds <= u64::MAX ==> exp == issued + s.jwt_ttl_seconds
    &&& issued + s.jwt_ttl_seconds > u64::MAX ==> exp == u64::MAX
}

/// The first time from now on that comes after another time.
pub open spec fn later_of(now: u64, last: u64) -> int {
    if now > last {
        now as int
    } else {
        last + 1
    }
}

/// A token is issued for a free room by a state that can sign. It is issued now, but later than
/// the one before, and nothing but the time of issue changes.
pub proof fn law_tokens_grant_what_was_asked(
    app: &mut AppState,
    room_id: u64,
    containers: &[String],
    now: u64,
    r: Result<String, StateError>,
)
    requires
        call_ensures(AppState::create_room_token_at, (app, room_id, containers, now), r),
    ensures
        r is Ok <==> can_sign(old(app)@) && free(old(app)@, room_id),
        r matches Err(e) ==> final(app)@ == old(app)@ && e == missing_for_token(
            old(app)@,
            room_id,
        ),
        r matches Ok(token) ==> {
            &&& final(app)@.last_jwt_issue_seconds matches Some(issued)
            &&& final(app)@ == AppView { last_jwt_issue_seconds: Some(issued), ..old(app)@ }
            &&& grants_room(old(app)@, room_id, texts(containers@), issued, token@)
            &&& old(app)@.last_jwt_issue_seconds is None ==> issued == now
            &&& old(app)@.last_jwt_issue_seconds matches Some(last) ==> (last < u64::MAX ==> issued
                == later_of(now, last))
        },
{
    law_token_grants(texts(containers@));
}

/// A token that is issued without a time of one's own is issued at the time that the clock gives,
/// but later than the one before.
pub proof fn law_tokens_are_issued_now(
    app: &mut AppState,
    room_id: u64,
    containers: &[String],
    r: Result<String, StateError>,
)
    requires
        call_ensures(AppState::create_room_token, (app, room_id, containers), r),
    ensures
        r is Ok <==> can_sign(old(app)@) && free(old(app)@, room_id),
        r matches Err(e) ==> final(app)@ == old(app)@ && e == missing_for_token(
            old(app)@,
            room_id,
        ),
        r matches Ok(token) ==> {
            &&& final(app)@.last_jwt_issue_seconds matches Some(issued)
            &&& final(app)@ == AppView { last_jwt_issue_seconds: Some(issued), ..old(app)@ }
            &&& grants_room(old(app)@, room_id, texts(containers@), issued, token@)
            &&& exists|now: u64| #[trigger]
                clock_gave(now) && (old(app)@.last_jwt_issue_seconds is None ==> issued == now) && (
                old(app)@.last_jwt_issue_seconds matches Some(last) ==> (last < u64::MAX ==> issued
                    == later_of(now, last)))
        },
{
    law_token_grants(texts(containers@));
}

// ---------------------------------------------------------------------------
// What can be asked for
// ---------------------------------------------------------------------------

/// A room can be made as long as numbers are left, and written to and committed as long as versions
/// are left; nothing else stands in the way.
pub proof fn law_what_can_be_asked_for(
    app: &mut AppState,
    room_id: u64,
    container: String,
    key: String,
    value: Value,
)
    ensures
        old(app)@.next_room_id < u64::MAX ==> call_requires(AppState::create_room, (app,)),
        (free(old(app)@, room_id) && old(app)@.rooms[room_id].tx_buffer is None ==> old(
            app,
        )@.rooms[room_id].room_counter < u64::MAX) ==> call_requires(
            AppState::set_fragment,
            (app, room_id, container, key, value),
        ) && call_requires(AppState::del_fragment, (app, room_id, container, key)),
        (free(old(app)@, room_id) ==> (old(app)@.rooms[room_id].tx_buffer matches Some(waiting)
            ==> old(app)@.rooms[room_id].room_counter + waiting.len() <= u64::MAX))
            ==> call_requires(AppState::tx_end, (app, room_id)),
{
}

} // verus!
