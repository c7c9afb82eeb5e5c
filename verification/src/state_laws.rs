//! What holds of the state with named containers over several operations.

use crate::state::{
    distinct_texts, granted, labels_without, shown_values, AppView, RoomCommandView,
    RoomView, SnapshotView, StateError,
};
use crate::tokens::issue_time;
use vstd::prelude::*;
use vstd::string::*;

verus! {

// ---------------------------------------------------------------------------
// Versions
// ---------------------------------------------------------------------------

/// A write keeps a room valid: no fragment is newer than the room, and no two fragments
/// share a version.
pub proof fn law_write_keeps_valid(
    room: RoomView,
    container: Seq<char>,
    key: Seq<char>,
    value: Seq<char>,
)
    requires
        room.valid(),
        room.room_counter < u64::MAX,
    ensures
        room.write(container, key, value).valid(),
        room.write(container, key, value).room_counter == room.room_counter + 1,
{
    let after = room.write(container, key, value);
    assert forall|c: Seq<char>, k: Seq<char>| #[trigger] after.holds(c, k) implies (c == container
        && k == key && after.containers[c][k].key_version == room.room_counter + 1) || (room.holds(
        c,
        k,
    ) && after.containers[c][k] == room.containers[c][k]) by {}
}

/// Operations done in a row keep a room valid, and the counter counts them.
pub proof fn law_apply_all_keeps_valid(room: RoomView, commands: Seq<RoomCommandView>)
    requires
        room.valid(),
        room.room_counter + commands.len() <= u64::MAX,
    ensures
        room.apply_all(commands).valid(),
        room.apply_all(commands).room_counter == room.room_counter + commands.len(),
        room.apply_all(commands).tx_buffer == room.tx_buffer,
        room.apply_all(commands).io_locked == room.io_locked,
    decreases commands.len(),
{
    if commands.len() > 0 {
        law_apply_all_keeps_valid(room, commands.drop_last());
        let before = room.apply_all(commands.drop_last());
        match commands.last() {
            RoomCommandView::SetValue { container, key, value } => {
                law_write_keeps_valid(before, container, key, value);
            },
            RoomCommandView::Del { container, key } => {
                law_write_keeps_valid(before, container, key, "null"@);
            },
        }
    }
}

/// An operation keeps a room valid, whether it is done at once or waits.
pub proof fn law_submit_keeps_valid(room: RoomView, command: RoomCommandView)
    requires
        room.valid(),
        room.can_submit(),
    ensures
        room.submit(command).valid(),
{
    match room.tx_buffer {
        Some(buffer) => {
            let after = room.submit(command);
            assert forall|c: Seq<char>, k: Seq<char>| #[trigger] after.holds(c, k)
                == room.holds(c, k) by {}
        },
        None => {
            match command {
                RoomCommandView::SetValue { container, key, value } => {
                    law_write_keeps_valid(room, container, key, value);
                },
                RoomCommandView::Del { container, key } => {
                    law_write_keeps_valid(room, container, key, "null"@);
                },
            }
        },
    }
}

/// Putting a valid room in the place of one that is there keeps the state valid.
pub proof fn law_with_room_keeps_valid(state: AppView, id: u64, room: RoomView)
    requires
        state.valid(),
        state.rooms.contains_key(id),
        room.valid(),
    ensures
        state.with_room(id, room).valid(),
{
    let after = state.with_room(id, room);
    assert forall|other: u64| #[trigger] after.rooms.contains_key(other) implies other
        < after.next_room_id && after.rooms[other].valid() by {
        assert(state.rooms.contains_key(other));
    }
    assert forall|label: Seq<char>| #[trigger] after.labels.contains_key(
        label,
    ) implies after.rooms.contains_key(after.labels[label]) by {
        assert(state.labels.contains_key(label));
    }
}

// ---------------------------------------------------------------------------
// Reading what was written
// ---------------------------------------------------------------------------

/// A value that was written is read back, with the version of the write.
pub proof fn law_read_after_write(
    state: AppView,
    id: u64,
    container: Seq<char>,
    key: Seq<char>,
    value: Seq<char>,
)
    requires
        state.refusal(id) is None,
        state.rooms[id].tx_buffer is None,
        state.rooms[id].room_counter < u64::MAX,
        value != "null"@,
    ensures
        state.with_room(
            id,
            state.rooms[id].submit(RoomCommandView::SetValue { container, key, value }),
        ).read(id, container, key) == Ok::<(Seq<char>, u64), StateError>(
            (value, (state.rooms[id].room_counter + 1) as u64),
        ),
{
}

/// A key that was deleted, or written with a null, is a tombstone.
pub proof fn law_read_after_delete(state: AppView, id: u64, container: Seq<char>, key: Seq<char>)
    requires
        state.refusal(id) is None,
        state.rooms[id].tx_buffer is None,
    ensures
        state.with_room(
            id,
            state.rooms[id].submit(RoomCommandView::Del { container, key }),
        ).read(id, container, key) == Err::<(Seq<char>, u64), StateError>(
            StateError::FragmentTombstone,
        ),
        state.with_room(
            id,
            state.rooms[id].submit(
                RoomCommandView::SetValue { container, key, value: "null"@ },
            ),
        ).read(id, container, key) == Err::<(Seq<char>, u64), StateError>(
            StateError::FragmentTombstone,
        ),
{
}

/// An operation on one key leaves the other keys as they are.
pub proof fn law_other_keys_stay(
    state: AppView,
    id: u64,
    container: Seq<char>,
    key: Seq<char>,
    value: Seq<char>,
    other_container: Seq<char>,
    other_key: Seq<char>,
)
    requires
        state.refusal(id) is None,
        state.rooms[id].holds(other_container, other_key),
        other_container != container || other_key != key,
    ensures
        state.with_room(
            id,
            state.rooms[id].submit(RoomCommandView::SetValue { container, key, value }),
        ).entry(id, other_container, other_key) == state.entry(id, other_container, other_key),
        state.with_room(
            id,
            state.rooms[id].submit(RoomCommandView::Del { container, key }),
        ).entry(id, other_container, other_key) == state.entry(id, other_container, other_key),
{
}

/// An operation on one room leaves the other rooms as they are.
pub proof fn law_other_rooms_stay(state: AppView, id: u64, room: RoomView, other: u64)
    requires
        other != id,
    ensures
        state.with_room(id, room).rooms.contains_key(other) == state.rooms.contains_key(other),
        state.rooms.contains_key(other) ==> state.with_room(id, room).rooms[other]
            == state.rooms[other],
{
}

// ---------------------------------------------------------------------------
// Transactions
// ---------------------------------------------------------------------------

/// The room after a row of operations that were asked for one after the other.
pub open spec fn submit_all(room: RoomView, commands: Seq<RoomCommandView>) -> RoomView
    decreases commands.len(),
{
    if commands.len() == 0 {
        room
    } else {
        submit_all(room, commands.drop_last()).submit(commands.last())
    }
}

/// While a transaction is open nothing of what is asked for can be seen.
pub proof fn law_transaction_is_invisible(room: RoomView, commands: Seq<RoomCommandView>)
    requires
        room.tx_buffer is Some,
    ensures
        submit_all(room, commands) == room.with_buffer(Some(room.tx_buffer->0 + commands)),
        submit_all(room, commands).containers == room.containers,
        submit_all(room, commands).room_counter == room.room_counter,
    decreases commands.len(),
{
    let buffer = room.tx_buffer->0;
    if commands.len() == 0 {
        assert(buffer + commands =~= buffer);
    } else {
        law_transaction_is_invisible(room, commands.drop_last());
        assert((buffer + commands.drop_last()).push(commands.last()) =~= buffer + commands);
    }
}

/// Aborting a transaction leaves the room as it was before the transaction began.
pub proof fn law_abort_restores(room: RoomView, commands: Seq<RoomCommandView>)
    requires
        room.tx_buffer is None,
    ensures
        submit_all(room.with_buffer(Some(Seq::empty())), commands).with_buffer(None) == room,
{
    law_transaction_is_invisible(room.with_buffer(Some(Seq::empty())), commands);
}

/// Ending a transaction does what was asked for, in the order in which it was asked for,
/// as if there had been no transaction.
pub proof fn law_commit_is_in_order(room: RoomView, commands: Seq<RoomCommandView>)
    requires
        room.tx_buffer is None,
        room.room_counter + commands.len() <= u64::MAX,
    ensures
        ({
            let pending = submit_all(room.with_buffer(Some(Seq::empty())), commands);
            pending.with_buffer(None).apply_all(pending.tx_buffer->0) == submit_all(room, commands)
        }),
{
    let open = room.with_buffer(Some(Seq::empty()));
    law_transaction_is_invisible(open, commands);
    assert(Seq::<RoomCommandView>::empty() + commands =~= commands);
    lemma_submit_is_apply(room, commands);
    law_abort_restores(room, commands);
}

proof fn lemma_submit_is_apply(room: RoomView, commands: Seq<RoomCommandView>)
    requires
        room.tx_buffer is None,
    ensures
        submit_all(room, commands) == room.apply_all(commands),
        room.apply_all(commands).tx_buffer is None,
    decreases commands.len(),
{
    if commands.len() > 0 {
        lemma_submit_is_apply(room, commands.drop_last());
    }
}

// ---------------------------------------------------------------------------
// Snapshots and deltas
// ---------------------------------------------------------------------------

/// What a snapshot or a delta says of a key.
pub open spec fn lookup(s: SnapshotView, container: Seq<char>, key: Seq<char>) -> Option<Seq<char>> {
    if s.containers.contains_key(container) && s.containers[container].contains_key(key) {
        Some(s.containers[container][key])
    } else {
        None
    }
}

/// A snapshot shows the values of the public container and of those allowed, without tombstones, and
/// nothing else.
pub proof fn law_snapshot_shows_what_is_live(
    room: RoomView,
    allowed: Set<Seq<char>>,
    container: Seq<char>,
    key: Seq<char>,
)
    ensures
        lookup(room.snapshot(allowed), container, key) == (if (container == "public"@
            || allowed.contains(container))
            && room.holds(container, key) && room.containers[container][key].value != "null"@ {
            Some(room.containers[container][key].value)
        } else {
            None
        }),
{
}

/// A delta shows the values and the tombstones of the public container and of those allowed that were
/// written after the given version, and nothing else.
pub proof fn law_delta_shows_what_changed(
    room: RoomView,
    since: u64,
    allowed: Set<Seq<char>>,
    container: Seq<char>,
    key: Seq<char>,
)
    requires
        room.valid(),
    ensures
        lookup(room.delta(since, allowed), container, key) == (if (container == "public"@
            || allowed.contains(container))
            && room.holds(container, key) && room.containers[container][key].key_version > since {
            Some(room.containers[container][key].value)
        } else {
            None
        }),
{
    if room.holds(container, key) && room.containers[container][key].key_version > since {
        let values = shown_values(room.containers[container], Some(since));
        assert(values.contains_key(key));
        assert(values != Map::<Seq<char>, Seq<char>>::empty());
    }
}

/// A client that has seen the current version gets nothing.
pub proof fn law_delta_is_empty_when_up_to_date(
    room: RoomView,
    since: u64,
    allowed: Set<Seq<char>>,
)
    requires
        since >= room.room_counter,
    ensures
        room.delta(since, allowed).containers == Map::<
            Seq<char>,
            Map<Seq<char>, Seq<char>>,
        >::empty(),
        room.delta(since, allowed).room_counter == room.room_counter,
{
}

proof fn lemma_changed_or_same(
    room: RoomView,
    commands: Seq<RoomCommandView>,
    container: Seq<char>,
    key: Seq<char>,
)
    requires
        room.room_counter + commands.len() <= u64::MAX,
    ensures
        ({
            let after = room.apply_all(commands);
            &&& after.room_counter == room.room_counter + commands.len()
            &&& (after.holds(container, key) && after.containers[container][key].key_version
                > room.room_counter) || (after.holds(container, key) == room.holds(container, key)
                && (room.holds(container, key) ==> after.containers[container][key]
                == room.containers[container][key]))
        }),
    decreases commands.len(),
{
    if commands.len() > 0 {
        lemma_changed_or_same(room, commands.drop_last(), container, key);
    }
}

/// Keeping up by deltas is as good as starting over: what a client knew of a room,
/// overlaid with what changed since then, is the snapshot of the room as it is now.
pub proof fn law_delta_brings_up_to_date(
    room: RoomView,
    commands: Seq<RoomCommandView>,
    allowed: Set<Seq<char>>,
    container: Seq<char>,
    key: Seq<char>,
)
    requires
        room.valid(),
        room.room_counter + commands.len() <= u64::MAX,
    ensures
        lookup(room.apply_all(commands).snapshot(allowed), container, key) == (match lookup(
            room.apply_all(commands).delta(room.room_counter, allowed),
            container,
            key,
        ) {
            Some(value) => if value == "null"@ {
                None
            } else {
                Some(value)
            },
            None => lookup(room.snapshot(allowed), container, key),
        }),
{
    let after = room.apply_all(commands);
    law_apply_all_keeps_valid(room, commands);
    lemma_changed_or_same(room, commands, container, key);
    law_snapshot_shows_what_is_live(after, allowed, container, key);
    law_snapshot_shows_what_is_live(room, allowed, container, key);
    law_delta_shows_what_changed(after, room.room_counter, allowed, container, key);
    if room.holds(container, key) {
        assert(room.containers[container][key].key_version <= room.room_counter);
    }
}

// ---------------------------------------------------------------------------
// Labels and tokens
// ---------------------------------------------------------------------------

/// When a room is deleted no label leads to it any more, and the other labels stay.
pub proof fn law_delete_drops_labels(labels: Map<Seq<char>, u64>, id: u64, label: Seq<char>)
    ensures
        labels_without(labels, id).contains_key(label) <==> labels.contains_key(label)
            && labels[label] != id,
        labels_without(labels, id).contains_key(label) ==> labels_without(labels, id)[label]
            == labels[label],
{
}

proof fn lemma_distinct_texts(s: Seq<Seq<char>>)
    ensures
        distinct_texts(s).no_duplicates(),
        forall|t: Seq<char>| #[trigger] distinct_texts(s).contains(t) <==> s.contains(t),
    decreases s.len(),
{
    if s.len() > 0 {
        let head = s.drop_last();
        let before = distinct_texts(head);
        lemma_distinct_texts(head);
        assert forall|t: Seq<char>| s.contains(t) == (head.contains(t) || t == s.last()) by {
            if head.contains(t) {
                let i = choose|i: int| 0 <= i < head.len() && head[i] == t;
                assert(s[i] == t);
            }
            if t == s.last() {
                assert(s[s.len() - 1] == t);
            }
            if s.contains(t) {
                let i = choose|i: int| 0 <= i < s.len() && s[i] == t;
                if i < head.len() {
                    assert(head[i] == t);
                }
            }
        }
        if !before.contains(s.last()) {
            let after = before.push(s.last());
            assert forall|t: Seq<char>| #[trigger] after.contains(t) == (before.contains(t) || t
                == s.last()) by {
                if before.contains(t) {
                    let i = choose|i: int| 0 <= i < before.len() && before[i] == t;
                    assert(after[i] == t);
                }
                assert(after[before.len() as int] == s.last());
            }
            assert forall|i: int, j: int| 0 <= i < after.len() && 0 <= j < after.len() && i
                != j implies after[i] != after[j] by {
                if i < before.len() && j < before.len() {
                    assert(before[i] != before[j]);
                } else if i < before.len() {
                    assert(before.contains(before[i]));
                } else {
                    assert(before.contains(before[j]));
                }
            }
        }
    }
}

/// A token grants the containers that were asked for and the public one, each once.
pub proof fn law_token_grants(containers: Seq<Seq<char>>)
    ensures
        granted(containers).no_duplicates(),
        granted(containers).contains("public"@),
        forall|c: Seq<char>| #[trigger]
            granted(containers).contains(c) <==> c == "public"@ || containers.contains(c),
{
    let asked = containers.push("public"@);
    lemma_distinct_texts(asked);
    assert forall|c: Seq<char>| asked.contains(c) == (c == "public"@ || containers.contains(c)) by {
        if containers.contains(c) {
            let i = choose|i: int| 0 <= i < containers.len() && containers[i] == c;
            assert(asked[i] == c);
        }
        assert(asked[containers.len() as int] == "public"@);
    }
}

/// Tokens are issued at ever later times, as long as the numbers last.
pub proof fn law_issue_times_increase(now: u64, last: u64)
    requires
        last < u64::MAX,
    ensures
        issue_time(now, Some(last)) > last,
        issue_time(now, Some(last)) >= now,
{
}

} // verus!
