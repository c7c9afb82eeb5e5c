//! What holds of the state with numbered buckets over several operations.

use crate::kernel_state::{
    bucket_name, distinct_ids, flags_of, granted, lemma_bucket_name, masked, shown_values,
    AppView, RoomCommandView, RoomView, SnapshotView, StateError, SERVER_ONLY_BUCKET_ID,
};
use vstd::prelude::*;
use vstd::string::*;

verus! {

// ---------------------------------------------------------------------------
// Versions
// ---------------------------------------------------------------------------

/// A write keeps a room valid: no fragment is newer than the room, and no two fragments
/// share a version.
pub proof fn law_write_keeps_valid(
    room: RoomView,
    bucket_id: u64,
    key: Seq<char>,
    value: Seq<char>,
)
    requires
        room.valid(),
        room.room_counter < u64::MAX,
    ensures
        room.write(bucket_id, key, value).valid(),
        room.write(bucket_id, key, value).room_counter == room.room_counter + 1,
{
    let after = room.write(bucket_id, key, value);
    assert forall|b: u64, k: Seq<char>| #[trigger] after.holds(b, k) implies (b == bucket_id
        && k == key && after.buckets[b][k].key_version == room.room_counter + 1) || (room.holds(
        b,
        k,
    ) && after.buckets[b][k] == room.buckets[b][k]) by {}
}

/// Operations done in a row keep a room valid, and the counter counts them.
pub proof fn law_apply_all_keeps_valid(room: RoomView, commands: Seq<RoomCommandView>)
    requires
        room.valid(),
        room.room_counter + commands.len() <= u64::MAX,
    ensures
        room.apply_all(commands).valid(),
        room.apply_all(commands).room_counter == room.room_counter + commands.len(),
        room.apply_all(commands).tx_buffer == room.tx_buffer,
    decreases commands.len(),
{
    if commands.len() > 0 {
        law_apply_all_keeps_valid(room, commands.drop_last());
        let before = room.apply_all(commands.drop_last());
        match commands.last() {
            RoomCommandView::SetValue { bucket_id, key, value } => {
                law_write_keeps_valid(before, bucket_id, key, value);
            },
            RoomCommandView::Del { bucket_id, key } => {
                law_write_keeps_valid(before, bucket_id, key, "null"@);
            },
        }
    }
}

/// An operation keeps a room valid, whether it is done at once or waits.
pub proof fn law_submit_keeps_valid(room: RoomView, command: RoomCommandView)
    requires
        room.valid(),
        room.can_submit(),
    ensures
        room.submit(command).valid(),
{
    match room.tx_buffer {
        Some(buffer) => {
            let after = room.submit(command);
            assert forall|b: u64, k: Seq<char>| #[trigger] after.holds(b, k)
                == room.holds(b, k) by {}
        },
        None => {
            match command {
                RoomCommandView::SetValue { bucket_id, key, value } => {
                    law_write_keeps_valid(room, bucket_id, key, value);
                },
                RoomCommandView::Del { bucket_id, key } => {
                    law_write_keeps_valid(room, bucket_id, key, "null"@);
                },
            }
        },
    }
}

/// Putting a valid room in the place of one that is there keeps the state valid.
pub proof fn law_with_room_keeps_valid(state: AppView, id: u64, room: RoomView)
    requires
        state.valid(),
        state.rooms.contains_key(id),
        room.valid(),
    ensures
        state.with_room(id, room).valid(),
{
    let after = state.with_room(id, room);
    assert forall|other: u64| #[trigger] after.rooms.contains_key(other) implies other
        < after.next_room_id && after.rooms[other].valid() by {
        assert(state.rooms.contains_key(other));
    }
    assert forall|label: Seq<char>| #[trigger] after.labels.contains_key(
        label,
    ) implies after.rooms.contains_key(after.labels[label]) by {
        assert(state.labels.contains_key(label));
    }
}

// ---------------------------------------------------------------------------
// Reading what was written
// ---------------------------------------------------------------------------

/// A value that was written is read back, with the version of the write.
pub proof fn law_read_after_write(
    state: AppView,
    id: u64,
    bucket_id: u64,
    key: Seq<char>,
    value: Seq<char>,
)
    requires
        state.refusal(id) is None,
        state.rooms[id].tx_buffer is None,
        state.rooms[id].room_counter < u64::MAX,
        value != "null"@,
    ensures
        state.with_room(
            id,
            state.rooms[id].submit(RoomCommandView::SetValue { bucket_id, key, value }),
        ).read(id, bucket_id, key) == Ok::<(Seq<char>, u64), StateError>(
            (value, (state.rooms[id].room_counter + 1) as u64),
        ),
{
}

/// A key that was deleted, or written with a null, is a tombstone.
pub proof fn law_read_after_delete(state: AppView, id: u64, bucket_id: u64, key: Seq<char>)
    requires
        state.refusal(id) is None,
        state.rooms[id].tx_buffer is None,
    ensures
        state.with_room(
            id,
            state.rooms[id].submit(RoomCommandView::Del { bucket_id, key }),
        ).read(id, bucket_id, key) == Err::<(Seq<char>, u64), StateError>(
            StateError::FragmentTombstone,
        ),
        state.with_room(
            id,
            state.rooms[id].submit(
                RoomCommandView::SetValue { bucket_id, key, value: "null"@ },
            ),
        ).read(id, bucket_id, key) == Err::<(Seq<char>, u64), StateError>(
            StateError::FragmentTombstone,
        ),
{
}

/// An operation on one key leaves the other keys as they are.
pub proof fn law_other_keys_stay(
    state: AppView,
    id: u64,
    bucket_id: u64,
    key: Seq<char>,
    value: Seq<char>,
    other_bucket: u64,
    other_key: Seq<char>,
)
    requires
        state.refusal(id) is None,
        state.rooms[id].holds(other_bucket, other_key),
        other_bucket != bucket_id || other_key != key,
    ensures
        state.with_room(
            id,
            state.rooms[id].submit(RoomCommandView::SetValue { bucket_id, key, value }),
        ).entry(id, other_bucket, other_key) == state.entry(id, other_bucket, other_key),
        state.with_room(
            id,
            state.rooms[id].submit(RoomCommandView::Del { bucket_id, key }),
        ).entry(id, other_bucket, other_key) == state.entry(id, other_bucket, other_key),
{
}

/// An operation on one room leaves the other rooms as they are.
pub proof fn law_other_rooms_stay(state: AppView, id: u64, room: RoomView, other: u64)
    requires
        other != id,
    ensures
        state.with_room(id, room).rooms.contains_key(other) == state.rooms.contains_key(other),
        state.rooms.contains_key(other) ==> state.with_room(id, room).rooms[other]
            == state.rooms[other],
{
}

// ---------------------------------------------------------------------------
// Transactions
// ---------------------------------------------------------------------------

/// The room after a row of operations that were asked for one after the other.
pub open spec fn submit_all(room: RoomView, commands: Seq<RoomCommandView>) -> RoomView
    decreases commands.len(),
{
    if commands.len() == 0 {
        room
    } else {
        submit_all(room, commands.drop_last()).submit(commands.last())
    }
}

/// While a transaction is open nothing of what is asked for can be seen.
pub proof fn law_transaction_is_invisible(room: RoomView, commands: Seq<RoomCommandView>)
    requires
        room.tx_buffer is Some,
    ensures
        submit_all(room, commands) == room.with_buffer(Some(room.tx_buffer->0 + commands)),
        submit_all(room, commands).buckets == room.buckets,
        submit_all(room, commands).room_counter == room.room_counter,
    decreases commands.len(),
{
    let buffer = room.tx_buffer->0;
    if commands.len() == 0 {
        assert(buffer + commands =~= buffer);
    } else {
        law_transaction_is_invisible(room, commands.drop_last());
        assert((buffer + commands.drop_last()).push(commands.last()) =~= buffer + commands);
    }
}

/// Aborting a transaction leaves the room as it was before the transaction began.
pub proof fn law_abort_restores(room: RoomView, commands: Seq<RoomCommandView>)
    requires
        room.tx_buffer is None,
    ensures
        submit_all(room.with_buffer(Some(Seq::empty())), commands).with_buffer(None) == room,
{
    law_transaction_is_invisible(room.with_buffer(Some(Seq::empty())), commands);
}

/// Ending a transaction does what was asked for, in the order in which it was asked for,
/// as if there had been no transaction.
pub proof fn law_commit_is_in_order(room: RoomView, commands: Seq<RoomCommandView>)
    requires
        room.tx_buffer is None,
        room.room_counter + commands.len() <= u64::MAX,
    ensures
        ({
            let pending = submit_all(room.with_buffer(Some(Seq::empty())), commands);
            pending.with_buffer(None).apply_all(pending.tx_buffer->0) == submit_all(room, commands)
        }),
{
    let open = room.with_buffer(Some(Seq::empty()));
    law_transaction_is_invisible(open, commands);
    assert(Seq::<RoomCommandView>::empty() + commands =~= commands);
    lemma_submit_is_apply(room, commands);
    law_abort_restores(room, commands);
}

proof fn lemma_submit_is_apply(room: RoomView, commands: Seq<RoomCommandView>)
    requires
        room.tx_buffer is None,
    ensures
        submit_all(room, commands) == room.apply_all(commands),
        room.apply_all(commands).tx_buffer is None,
    decreases commands.len(),
{
    if commands.len() > 0 {
        lemma_submit_is_apply(room, commands.drop_last());
    }
}

// ---------------------------------------------------------------------------
// Snapshots and deltas
// ---------------------------------------------------------------------------

/// What a snapshot or a delta says of a key.
pub open spec fn lookup(s: SnapshotView, bucket_id: u64, key: Seq<char>) -> Option<Seq<char>> {
    let name = bucket_name(bucket_id);
    if s.buckets.contains_key(name) && s.buckets[name].contains_key(key) {
        Some(s.buckets[name][key])
    } else {
        None
    }
}

/// A snapshot shows the values of the public bucket and of those allowed, without tombstones, and nothing
/// else.
pub proof fn law_snapshot_shows_what_is_live(
    room: RoomView,
    allowed: Set<u64>,
    bucket_id: u64,
    key: Seq<char>,
)
    ensures
        lookup(room.snapshot(allowed), bucket_id, key) == (if bucket_id != SERVER_ONLY_BUCKET_ID
            && (bucket_id == 0 || allowed.contains(bucket_id))
            && room.holds(bucket_id, key) && room.buckets[bucket_id][key].value != "null"@ {
            Some(room.buckets[bucket_id][key].value)
        } else {
            None
        }),
{
    lemma_bucket_name(bucket_id);
}

/// A delta shows the values and the tombstones of the public bucket and of those allowed that were written
/// after the given version, and nothing else.
pub proof fn law_delta_shows_what_changed(
    room: RoomView,
    since: u64,
    allowed: Set<u64>,
    bucket_id: u64,
    key: Seq<char>,
)
    requires
        room.valid(),
    ensures
        lookup(room.delta(since, allowed), bucket_id, key) == (if bucket_id != SERVER_ONLY_BUCKET_ID
            && (bucket_id == 0 || allowed.contains(bucket_id))
            && room.holds(bucket_id, key) && room.buckets[bucket_id][key].key_version > since {
            Some(room.buckets[bucket_id][key].value)
        } else {
            None
        }),
{
    lemma_bucket_name(bucket_id);
    if room.holds(bucket_id, key) && room.buckets[bucket_id][key].key_version > since {
        let values = shown_values(room.buckets[bucket_id], Some(since));
        assert(values.contains_key(key));
        assert(values != Map::<Seq<char>, Seq<char>>::empty());
    }
}

/// The bucket of the server is never shown, whatever a client is allowed.
pub proof fn law_server_only_is_never_shown(room: RoomView, since: u64, allowed: Set<u64>)
    ensures
        !room.snapshot(allowed).buckets.contains_key(bucket_name(SERVER_ONLY_BUCKET_ID)),
        !room.delta(since, allowed).buckets.contains_key(bucket_name(SERVER_ONLY_BUCKET_ID)),
{
    lemma_bucket_name(SERVER_ONLY_BUCKET_ID);
}

/// A client that has seen the current version gets nothing.
pub proof fn law_delta_is_empty_when_up_to_date(room: RoomView, since: u64, allowed: Set<u64>)
    requires
        since >= room.room_counter,
    ensures
        room.delta(since, allowed).buckets == Map::<Seq<char>, Map<Seq<char>, Seq<char>>>::empty(),
        room.delta(since, allowed).room_counter == room.room_counter,
{
}

proof fn lemma_changed_or_same(
    room: RoomView,
    commands: Seq<RoomCommandView>,
    bucket_id: u64,
    key: Seq<char>,
)
    requires
        room.room_counter + commands.len() <= u64::MAX,
    ensures
        ({
            let after = room.apply_all(commands);
            &&& after.room_counter == room.room_counter + commands.len()
            &&& (after.holds(bucket_id, key) && after.buckets[bucket_id][key].key_version
                > room.room_counter) || (after.holds(bucket_id, key) == room.holds(bucket_id, key)
                && (room.holds(bucket_id, key) ==> after.buckets[bucket_id][key]
                == room.buckets[bucket_id][key]))
        }),
    decreases commands.len(),
{
    if commands.len() > 0 {
        lemma_changed_or_same(room, commands.drop_last(), bucket_id, key);
    }
}

/// Keeping up by deltas is as good as starting over: what a client knew of a room,
/// overlaid with what changed since then, is the snapshot of the room as it is now.
pub proof fn law_delta_brings_up_to_date(
    room: RoomView,
    commands: Seq<RoomCommandView>,
    allowed: Set<u64>,
    bucket_id: u64,
    key: Seq<char>,
)
    requires
        room.valid(),
        room.room_counter + commands.len() <= u64::MAX,
    ensures
        lookup(room.apply_all(commands).snapshot(allowed), bucket_id, key) == (match lookup(
            room.apply_all(commands).delta(room.room_counter, allowed),
            bucket_id,
            key,
        ) {
            Some(value) => if value == "null"@ {
                None
            } else {
                Some(value)
            },
            None => lookup(room.snapshot(allowed), bucket_id, key),
        }),
{
    let after = room.apply_all(commands);
    law_apply_all_keeps_valid(room, commands);
    lemma_changed_or_same(room, commands, bucket_id, key);
    law_snapshot_shows_what_is_live(after, allowed, bucket_id, key);
    law_snapshot_shows_what_is_live(room, allowed, bucket_id, key);
    law_delta_shows_what_changed(after, room.room_counter, allowed, bucket_id, key);
    if room.holds(bucket_id, key) {
        assert(room.buckets[bucket_id][key].key_version <= room.room_counter);
    }
}

// ---------------------------------------------------------------------------
// Flags and tokens
// ---------------------------------------------------------------------------

/// Setting the bits of a mask sets these, clearing them clears these, and the other bits
/// stay as they are; and to clear what was set takes the flags back to where none of the
/// bits was set.
pub proof fn law_flag_bits(flags: u32, mask: u32)
    ensures
        masked(flags, mask, true) & mask == mask,
        masked(flags, mask, true) & !mask == flags & !mask,
        masked(flags, mask, false) & mask == 0,
        masked(flags, mask, false) & !mask == flags & !mask,
        flags & mask == 0 ==> masked(masked(flags, mask, true), mask, false) == flags,
{
    assert((flags | mask) & mask == mask) by (bit_vector);
    assert((flags | mask) & !mask == flags & !mask) by (bit_vector);
    assert((flags & !mask) & mask == 0) by (bit_vector);
    assert((flags & !mask) & !mask == flags & !mask) by (bit_vector);
    assert(flags & mask == 0 ==> (flags | mask) & !mask == flags) by (bit_vector);
}

/// The flags that were set are the flags that are read.
pub proof fn law_flags_read_back(room: RoomView, bucket_id: u64, flags: u32)
    ensures
        flags_of(
            RoomView { bucket_flags: room.bucket_flags.insert(bucket_id, flags), ..room },
            bucket_id,
        ) == flags,
{
}

pub(crate) proof fn lemma_distinct_ids(s: Seq<u64>)
    ensures
        distinct_ids(s).no_duplicates(),
        forall|t: u64| #[trigger] distinct_ids(s).contains(t) <==> s.contains(t),
    decreases s.len(),
{
    if s.len() > 0 {
        let head = s.drop_last();
        let before = distinct_ids(head);
        lemma_distinct_ids(head);
        assert forall|t: u64| s.contains(t) == (head.contains(t) || t == s.last()) by {
            if head.contains(t) {
                let i = choose|i: int| 0 <= i < head.len() && head[i] == t;
                assert(s[i] == t);
            }
            if t == s.last() {
                assert(s[s.len() - 1] == t);
            }
            if s.contains(t) {
                let i = choose|i: int| 0 <= i < s.len() && s[i] == t;
                if i < head.len() {
                    assert(head[i] == t);
                }
            }
        }
        if !before.contains(s.last()) {
            let after = before.push(s.last());
            assert forall|t: u64| #[trigger] after.contains(t) == (before.contains(t) || t
                == s.last()) by {
                if before.contains(t) {
                    let i = choose|i: int| 0 <= i < before.len() && before[i] == t;
                    assert(after[i] == t);
                }
                assert(after[before.len() as int] == s.last());
            }
            assert forall|i: int, j: int| 0 <= i < after.len() && 0 <= j < after.len() && i
                != j implies after[i] != after[j] by {
                if i < before.len() && j < before.len() {
                    assert(before[i] != before[j]);
                } else if i < before.len() {
                    assert(before.contains(before[i]));
                } else {
                    assert(before.contains(before[j]));
                }
            }
        }
    }
}

/// A token grants the buckets that were asked for and the public one, each once; never
/// the one of the server.
pub proof fn law_token_grants(state: AppView, id: u64, sub: Seq<char>, buckets: Seq<u64>)
    requires
        state.token_refusal(id, sub, buckets) is None,
    ensures
        granted(buckets).no_duplicates(),
        granted(buckets).contains(0),
        !granted(buckets).contains(SERVER_ONLY_BUCKET_ID),
        forall|b: u64| #[trigger] granted(buckets).contains(b) <==> b == 0 || buckets.contains(b),
{
    let asked = buckets.push(0);
    lemma_distinct_ids(asked);
    assert forall|b: u64| asked.contains(b) == (b == 0 || buckets.contains(b)) by {
        if buckets.contains(b) {
            let i = choose|i: int| 0 <= i < buckets.len() && buckets[i] == b;
            assert(asked[i] == b);
        }
        assert(asked[buckets.len() as int] == 0);
    }
}

} // verus!
