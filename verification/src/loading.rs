//! Rooms and the disk: a room that is kept on disk is known before it is in memory. It is
//! loaded to be used, and what is in memory of it can be dropped again.

use crate::collections::{lemma_take_one_more, IdMap, StrMap, StrSet};
use crate::json::Value;
use crate::kernel_state::{
    count_fragments, fragment_places, lemma_places_in, places_in, AppState, AppView, FragmentEntry,
    FragmentView, RoomState, RoomView, StateError,
};
use crate::persistence::{flags_of_records, BucketRecord, RecordView};
use vstd::prelude::*;
use vstd::string::*;

verus! {

/// What is kept of a room: the records of its buckets, its members, and the values by bucket
/// and key.
#[derive(Debug)]
pub struct StoredRoom {
    pub records: IdMap<BucketRecord>,
    pub members: StrSet,
    pub fragments: IdMap<StrMap<Value>>,
}

// ---------------------------------------------------------------------------
// Buckets
// ---------------------------------------------------------------------------

/// The labels of the buckets that have one.
pub open spec fn labels_of_records(records: Map<u64, RecordView>) -> Map<u64, Seq<char>> {
    Map::new(
        |id: u64| records.contains_key(id) && records[id].label is Some,
        |id: u64| records[id].label->0,
    )
}

/// A room with the buckets of records put into it: each bucket keeps what is in it or is
/// empty, has the flags of its record, and the label of its record if that has one.
pub open spec fn with_records(room: RoomView, records: Map<u64, RecordView>) -> RoomView {
    RoomView {
        buckets: Map::new(
            |id: u64| room.buckets.contains_key(id) || records.contains_key(id),
            |id: u64| room.fragments(id),
        ),
        bucket_flags: room.bucket_flags.union_prefer_right(flags_of_records(records)),
        bucket_labels: room.bucket_labels.union_prefer_right(labels_of_records(records)),
        ..room
    }
}

/// Puts the buckets of records into a room.
pub fn restore_buckets(room: &mut RoomState, records: &IdMap<BucketRecord>)
    ensures
        final(room)@ == with_records(old(room)@, records@),
{
    let ids: Vec<u64> = records.keys();
    let mut i: usize = 0;
    let ghost before = room@;
    proof {
        let none = records@.restrict(ids@.take(0).to_set());
        assert(with_records(before, none).buckets =~= before.buckets);
        assert(with_records(before, none).bucket_flags =~= before.bucket_flags);
        assert(with_records(before, none).bucket_labels =~= before.bucket_labels);
    }
    while i < ids.len()
        invariant
            i <= ids@.len(),
            ids@.to_set() == records@.dom(),
            room@ == with_records(before, records@.restrict(ids@.take(i as int).to_set())),
        decreases ids@.len() - i,
    {
        let id: u64 = ids[i];
        assert(ids@.to_set().contains(ids@[i as int]));
        if let Some(record) = records.get(id) {
            room.bucket_flags.insert(id, record.flags);
            if let Some(label) = &record.label {
                room.bucket_labels.insert(id, label.clone());
            }
            if !room.buckets.contains(id) {
                room.buckets.insert(id, StrMap::new());
            }
        }
        proof {
            lemma_take_one_more(ids@, i as int);
            let next = records@.restrict(ids@.take(i + 1).to_set());
            let goal = with_records(before, next);
            assert(room@.bucket_flags =~= goal.bucket_flags);
            assert(room@.bucket_labels =~= goal.bucket_labels);
            assert(room@.buckets =~= goal.buckets);
        }
        i = i + 1;
    }
    assert(ids@.take(i as int) =~= ids@);
    assert(records@.restrict(records@.dom()) =~= records@);
}

// ---------------------------------------------------------------------------
// Fragments
// ---------------------------------------------------------------------------

/// Whether fragments have the given values, and versions of their own that come after one
/// version and not after another.
pub open spec fn holds_values(
    fragments: Map<Seq<char>, FragmentView>,
    values: Map<Seq<char>, Seq<char>>,
    since: int,
    until: int,
) -> bool {
    &&& fragments.dom() == values.dom()
    &&& forall|k: Seq<char>| #[trigger]
        fragments.contains_key(k) ==> fragments[k].value == values[k] && since
            < fragments[k].key_version <= until
    &&& forall|k1: Seq<char>, k2: Seq<char>| #[trigger]
        fragments.contains_key(k1) && #[trigger] fragments.contains_key(k2)
            && fragments[k1].key_version == fragments[k2].key_version ==> k1 == k2
}

/// The fragments of a bucket with the given values, at the versions that follow a version.
fn fill_bucket(values: &StrMap<Value>, since: u64) -> (r: StrMap<FragmentEntry>)
    requires
        since + values@.dom().len() <= u64::MAX,
    ensures
        holds_values(r@, values@, since as int, since + values@.dom().len()),
{
    let mut out: StrMap<FragmentEntry> = StrMap::new();
    let n: usize = values.len();
    let mut i: usize = 0;
    while i < n
        invariant
            i <= n,
            n == values.order().len(),
            n == values@.dom().len(),
            since + n <= u64::MAX,
            values.order().no_duplicates(),
            values.order().to_set() == values@.dom(),
            out@.dom() == values.order().take(i as int).to_set(),
            forall|k: Seq<char>| #[trigger]
                out@.contains_key(k) ==> out@[k].value == values@[k] && since
                    < out@[k].key_version <= since + i,
            forall|k1: Seq<char>, k2: Seq<char>| #[trigger]
                out@.contains_key(k1) && #[trigger] out@.contains_key(k2) && out@[k1].key_version
                    == out@[k2].key_version ==> k1 == k2,
        decreases n - i,
    {
        let ghost before = out@;
        let ghost key = values.order()[i as int];
        let entry: FragmentEntry = FragmentEntry {
            value: values.value_at(i).clone(),
            key_version: since + i as u64 + 1,
        };
        out.insert(values.key_at(i), entry);
        proof {
            lemma_take_one_more(values.order(), i as int);
            assert(out@.dom() =~= before.dom().insert(key));
        }
        i = i + 1;
    }
    assert(values.order().take(n as int) =~= values.order());
    out
}

/// Whether a room was filled with values: it holds these and no others, at versions of their
/// own that come after its version before.
pub open spec fn filled(
    before: RoomView,
    after: RoomView,
    fragments: Map<u64, Map<Seq<char>, Seq<char>>>,
) -> bool {
    &&& after == (RoomView {
        buckets: after.buckets,
        room_counter: after.room_counter,
        ..before
    })
    &&& after.room_counter == before.room_counter + fragment_places(fragments).len()
    &&& after.buckets.dom() == fragments.dom()
    &&& forall|b: u64| #[trigger]
        fragments.contains_key(b) ==> after.buckets[b].dom() == fragments[b].dom()
    &&& forall|b: u64, k: Seq<char>| #[trigger]
        after.holds(b, k) ==> after.buckets[b][k].value == fragments[b][k]
            && before.room_counter < after.buckets[b][k].key_version
    &&& after.valid()
}

/// Fills a room that holds nothing.
fn fill_room(room: &mut RoomState, fragments: &IdMap<StrMap<Value>>)
    requires
        old(room)@.buckets == Map::<u64, Map<Seq<char>, FragmentView>>::empty(),
        old(room)@.room_counter + fragment_places(fragments@).len() <= u64::MAX,
        fragment_places(fragments@).finite(),
    ensures
        filled(old(room)@, final(room)@, fragments@),
{
    let ids: Vec<u64> = fragments.keys();
    let mut i: usize = 0;
    let ghost before = room@;
    let ghost all = fragment_places(fragments@);
    let ghost mut done = Set::<(u64, Seq<char>)>::empty();
    assert(ids@.take(0).to_set() =~= Set::<u64>::empty());
    while i < ids.len()
        invariant
            i <= ids@.len(),
            crate::collections::ascending(ids@),
            ids@.to_set() == fragments@.dom(),
            all == fragment_places(fragments@),
            all.finite(),
            before.room_counter + all.len() <= u64::MAX,
            done.finite(),
            done.subset_of(all),
            forall|place: (u64, Seq<char>)| #[trigger]
                done.contains(place) <==> all.contains(place) && ids@.take(
                    i as int,
                ).to_set().contains(place.0),
            room@ == (RoomView {
                buckets: room@.buckets,
                room_counter: room@.room_counter,
                ..before
            }),
            room@.room_counter == before.room_counter + done.len(),
            room@.buckets.dom() == ids@.take(i as int).to_set(),
            forall|b: u64| #[trigger]
                room@.buckets.contains_key(b) ==> room@.buckets[b].dom() == fragments@[b].dom(),
            forall|b: u64, k: Seq<char>| #[trigger]
                room@.holds(b, k) ==> room@.buckets[b][k].value == fragments@[b][k]
                    && before.room_counter < room@.buckets[b][k].key_version,
            room@.valid(),
        decreases ids@.len() - i,
    {
        let id: u64 = ids[i];
        let ghost now = room@;
        let ghost more = places_in(id, fragments@[id]);
        assert(ids@.to_set().contains(id));
        if let Some(values) = fragments.get(id) {
            let size: usize = values.len();
            proof {
                lemma_places_in(id, fragments@[id]);
                lemma_take_one_more(ids@, i as int);
                assert(!ids@.take(i as int).to_set().contains(id)) by {
                    if ids@.take(i as int).contains(id) {
                        let j = choose|j: int|
                            0 <= j < ids@.take(i as int).len() && ids@.take(i as int)[j] == id;
                        assert(ids@[j] < ids@[i as int]);
                    }
                }
                assert forall|place: (u64, Seq<char>)| #[trigger] more.contains(place) == (
                place.0 == id && fragments@[id].contains_key(place.1)) by {
                    if place.0 == id && fragments@[id].contains_key(place.1) {
                        assert(fragments@[id].dom().contains(place.1));
                    }
                }
                assert(done.disjoint(more));
                vstd::set_lib::lemma_set_disjoint_lens(done, more);
                assert(done.union(more).subset_of(all));
                vstd::set_lib::lemma_len_subset(done.union(more), all);
            }
            let bucket: StrMap<FragmentEntry> = fill_bucket(values, room.room_counter);
            room.room_counter = room.room_counter + size as u64;
            room.buckets.insert(id, bucket);
            proof {
                assert(room@.buckets =~= now.buckets.insert(id, bucket@));
                assert(room@.buckets.dom() =~= ids@.take(i + 1).to_set());
                assert forall|b: u64, k: Seq<char>| #[trigger] room@.holds(
                    b,
                    k,
                ) implies room@.buckets[b][k].value == fragments@[b][k] && before.room_counter
                    < room@.buckets[b][k].key_version <= room@.room_counter by {
                    if b != id {
                        assert(now.holds(b, k));
                    }
                }
                assert forall|b1: u64, k1: Seq<char>, b2: u64, k2: Seq<char>|
                    #[trigger] room@.holds(b1, k1) && #[trigger] room@.holds(b2, k2)
                        && room@.buckets[b1][k1].key_version
                        == room@.buckets[b2][k2].key_version implies b1 == b2 && k1 == k2 by {
                    if b1 != id {
                        assert(now.holds(b1, k1));
                    }
                    if b2 != id {
                        assert(now.holds(b2, k2));
                    }
                }
                assert forall|place: (u64, Seq<char>)| #[trigger] done.union(more).contains(
                    place,
                ) <==> all.contains(place) && ids@.take(i + 1).to_set().contains(place.0) by {
                }
                done = done.union(more);
            }
        }
        i = i + 1;
    }
    proof {
        assert(ids@.take(i as int) =~= ids@);
        assert(done =~= all);
    }
}

// ---------------------------------------------------------------------------
// Rooms
// ---------------------------------------------------------------------------

/// A room of which nothing is in memory.
pub open spec fn unloaded(room: RoomView) -> RoomView {
    RoomView { room_counter: room.room_counter, loaded: false, ..RoomView::fresh() }
}

/// Makes a room known that is kept on disk. It has to be loaded before it can be used, and no
/// new room gets an identifier up to that of this one.
pub fn register_room(state: &mut AppState, room_id: u64)
    requires
        room_id < u64::MAX,
    ensures
        final(state)@ == (AppView {
            next_room_id: if old(state)@.next_room_id <= room_id {
                (room_id + 1) as u64
            } else {
                old(state)@.next_room_id
            },
            ..old(state)@.with_room(room_id, unloaded(RoomView::fresh()))
        }),
        old(state)@.valid() ==> final(state)@.valid(),
{
    let mut room: RoomState = RoomState::new();
    room.loaded = false;
    state.rooms.insert(room_id, room);
    if state.next_room_id <= room_id {
        state.next_room_id = room_id + 1;
    }
}

/// Whether a room was loaded: it holds exactly the values, buckets, labels, flags and members
/// that were kept. Each value has a version of its own, and all come after the version that
/// the room had before. An open transaction stays open.
pub open spec fn loads(
    before: RoomView,
    after: RoomView,
    records: Map<u64, RecordView>,
    members: Set<Seq<char>>,
    fragments: Map<u64, Map<Seq<char>, Seq<char>>>,
) -> bool {
    &&& after.loaded
    &&& after.tx_buffer == before.tx_buffer
    &&& after.room_counter == before.room_counter + fragment_places(fragments).len()
    &&& after.buckets.dom() == records.dom().union(fragments.dom())
    &&& forall|b: u64, k: Seq<char>| #[trigger]
        after.holds(b, k) <==> fragments.contains_key(b) && fragments[b].contains_key(k)
    &&& forall|b: u64, k: Seq<char>| #[trigger]
        after.holds(b, k) ==> after.buckets[b][k].value == fragments[b][k]
            && before.room_counter < after.buckets[b][k].key_version <= after.room_counter
    &&& after.valid()
    &&& after.bucket_labels == labels_of_records(records)
    &&& after.bucket_flags == flags_of_records(records)
    &&& after.members == members
}

/// Whether the versions last for the values of a room.
pub open spec fn can_load(
    state: AppView,
    room_id: u64,
    fragments: Map<u64, Map<Seq<char>, Seq<char>>>,
) -> bool {
    state.rooms.contains_key(room_id) ==> state.rooms[room_id].room_counter + fragment_places(
        fragments,
    ).len() <= u64::MAX
}

/// Loads what is kept of a room into memory, in place of what is there.
pub fn load_room(
    state: &mut AppState,
    room_id: u64,
    records: &IdMap<BucketRecord>,
    members: StrSet,
    fragments: IdMap<StrMap<Value>>,
) -> (r: Result<(), StateError>)
    requires
        can_load(old(state)@, room_id, fragments@),
    ensures
        match r {
            Ok(_) => {
                &&& old(state)@.rooms.contains_key(room_id)
                &&& final(state)@ == old(state)@.with_room(room_id, final(state)@.rooms[room_id])
                &&& loads(
                    old(state)@.rooms[room_id],
                    final(state)@.rooms[room_id],
                    records@,
                    members@,
                    fragments@,
                )
            },
            Err(e) => {
                &&& !old(state)@.rooms.contains_key(room_id)
                &&& e == StateError::RoomNotFound
                &&& final(state)@ == old(state)@
            },
        },
        old(state)@.valid() ==> final(state)@.valid(),
{
    // The count shows that the values are finitely many.
    let _count: u128 = count_fragments(&fragments);
    match state.rooms.remove(room_id) {
        None => {
            assert(state@.rooms =~= old(state)@.rooms);
            Err(StateError::RoomNotFound)
        },
        Some(mut room) => {
            let ghost before = room@;
            room.buckets = IdMap::new();
            room.bucket_labels = IdMap::new();
            room.bucket_flags = IdMap::new();
            room.members = members;
            room.loaded = true;
            fill_room(&mut room, &fragments);
            let ghost full = room@;
            restore_buckets(&mut room, records);
            state.put_room(room_id, room);
            proof {
                assert forall|b: u64, k: Seq<char>| #[trigger] room@.holds(b, k) == full.holds(
                    b,
                    k,
                ) by {
                }
                assert forall|b: u64, k: Seq<char>| #[trigger] room@.holds(
                    b,
                    k,
                ) implies room@.buckets[b][k] == full.buckets[b][k] by {
                    assert(full.holds(b, k));
                }
                assert(room@.buckets.dom() =~= records@.dom().union(fragments@.dom()));
                assert(room@.bucket_labels =~= labels_of_records(records@));
                assert(room@.bucket_flags =~= flags_of_records(records@));
                assert(loads(before, room@, records@, members@, fragments@));
                assert(state@.rooms =~= old(state)@.rooms.insert(room_id, room@));
            }
            Ok(())
        },
    }
}

/// Drops what is in memory of a room. Its identifier, its labels and its version stay.
pub fn unload_room(state: &mut AppState, room_id: u64) -> (r: Result<(), StateError>)
    ensures
        r == (if old(state)@.rooms.contains_key(room_id) {
            Ok::<(), StateError>(())
        } else {
            Err(StateError::RoomNotFound)
        }),
        final(state)@ == (if r is Ok {
            old(state)@.with_room(room_id, unloaded(old(state)@.rooms[room_id]))
        } else {
            old(state)@
        }),
        old(state)@.valid() ==> final(state)@.valid(),
{
    match state.rooms.remove(room_id) {
        None => {
            assert(state@.rooms =~= old(state)@.rooms);
            Err(StateError::RoomNotFound)
        },
        Some(room) => {
            let mut stub: RoomState = RoomState::new();
            stub.room_counter = room.room_counter;
            stub.loaded = false;
            state.put_room(room_id, stub);
            assert(state@.rooms =~= old(state)@.rooms.insert(room_id, stub@));
            Ok(())
        },
    }
}

} // verus!
