//! What clients can rely on in the texts that they are sent.

use crate::collections::StrMap;
use crate::commands::DataUpdate;
use crate::json::{json_string, Value};
use crate::room_hub::RoomEvent;
use crate::text::{decimal, precedes};
use crate::wire::{
    auth_error, auth_error_with_detail, auth_ok_with_state, container_snapshot_text,
    bucket_snapshot_text, in_ascending_order, inner_texts, map_text, maps_text, members_of,
    members_text, update_event_text, values_text,
};
use vstd::prelude::*;
use vstd::string::*;

verus! {

// ---------------------------------------------------------------------------
// Events and answers
// ---------------------------------------------------------------------------

/// An update tells the bucket, the key, the version, the value, and whether the key was deleted; a
/// key that was deleted has a null as its value.
pub proof fn law_update_texts(update: &DataUpdate, r: String)
    requires
        call_ensures(update_event_text, (update,), r),
    ensures
        update@.value matches Some(value) ==> r@ == "{\"bucket_counter\":"@ + decimal(
            update@.bucket_counter as nat,
        ) + ",\"bucket_id\":"@ + decimal(update@.bucket_id as nat) + ",\"deleted\":"@ + "false"@
            + ",\"key\":"@ + json_string(update@.key) + ",\"type\":\"update\",\"value\":"@ + value
            + "}"@,
        update@.value is None ==> r@ == "{\"bucket_counter\":"@ + decimal(
            update@.bucket_counter as nat,
        ) + ",\"bucket_id\":"@ + decimal(update@.bucket_id as nat) + ",\"deleted\":"@ + "true"@
            + ",\"key\":"@ + json_string(update@.key) + ",\"type\":\"update\",\"value\":"@ + "null"@
            + "}"@,
{
}

/// An event of a room tells the room and its version; of a key also the container, the key, and the
/// value or that it was deleted.
pub proof fn law_room_event_texts(event: &RoomEvent, r: String)
    requires
        call_ensures(RoomEvent::to_text, (event,), r),
    ensures
        match *event {
            RoomEvent::RoomChanged { room_id, room_counter } => r@ == "{\"room_counter\":"@ + decimal(
                room_counter as nat,
            ) + ",\"room_id\":"@ + decimal(room_id as nat) + ",\"type\":\"room_update\"}"@,
            RoomEvent::Updated { room_id, room_counter, container, key, value } => r@
                == "{\"container\":"@ + json_string(container@) + ",\"key\":"@ + json_string(key@)
                + ",\"room_counter\":"@ + decimal(room_counter as nat) + ",\"room_id\":"@ + decimal(
                room_id as nat,
            ) + ",\"type\":\"update\",\"value\":"@ + value@ + "}"@,
            RoomEvent::Deleted { room_id, room_counter, container, key } => r@
                == "{\"container\":"@ + json_string(container@) + ",\"deleted\":true,\"key\":"@
                + json_string(key@) + ",\"room_counter\":"@ + decimal(room_counter as nat)
                + ",\"room_id\":"@ + decimal(room_id as nat) + ",\"type\":\"update\"}"@,
        },
{
}

/// An answer to the first message tells whether the client is let in: why not, or the version and
/// the state of the room.
pub proof fn law_answer_texts(
    reason: &str,
    detail: &str,
    counter: u64,
    state: &str,
    refused: String,
    detailed: String,
    accepted: String,
)
    requires
        call_ensures(auth_error, (reason,), refused),
        call_ensures(auth_error_with_detail, (reason, detail), detailed),
        call_ensures(auth_ok_with_state, (counter, state), accepted),
    ensures
        refused@ == "{\"reason\":"@ + json_string(reason@) + ",\"type\":\"auth_error\"}"@,
        detailed@ == "{\"detail\":"@ + json_string(detail@) + ",\"reason\":"@ + json_string(reason@)
            + ",\"type\":\"auth_error\"}"@,
        accepted@ == "{\"room_counter\":"@ + decimal(counter as nat) + ",\"state\":"@ + state@
            + ",\"type\":\"auth_ok\"}"@,
{
}

// ---------------------------------------------------------------------------
// Objects
// ---------------------------------------------------------------------------

/// The texts of members come one after the other with commas between: the text of two rows of
/// members is the text of the first, a comma, and the text of the second. One member is its name
/// as a string, a colon and its value; no members have no text.
pub proof fn law_members_are_joined(
    a: Seq<(Seq<char>, Seq<char>)>,
    b: Seq<(Seq<char>, Seq<char>)>,
    name: Seq<char>,
    value: Seq<char>,
)
    ensures
        a.len() > 0 && b.len() > 0 ==> members_text(a + b) == members_text(a) + ","@ + members_text(b),
        members_text(seq![(name, value)]) == json_string(name) + ":"@ + value,
        members_text(Seq::empty()) == Seq::<char>::empty(),
    decreases b.len(),
{
    assert(seq![(name, value)].drop_last() =~= Seq::empty());
    if a.len() > 0 && b.len() > 0 {
        let all = a + b;
        let head = b.drop_last();
        assert(all.drop_last() =~= a + head);
        assert(all.last() == b.last());
        let last = json_string(b.last().0) + ":"@ + b.last().1;
        if b.len() == 1 {
            assert(a + head =~= a);
            assert(members_text(b) =~= last);
        } else {
            law_members_are_joined(a, head, name, value);
            assert(members_text(all) =~= members_text(a) + ","@ + members_text(b));
        }
    }
}

/// Whether a row has the members of a map, in ascending order of their names.
pub open spec fn rows_of_map(
    row: Seq<(Seq<char>, Seq<char>)>,
    map: Map<Seq<char>, Seq<char>>,
) -> bool {
    &&& forall|i: int|
        0 <= i < row.len() ==> map.contains_key((#[trigger] row[i]).0) && row[i].1 == map[row[i].0]
    &&& forall|i: int, j: int|
        0 <= i < j < row.len() ==> precedes((#[trigger] row[i]).0, (#[trigger] row[j]).0)
    &&& forall|name: Seq<char>| #[trigger]
        map.contains_key(name) ==> exists|i: int| 0 <= i < row.len() && (#[trigger] row[i]).0 == name
}

proof fn lemma_map_rows(map: Map<Seq<char>, Seq<char>>)
    requires
        crate::wire::enumerates(in_ascending_order(map.dom()), map.dom()),
    ensures
        rows_of_map(members_of(map), map),
        map_text(map) == "{"@ + members_text(members_of(map)) + "}"@,
{
    let list = in_ascending_order(map.dom());
    assert(crate::wire::enumerates(list, map.dom()));
    let row = members_of(map);
    assert forall|i: int| 0 <= i < row.len() implies map.contains_key((#[trigger] row[i]).0)
        && row[i].1 == map[row[i].0] by {
        assert(list.to_set().contains(list[i]));
    }
    assert forall|name: Seq<char>| #[trigger] map.contains_key(name) implies exists|i: int|
        0 <= i < row.len() && (#[trigger] row[i]).0 == name by {
        assert(list.to_set().contains(name));
        let i = choose|i: int| 0 <= i < list.len() && list[i] == name;
        assert(row[i].0 == name);
    }
}

/// The text of a map is that of an object with exactly the members of the map, in ascending order of
/// their names.
pub proof fn law_object_texts(map: &StrMap<Value>, r: String) -> (row: Seq<(Seq<char>, Seq<char>)>)
    requires
        call_ensures(values_text, (map,), r),
    ensures
        rows_of_map(row, map@),
        r@ == "{"@ + members_text(row) + "}"@,
{
    lemma_map_rows(map@);
    members_of(map@)
}

/// The text of a map of maps is that of an object whose members are the objects of the maps.
pub proof fn law_nested_texts(maps: &StrMap<StrMap<Value>>, r: String) -> (row: Seq<
    (Seq<char>, Seq<char>),
>)
    requires
        call_ensures(maps_text, (maps,), r),
    ensures
        r@ == "{"@ + members_text(row) + "}"@,
        forall|i: int, j: int|
            0 <= i < j < row.len() ==> precedes((#[trigger] row[i]).0, (#[trigger] row[j]).0),
        forall|name: Seq<char>| #[trigger]
            maps@.contains_key(name) ==> exists|i: int|
                0 <= i < row.len() && (#[trigger] row[i]).0 == name,
        forall|i: int|
            0 <= i < row.len() ==> maps@.contains_key((#[trigger] row[i]).0) && row[i].1 == map_text(
                maps@[row[i].0],
            ),
{
    let inner = inner_texts(maps@);
    assert(inner.dom() =~= maps@.dom());
    lemma_map_rows(inner);
    let row = members_of(inner);
    assert forall|name: Seq<char>| #[trigger] maps@.contains_key(name) implies exists|i: int|
        0 <= i < row.len() && (#[trigger] row[i]).0 == name by {
        assert(inner.contains_key(name));
    }
    row
}

/// What a client is told of the state of a room: the containers or buckets as an object, and the
/// version.
pub proof fn law_snapshot_texts(
    named: &crate::state::RoomSnapshot,
    r: String,
    numbered: &crate::kernel_state::RoomSnapshot,
    s: String,
    of_named: String,
    of_numbered: String,
)
    requires
        call_ensures(crate::state::RoomSnapshot::to_text, (named,), r),
        call_ensures(crate::kernel_state::RoomSnapshot::to_text, (numbered,), s),
        call_ensures(maps_text, (&named.containers,), of_named),
        call_ensures(maps_text, (&numbered.buckets,), of_numbered),
    ensures
        r@ == "{\"containers\":"@ + of_named@ + ",\"room_counter\":"@ + decimal(
            named.room_counter as nat,
        ) + "}"@,
        r@ == container_snapshot_text(named@),
        s@ == "{\"buckets\":"@ + of_numbered@ + ",\"room_counter\":"@ + decimal(
            numbered.room_counter as nat,
        ) + "}"@,
        s@ == bucket_snapshot_text(numbered@),
{
}

} // verus!
