//! The JSON texts that clients are sent. The members of an object stand in ascending order
//! of their names.

use crate::collections::{ascending_texts, texts, StrMap};
use crate::commands::{DataUpdate, UpdateView};
use crate::json::{json_string, Value};
use crate::room_hub::RoomEvent;
use crate::text::{decimal, lemma_precedes_transitive, precedes, push_decimal};
use vstd::prelude::*;
use vstd::string::*;

verus! {

fn push_string(out: &mut String, content: &str)
    ensures
        final(out)@ == old(out)@ + json_string(content@),
{
    let literal: Value = Value::string(content);
    out.append(literal.text());
}

// ---------------------------------------------------------------------------
// Events
// ---------------------------------------------------------------------------

pub open spec fn bool_text(b: bool) -> Seq<char> {
    if b {
        "true"@
    } else {
        "false"@
    }
}

/// What a client is sent of an update of a bucket. Without a value the key was deleted.
pub open spec fn update_text(update: UpdateView) -> Seq<char> {
    "{\"bucket_counter\":"@ + decimal(update.bucket_counter as nat) + ",\"bucket_id\":"@ + decimal(
        update.bucket_id as nat,
    ) + ",\"deleted\":"@ + bool_text(update.value is None) + ",\"key\":"@ + json_string(update.key)
        + ",\"type\":\"update\",\"value\":"@ + match update.value {
        Some(value) => value,
        None => "null"@,
    } + "}"@
}

/// The JSON text of what a client is sent of an update.
pub fn update_event_text(update: &DataUpdate) -> (r: String)
    ensures
        r@ == update_text(update@),
{
    let mut out: String = "{\"bucket_counter\":".to_string();
    push_decimal(&mut out, update.bucket_counter);
    out.append(",\"bucket_id\":");
    push_decimal(&mut out, update.bucket_id);
    out.append(",\"deleted\":");
    if update.value.is_none() {
        out.append("true");
    } else {
        out.append("false");
    }
    out.append(",\"key\":");
    push_string(&mut out, update.key.as_str());
    out.append(",\"type\":\"update\",\"value\":");
    match &update.value {
        Some(value) => {
            out.append(value.text());
        },
        None => {
            out.append("null");
        },
    }
    out.append("}");
    out
}

/// What a client is sent of a change of a room.
pub open spec fn room_event_text(event: RoomEvent) -> Seq<char> {
    match event {
        RoomEvent::RoomChanged { room_id, room_counter } => "{\"room_counter\":"@ + decimal(
            room_counter as nat,
        ) + ",\"room_id\":"@ + decimal(room_id as nat) + ",\"type\":\"room_update\"}"@,
        RoomEvent::Updated { room_id, room_counter, container, key, value } => "{\"container\":"@
            + json_string(container@) + ",\"key\":"@ + json_string(key@) + ",\"room_counter\":"@
            + decimal(room_counter as nat) + ",\"room_id\":"@ + decimal(room_id as nat)
            + ",\"type\":\"update\",\"value\":"@ + value@ + "}"@,
        RoomEvent::Deleted { room_id, room_counter, container, key } => "{\"container\":"@
            + json_string(container@) + ",\"deleted\":true,\"key\":"@ + json_string(key@)
            + ",\"room_counter\":"@ + decimal(room_counter as nat) + ",\"room_id\":"@ + decimal(
            room_id as nat,
        ) + ",\"type\":\"update\"}"@,
    }
}

impl RoomEvent {
    /// The JSON text of the event.
    pub fn to_text(&self) -> (r: String)
        ensures
            r@ == room_event_text(*self),
    {
        match self {
            RoomEvent::RoomChanged { room_id, room_counter } => {
                let mut out: String = "{\"room_counter\":".to_string();
                push_decimal(&mut out, *room_counter);
                out.append(",\"room_id\":");
                push_decimal(&mut out, *room_id);
                out.append(",\"type\":\"room_update\"}");
                out
            },
            RoomEvent::Updated { room_id, room_counter, container, key, value } => {
                let mut out: String = "{\"container\":".to_string();
                push_string(&mut out, container.as_str());
                out.append(",\"key\":");
                push_string(&mut out, key.as_str());
                out.append(",\"room_counter\":");
                push_decimal(&mut out, *room_counter);
                out.append(",\"room_id\":");
                push_decimal(&mut out, *room_id);
                out.append(",\"type\":\"update\",\"value\":");
                out.append(value.text());
                out.append("}");
                out
            },
            RoomEvent::Deleted { room_id, room_counter, container, key } => {
                let mut out: String = "{\"container\":".to_string();
                push_string(&mut out, container.as_str());
                out.append(",\"deleted\":true,\"key\":");
                push_string(&mut out, key.as_str());
                out.append(",\"room_counter\":");
                push_decimal(&mut out, *room_counter);
                out.append(",\"room_id\":");
                push_decimal(&mut out, *room_id);
                out.append(",\"type\":\"update\"}");
                out
            },
        }
    }
}

// ---------------------------------------------------------------------------
// Answers to the first message
// ---------------------------------------------------------------------------

/// What a client is sent that is not let in.
pub open spec fn auth_error_text(reason: Seq<char>) -> Seq<char> {
    "{\"reason\":"@ + json_string(reason) + ",\"type\":\"auth_error\"}"@
}

pub fn auth_error(reason: &str) -> (r: String)
    ensures
        r@ == auth_error_text(reason@),
{
    let mut out: String = "{\"reason\":".to_string();
    push_string(&mut out, reason);
    out.append(",\"type\":\"auth_error\"}");
    out
}

/// What a client is sent that is not let in, with what is wrong in detail.
pub open spec fn auth_error_detail_text(reason: Seq<char>, detail: Seq<char>) -> Seq<char> {
    "{\"detail\":"@ + json_string(detail) + ",\"reason\":"@ + json_string(reason)
        + ",\"type\":\"auth_error\"}"@
}

pub fn auth_error_with_detail(reason: &str, detail: &str) -> (r: String)
    ensures
        r@ == auth_error_detail_text(reason@, detail@),
{
    let mut out: String = "{\"detail\":".to_string();
    push_string(&mut out, detail);
    out.append(",\"reason\":");
    push_string(&mut out, reason);
    out.append(",\"type\":\"auth_error\"}");
    out
}

/// What a client is sent that is let in, with the state of its room.
pub open spec fn auth_ok_state_text(room_counter: u64, state: Seq<char>) -> Seq<char> {
    "{\"room_counter\":"@ + decimal(room_counter as nat) + ",\"state\":"@ + state
        + ",\"type\":\"auth_ok\"}"@
}

pub fn auth_ok_with_state(room_counter: u64, state: &str) -> (r: String)
    ensures
        r@ == auth_ok_state_text(room_counter, state@),
{
    let mut out: String = "{\"room_counter\":".to_string();
    push_decimal(&mut out, room_counter);
    out.append(",\"state\":");
    out.append(state);
    out.append(",\"type\":\"auth_ok\"}");
    out
}

// ---------------------------------------------------------------------------
// Objects
// ---------------------------------------------------------------------------

/// The members of an object, each a name and the text of a value, with commas between.
pub open spec fn members_text(members: Seq<(Seq<char>, Seq<char>)>) -> Seq<char>
    decreases members.len(),
{
    if members.len() == 0 {
        Seq::empty()
    } else {
        let before = members_text(members.drop_last());
        let last = json_string(members.last().0) + ":"@ + members.last().1;
        if members.len() == 1 {
            last
        } else {
            before + ","@ + last
        }
    }
}

pub open spec fn object_text(members: Seq<(Seq<char>, Seq<char>)>) -> Seq<char> {
    "{"@ + members_text(members) + "}"@
}

/// The names of a set in ascending order.
pub open spec fn in_ascending_order(names: Set<Seq<char>>) -> Seq<Seq<char>> {
    choose|list: Seq<Seq<char>>| enumerates(list, names)
}

pub open spec fn enumerates(list: Seq<Seq<char>>, names: Set<Seq<char>>) -> bool {
    ascending_texts(list) && list.to_set() == names
}

/// The members that a map of texts of values has as an object.
pub open spec fn members_of(map: Map<Seq<char>, Seq<char>>) -> Seq<(Seq<char>, Seq<char>)> {
    in_ascending_order(map.dom()).map_values(|name: Seq<char>| (name, map[name]))
}

/// No text precedes itself.
proof fn lemma_irreflexive(a: Seq<char>)
    ensures
        !precedes(a, a),
    decreases a.len(),
{
    if a.len() > 0 {
        lemma_irreflexive(a.skip(1));
    }
}

/// There is but one row with the names of a set in ascending order.
proof fn lemma_enumeration_is_unique(
    a: Seq<Seq<char>>,
    b: Seq<Seq<char>>,
    names: Set<Seq<char>>,
)
    requires
        enumerates(a, names),
        enumerates(b, names),
    ensures
        a == b,
    decreases a.len(),
{
    if a.len() == 0 {
        if b.len() > 0 {
            assert(b.to_set().contains(b[0]));
            assert(a.to_set().contains(b[0]));
        }
        assert(a =~= b);
    } else {
        let x = a.last();
        assert(a.to_set().contains(x));
        assert(b.to_set().contains(x));
        let y = b.last();
        assert(b.to_set().contains(y));
        assert(a.to_set().contains(y));
        if x != y {
            let i = choose|i: int| 0 <= i < a.len() && a[i] == y;
            let j = choose|j: int| 0 <= j < b.len() && b[j] == x;
            assert(precedes(a[i], a[a.len() - 1]));
            assert(precedes(b[j], b[b.len() - 1]));
            lemma_precedes_transitive(x, y, x);
            lemma_irreflexive(x);
        }
        lemma_enumerates_shorter(a, names);
        lemma_enumerates_shorter(b, names);
        lemma_enumeration_is_unique(a.drop_last(), b.drop_last(), names.remove(x));
        assert(a =~= a.drop_last().push(x));
        assert(b =~= b.drop_last().push(x));
    }
}

proof fn lemma_enumerates_shorter(a: Seq<Seq<char>>, names: Set<Seq<char>>)
    requires
        enumerates(a, names),
        a.len() > 0,
    ensures
        enumerates(a.drop_last(), names.remove(a.last())),
{
    let rest = a.drop_last();
    assert forall|i: int, j: int| 0 <= i < j < rest.len() implies precedes(
        #[trigger] rest[i],
        #[trigger] rest[j],
    ) by {
        assert(precedes(a[i], a[j]));
    }
    assert forall|x: Seq<char>| rest.to_set().contains(x) == names.remove(a.last()).contains(x) by {
        if rest.contains(x) {
            let i = choose|i: int| 0 <= i < rest.len() && rest[i] == x;
            assert(a[i] == x);
            assert(a.to_set().contains(x));
            assert(precedes(a[i], a[a.len() - 1]));
            lemma_irreflexive(x);
        }
        if names.contains(x) && x != a.last() {
            assert(a.to_set().contains(x));
            let i = choose|i: int| 0 <= i < a.len() && a[i] == x;
            assert(rest[i] == x);
        }
    }
    assert(rest.to_set() =~= names.remove(a.last()));
}

/// The text of an object whose members are texts of values.
pub open spec fn map_text(map: Map<Seq<char>, Seq<char>>) -> Seq<char> {
    object_text(members_of(map))
}

/// Appends a member to a text that holds the first `i` members of an object.
fn push_member(out: &mut String, name: &str, value: &str, first: bool)
    ensures
        final(out)@ == old(out)@ + (if first {
            Seq::<char>::empty()
        } else {
            ","@
        }) + json_string(name@) + ":"@ + value@,
{
    if !first {
        out.append(",");
    }
    assert(out@ =~= old(out)@ + (if first {
        Seq::<char>::empty()
    } else {
        ","@
    }));
    push_string(out, name);
    out.append(":");
    out.append(value);
}

/// The JSON text of a map of values.
pub fn values_text(map: &StrMap<Value>) -> (r: String)
    ensures
        r@ == map_text(map@),
        enumerates(in_ascending_order(map@.dom()), map@.dom()),
{
    let names: Vec<String> = map.sorted_keys();
    let ghost list = texts(names@);
    let ghost members = members_of(map@);
    proof {
        assert(enumerates(list, map@.dom()));
        lemma_enumeration_is_unique(list, in_ascending_order(map@.dom()), map@.dom());
    }
    let mut out: String = "{".to_string();
    let mut i: usize = 0;
    assert(members.take(0) =~= Seq::empty());
    assert(out@ =~= "{"@ + members_text(members.take(0)));
    while i < names.len()
        invariant
            i <= names@.len(),
            list == texts(names@),
            list.to_set() == map@.dom(),
            members == list.map_values(|name: Seq<char>| (name, map@[name])),
            out@ == "{"@ + members_text(members.take(i as int)),
        decreases names@.len() - i,
    {
        assert(list.to_set().contains(list[i as int]));
        if let Some(value) = map.get(names[i].as_str()) {
            push_member(&mut out, names[i].as_str(), value.text(), i == 0);
        }
        proof {
            let now = members.take(i + 1);
            assert(now.drop_last() =~= members.take(i as int));
            assert(now.last() == members[i as int]);
            if i == 0 {
                assert(members.take(0) =~= Seq::empty());
            }
            assert(out@ =~= "{"@ + members_text(now));
        }
        i = i + 1;
    }
    assert(members.take(i as int) =~= members);
    out.append("}");
    out
}

/// The texts of maps of values.
pub open spec fn inner_texts(maps: Map<Seq<char>, Map<Seq<char>, Seq<char>>>) -> Map<
    Seq<char>,
    Seq<char>,
> {
    maps.map_values(|map: Map<Seq<char>, Seq<char>>| map_text(map))
}

/// The JSON text of a map of maps of values.
pub fn maps_text(maps: &StrMap<StrMap<Value>>) -> (r: String)
    ensures
        r@ == map_text(inner_texts(maps@)),
        enumerates(in_ascending_order(maps@.dom()), maps@.dom()),
{
    let names: Vec<String> = maps.sorted_keys();
    let ghost list = texts(names@);
    let ghost inner = inner_texts(maps@);
    let ghost members = members_of(inner);
    proof {
        assert(inner.dom() =~= maps@.dom());
        assert(enumerates(list, inner.dom()));
        lemma_enumeration_is_unique(list, in_ascending_order(inner.dom()), inner.dom());
    }
    let mut out: String = "{".to_string();
    let mut i: usize = 0;
    assert(members.take(0) =~= Seq::empty());
    assert(out@ =~= "{"@ + members_text(members.take(0)));
    while i < names.len()
        invariant
            i <= names@.len(),
            list == texts(names@),
            list.to_set() == maps@.dom(),
            inner == inner_texts(maps@),
            members == list.map_values(|name: Seq<char>| (name, inner[name])),
            out@ == "{"@ + members_text(members.take(i as int)),
        decreases names@.len() - i,
    {
        assert(list.to_set().contains(list[i as int]));
        if let Some(map) = maps.get(names[i].as_str()) {
            let text: String = values_text(map);
            push_member(&mut out, names[i].as_str(), text.as_str(), i == 0);
        }
        proof {
            let now = members.take(i + 1);
            assert(now.drop_last() =~= members.take(i as int));
            assert(now.last() == members[i as int]);
            if i == 0 {
                assert(members.take(0) =~= Seq::empty());
            }
            assert(out@ =~= "{"@ + members_text(now));
        }
        i = i + 1;
    }
    assert(members.take(i as int) =~= members);
    out.append("}");
    out
}

// ---------------------------------------------------------------------------
// The state of a room
// ---------------------------------------------------------------------------

pub open spec fn container_snapshot_text(snapshot: crate::state::SnapshotView) -> Seq<char> {
    "{\"containers\":"@ + map_text(inner_texts(snapshot.containers)) + ",\"room_counter\":"@
        + decimal(snapshot.room_counter as nat) + "}"@
}

impl crate::state::RoomSnapshot {
    /// The JSON text of what a client sees of a room.
    pub fn to_text(&self) -> (r: String)
        ensures
            r@ == container_snapshot_text(self@),
    {
        let mut out: String = "{\"containers\":".to_string();
        let containers: String = maps_text(&self.containers);
        out.append(containers.as_str());
        out.append(",\"room_counter\":");
        push_decimal(&mut out, self.room_counter);
        out.append("}");
        out
    }
}

pub open spec fn bucket_snapshot_text(snapshot: crate::kernel_state::SnapshotView) -> Seq<char> {
    "{\"buckets\":"@ + map_text(inner_texts(snapshot.buckets)) + ",\"room_counter\":"@ + decimal(
        snapshot.room_counter as nat,
    ) + "}"@
}

impl crate::kernel_state::RoomSnapshot {
    /// The JSON text of what a client sees of a room.
    pub fn to_text(&self) -> (r: String)
        ensures
            r@ == bucket_snapshot_text(self@),
    {
        let mut out: String = "{\"buckets\":".to_string();
        let buckets: String = maps_text(&self.buckets);
        out.append(buckets.as_str());
        out.append(",\"room_counter\":");
        push_decimal(&mut out, self.room_counter);
        out.append("}");
        out
    }
}

} // verus!
