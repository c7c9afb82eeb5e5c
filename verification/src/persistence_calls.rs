//! What callers of the store of a room and of the cache of records can rely on.

use crate::bucket_cache::{find_row, touched, BucketCache};
use crate::collections::{IdMap, StrMap, StrSet};
use crate::json::{holds_float, json_text_of_bytes, Value};
use crate::persistence::{
    bucket_id_of_key, bucket_key, buckets_in, collect_meta_flags, collect_records, first_colon,
    flags_in, found_rows, fragment_key, fragment_place, fragments_in, ids_of_json, json_of_texts,
    meta_bucket_id_of_key, meta_flags_in, meta_key, parse_flags, parse_id_behind, place_of_key,
    record_flags, records_in, room_dir, room_id_of_dir, rows, texts_of_json, BucketRecord,
    FoundRecord, RecordView, RoomPersistence, StoreEntry, StoreWrite,
};
use crate::text::{decimal, precedes, trim, u64_of_text};
use std::sync::Arc;
use vstd::prelude::*;
use vstd::string::*;
use vstd::utf8::{decode_utf8, encode_utf8, valid_utf8};

verus! {

// ---------------------------------------------------------------------------
// Keys
// ---------------------------------------------------------------------------

/// The texts of the keys, and of the directory of a room.
pub proof fn law_key_texts(
    container: &str,
    key: &str,
    id: u64,
    fragment: String,
    meta: String,
    bucket: String,
    dir: String,
    store: &RoomPersistence,
    members: String,
    buckets: String,
    read: String,
)
    requires
        call_ensures(fragment_key, (container, key), fragment),
        call_ensures(meta_key, (id,), meta),
        call_ensures(bucket_key, (id,), bucket),
        call_ensures(room_dir, (id,), dir),
        call_ensures(RoomPersistence::member_list_key, (store,), members),
        call_ensures(RoomPersistence::bucket_list_key, (store,), buckets),
        call_ensures(RoomPersistence::read_fragment, (store, container, key), read),
    ensures
        fragment@ == container@ + ":"@ + key@,
        read@ == fragment@,
        meta@ == "meta:bucket:"@ + decimal(id as nat),
        bucket@ == "bucket:"@ + decimal(id as nat),
        dir@ == "room_"@ + decimal(id as nat),
        members@ == "/room/"@ + decimal(store.room_id as nat) + "/members"@,
        buckets@ == "/room/"@ + decimal(store.room_id as nat) + "/buckets"@,
{
}

/// Whether a text is a prefix and the text of a number behind it.
pub open spec fn is_prefix_and_number(prefix: Seq<char>, name: Seq<char>, n: u64) -> bool {
    exists|rest: Seq<char>| name == #[trigger] (prefix + rest) && u64_of_text(rest) == Some(n)
}

proof fn lemma_id_behind(prefix: Seq<char>, name: Seq<char>, n: u64)
    ensures
        crate::persistence::id_behind(prefix, name) == Some(n) <==> is_prefix_and_number(
            prefix,
            name,
            n,
        ),
{
    let len = prefix.len() as int;
    if crate::persistence::id_behind(prefix, name) == Some(n) {
        assert(name =~= prefix + name.skip(len));
    }
    if is_prefix_and_number(prefix, name, n) {
        let rest = choose|rest: Seq<char>|
            name == #[trigger] (prefix + rest) && u64_of_text(rest) == Some(n);
        assert(name.take(len) =~= prefix);
        assert(name.skip(len) =~= rest);
    }
}

/// A number is read behind a prefix exactly if the text is the prefix and the text of the number;
/// so rooms are known by their directories, and buckets by their keys.
pub proof fn law_numbers_behind_prefixes(
    prefix: &str,
    name: &str,
    r: Option<u64>,
    room: Option<u64>,
    key: &[u8],
    bucket: Option<u64>,
    meta: Option<u64>,
    n: u64,
)
    requires
        call_ensures(parse_id_behind, (prefix, name), r),
        call_ensures(room_id_of_dir, (name,), room),
        call_ensures(bucket_id_of_key, (key,), bucket),
        call_ensures(meta_bucket_id_of_key, (key,), meta),
    ensures
        r == Some(n) <==> is_prefix_and_number(prefix@, name@, n),
        room == Some(n) <==> is_prefix_and_number("room_"@, name@, n),
        bucket == Some(n) <==> valid_utf8(key@) && is_prefix_and_number(
            "bucket:"@,
            decode_utf8(key@),
            n,
        ),
        meta == Some(n) <==> valid_utf8(key@) && is_prefix_and_number(
            "meta:bucket:"@,
            decode_utf8(key@),
            n,
        ),
{
    lemma_id_behind(prefix@, name@, n);
    lemma_id_behind("room_"@, name@, n);
    lemma_id_behind("bucket:"@, decode_utf8(key@), n);
    lemma_id_behind("meta:bucket:"@, decode_utf8(key@), n);
}

/// Whether a key is that of a fragment: the number of its bucket, without a colon, then a colon, and
/// the key in the bucket.
pub open spec fn is_place(key: Seq<u8>, bucket_id: u64, name: Seq<char>) -> bool {
    valid_utf8(key) && exists|head: Seq<char>|
        decode_utf8(key) == #[trigger] (head + ":"@ + name) && !head.contains(':') && u64_of_text(head)
            == Some(bucket_id)
}

proof fn lemma_place(key: Seq<u8>, bucket_id: u64, name: Seq<char>)
    ensures
        place_of_key(key) == Some((bucket_id, name)) <==> is_place(key, bucket_id, name),
{
    reveal_strlit(":");
    let text = decode_utf8(key);
    if is_place(key, bucket_id, name) {
        let head = choose|head: Seq<char>|
            decode_utf8(key) == #[trigger] (head + ":"@ + name) && !head.contains(':')
                && u64_of_text(head) == Some(bucket_id);
        let n = head.len() as int;
        assert forall|i: int| 0 <= i < n implies text[i] != ':' by {
            assert(text[i] == head[i]);
            assert(head.contains(head[i]));
        }
        assert(text[n] == ':');
        crate::persistence::lemma_first_colon(text, n);
        assert(text.take(n) =~= head);
        assert(text.skip(n + 1) =~= name);
    }
    if place_of_key(key) == Some((bucket_id, name)) {
        let colon = first_colon(text);
        lemma_colon(text);
        let head = text.take(colon);
        assert(text =~= head + ":"@ + name);
        assert(!head.contains(':')) by {
            if head.contains(':') {
                let i = choose|i: int| 0 <= i < head.len() && head[i] == ':';
                assert(text[i] == ':');
            }
        }
    }
}

proof fn lemma_colon(name: Seq<char>)
    ensures
        0 <= first_colon(name) <= name.len(),
        forall|i: int| 0 <= i < first_colon(name) ==> name[i] != ':',
        first_colon(name) < name.len() ==> name[first_colon(name)] == ':',
    decreases name.len(),
{
    if name.len() > 0 && name[0] != ':' {
        let rest = name.skip(1);
        lemma_colon(rest);
        assert forall|i: int| 0 <= i < first_colon(name) implies name[i] != ':' by {
            if i > 0 {
                assert(name[i] == rest[i - 1]);
            }
        }
        if first_colon(name) < name.len() {
            assert(name[first_colon(name)] == rest[first_colon(rest)]);
        }
    }
}

/// The bucket and the key of a fragment are read from the key that it stands under.
pub proof fn law_fragment_places(key: &[u8], r: Option<(u64, String)>, bucket_id: u64, name: Seq<char>)
    requires
        call_ensures(fragment_place, (key,), r),
    ensures
        (r matches Some((b, k)) && b == bucket_id && k@ == name) <==> is_place(
            key@,
            bucket_id,
            name,
        ),
{
    lemma_place(key@, bucket_id, name);
}

// ---------------------------------------------------------------------------
// What is written
// ---------------------------------------------------------------------------

/// A value is kept under the key of its fragment as the bytes of its JSON text, from which it is
/// read again unless it holds a floating-point number; without a value the key is deleted.
pub proof fn law_fragments_are_kept(
    store: &RoomPersistence,
    container: &str,
    key: &str,
    bucket_id: u64,
    value: Option<&Value>,
    r: StoreWrite,
    s: StoreWrite,
)
    requires
        call_ensures(RoomPersistence::persist_fragment, (store, container, key, value), r),
        call_ensures(RoomPersistence::persist_bucket_fragment, (store, bucket_id, key, value), s),
    ensures
        r.key@ == container@ + ":"@ + key@,
        s.key@ == decimal(bucket_id as nat) + ":"@ + key@,
        value is None ==> r.value is None && s.value is None,
        value matches Some(v) ==> {
            &&& r.value matches Some(bytes)
            &&& bytes@ == encode_utf8(v@)
            &&& s.value matches Some(same)
            &&& same@ == bytes@
            &&& !holds_float(v@, false) ==> json_text_of_bytes(bytes@) == Ok::<Seq<char>, Seq<char>>(
                v@,
            )
        },
{
}

/// The flags of a bucket are kept as four bytes, the least significant first, from which they are
/// read again; taking them off deletes the same key.
pub proof fn law_flags_are_kept(
    store: &RoomPersistence,
    bucket_id: u64,
    flags: u32,
    kept: StoreWrite,
    dropped: StoreWrite,
    read: &[u8],
    r: Option<u32>,
)
    requires
        call_ensures(RoomPersistence::persist_bucket_flags, (store, bucket_id, flags), kept),
        call_ensures(RoomPersistence::remove_bucket_metadata, (store, bucket_id), dropped),
        kept.value matches Some(bytes) && read@ == bytes@,
        call_ensures(parse_flags, (read,), r),
    ensures
        kept.key@ == "meta:bucket:"@ + decimal(bucket_id as nat),
        dropped.key@ == kept.key@,
        dropped.value is None,
        r == Some(flags),
{
    vstd::bytes::lemma_auto_spec_u32_to_from_le_bytes();
}

/// Flags are read from four bytes, the least significant first, or else from a decimal number that
/// is not too large.
pub proof fn law_flags_are_read(bytes: &[u8], r: Option<u32>)
    requires
        call_ensures(parse_flags, (bytes,), r),
    ensures
        bytes@.len() == 4 ==> r is Some && vstd::bytes::spec_u32_to_le_bytes(r->0) == bytes@,
        bytes@.len() != 4 ==> (r matches Some(flags) ==> valid_utf8(bytes@) && u64_of_text(
            decode_utf8(bytes@),
        ) == Some(flags as u64)),
        bytes@.len() != 4 && valid_utf8(bytes@) ==> (u64_of_text(decode_utf8(bytes@)) matches Some(n)
            ==> (n <= u32::MAX <==> r is Some)),
{
    vstd::bytes::lemma_auto_spec_u32_to_from_le_bytes();
}

/// The record of a bucket is kept under its key; dropping it deletes the same key.
pub proof fn law_records_are_kept(
    store: &RoomPersistence,
    bucket_id: u64,
    label: Option<&str>,
    flags: u32,
    kept: (String, BucketRecord),
    dropped: StoreWrite,
)
    requires
        call_ensures(RoomPersistence::persist_bucket, (store, bucket_id, label, flags), kept),
        call_ensures(RoomPersistence::remove_bucket, (store, bucket_id), dropped),
    ensures
        kept.0@ == "bucket:"@ + decimal(bucket_id as nat),
        kept.1@.id == bucket_id,
        kept.1@.flags == flags,
        label matches Some(text) ==> kept.1@.label == Some(text@),
        label is None ==> kept.1@.label is None,
        dropped.key@ == kept.0@,
        dropped.value is None,
{
}

// ---------------------------------------------------------------------------
// Members
// ---------------------------------------------------------------------------

/// The members that are read are exactly those that the stored list names; without a list there are
/// none, and of a list that cannot be read it is said why.
pub proof fn law_members_are_read(
    store: &RoomPersistence,
    stored: Option<&[u8]>,
    r: Result<StrSet, String>,
)
    requires
        call_ensures(RoomPersistence::load_members, (store, stored), r),
    ensures
        match stored {
            None => r matches Ok(members) && forall|m: Seq<char>| !#[trigger] members@.contains(m),
            Some(bytes) => match texts_of_json(bytes@) {
                Ok(list) => r matches Ok(members) && forall|m: Seq<char>| #[trigger]
                    members@.contains(m) <==> list.contains(m),
                Err(e) => r matches Err(text) && text@ == "deserialize error: "@ + e,
            },
        },
{
    if let Some(bytes) = stored {
        if let Ok(list) = texts_of_json(bytes@) {
            assert forall|m: Seq<char>| list.to_set().contains(m) == #[trigger] list.contains(m) by {}
        }
    }
}

/// Whether a change stores exactly the given members of a room: it writes a list of them under the
/// key of the room's members, each once and in their order, and this list is what is read again.
pub open spec fn stores_exactly(write: StoreWrite, room_id: u64, members: Set<Seq<char>>) -> bool {
    &&& write.key@ == "/room/"@ + decimal(room_id as nat) + "/members"@
    &&& write.value matches Some(bytes)
    &&& exists|list: Seq<Seq<char>>|
        {
            &&& bytes@ == #[trigger] json_of_texts(list)
            &&& forall|m: Seq<char>| #[trigger] list.contains(m) <==> members.contains(m)
            &&& forall|i: int, j: int|
                0 <= i < j < list.len() ==> precedes(#[trigger] list[i], #[trigger] list[j])
        }
    &&& texts_of_json(bytes@) matches Ok(read)
    &&& forall|m: Seq<char>| #[trigger] read.contains(m) <==> members.contains(m)
}

proof fn lemma_stores_exactly(write: StoreWrite, room_id: u64, members: Set<Seq<char>>)
    requires
        crate::persistence::writes_members(write, room_id, members),
    ensures
        stores_exactly(write, room_id, members),
{
    let bytes = write.value->0;
    let list = choose|list: Seq<Seq<char>>| #[trigger]
        crate::persistence::lists(list, members) && bytes@ == json_of_texts(list);
    assert forall|m: Seq<char>| #[trigger] list.contains(m) <==> members.contains(m) by {
        assert(list.to_set().contains(m) == list.contains(m));
    }
    let read = texts_of_json(bytes@)->Ok_0;
    assert forall|m: Seq<char>| #[trigger] read.contains(m) <==> members.contains(m) by {
        assert(read.to_set().contains(m) == read.contains(m));
    }
    assert(bytes@ == json_of_texts(list));
}

/// The members that a stored list names; none without a list.
pub open spec fn named_in(stored: Option<&[u8]>) -> Set<Seq<char>> {
    match stored {
        None => Set::empty(),
        Some(bytes) => texts_of_json(bytes@)->Ok_0.to_set(),
    }
}

/// Whether a stored list can be read.
pub open spec fn readable(stored: Option<&[u8]>) -> bool {
    stored matches Some(bytes) ==> texts_of_json(bytes@) is Ok
}

/// A member that is not blank is added to the stored ones, without the white space around it, and a
/// member that is removed is taken out of them; the others stay. Of a list that cannot be read it is
/// said why, and nothing is written.
pub proof fn law_members_are_kept(
    store: &RoomPersistence,
    all: &StrSet,
    whole: StoreWrite,
    stored: Option<&[u8]>,
    member: &str,
    added: Result<Option<StoreWrite>, String>,
    removed: Result<StoreWrite, String>,
)
    requires
        call_ensures(RoomPersistence::update_member_list, (store, all), whole),
        call_ensures(RoomPersistence::persist_member, (store, stored, member), added),
        call_ensures(RoomPersistence::remove_member, (store, stored, member), removed),
    ensures
        stores_exactly(whole, store.room_id, all@),
        trim(member@).len() == 0 ==> (added matches Ok(None)),
        trim(member@).len() > 0 && readable(stored) ==> (added matches Ok(Some(write))
            && stores_exactly(write, store.room_id, named_in(stored).insert(trim(member@)))),
        readable(stored) ==> (removed matches Ok(write) && stores_exactly(
            write,
            store.room_id,
            named_in(stored).remove(member@),
        )),
        !readable(stored) ==> (removed matches Err(text) && text@ == "deserialize error: "@
            + texts_of_json(stored->0@)->Err_0),
        !readable(stored) && trim(member@).len() > 0 ==> (added matches Err(text) && text@
            == "deserialize error: "@ + texts_of_json(stored->0@)->Err_0),
{
    lemma_stores_exactly(whole, store.room_id, all@);
    if readable(stored) {
        if trim(member@).len() > 0 {
            lemma_stores_exactly(
                added->Ok_0->0,
                store.room_id,
                named_in(stored).insert(trim(member@)),
            );
        }
        lemma_stores_exactly(removed->Ok_0, store.room_id, named_in(stored).remove(member@));
    }
}

// ---------------------------------------------------------------------------
// What a scan brings
// ---------------------------------------------------------------------------

/// Whether an entry of a scan counts for a fragment: it stands under its key, and its value is JSON.
pub open spec fn counts(row: (Seq<u8>, Seq<u8>), b: u64, k: Seq<char>) -> bool {
    is_place(row.0, b, k) && json_text_of_bytes(row.1) is Ok
}

/// Whether an entry of a scan is the last that counts for a fragment.
pub open spec fn last_that_counts(all: Seq<(Seq<u8>, Seq<u8>)>, i: int, b: u64, k: Seq<char>) -> bool {
    &&& 0 <= i < all.len()
    &&& counts(all[i], b, k)
    &&& forall|j: int| i < j < all.len() ==> !counts(#[trigger] all[j], b, k)
}

/// Whether fragments hold of each key what the last entry of a scan that counts for it says, and
/// nothing else.
pub open spec fn brought(
    fragments: Map<u64, Map<Seq<char>, Seq<char>>>,
    all: Seq<(Seq<u8>, Seq<u8>)>,
) -> bool {
    &&& forall|b: u64, k: Seq<char>|
        fragments.contains_key(b) && #[trigger] fragments[b].contains_key(k) ==> exists|i: int|
            #[trigger] last_that_counts(all, i, b, k) && json_text_of_bytes(all[i].1)->Ok_0
                == fragments[b][k]
    &&& forall|i: int, b: u64, k: Seq<char>|
        0 <= i < all.len() && #[trigger] counts(all[i], b, k) ==> fragments.contains_key(b)
            && fragments[b].contains_key(k)
    &&& forall|b: u64| #[trigger]
        fragments.contains_key(b) ==> exists|k: Seq<char>| #[trigger] fragments[b].contains_key(k)
}

proof fn lemma_brought(all: Seq<(Seq<u8>, Seq<u8>)>)
    ensures
        brought(fragments_in(all), all),
    decreases all.len(),
{
    if all.len() > 0 {
        let head = all.drop_last();
        let n = head.len() as int;
        let last = all.last();
        let before = fragments_in(head);
        let after = fragments_in(all);
        lemma_brought(head);
        assert forall|b: u64, k: Seq<char>| (place_of_key(last.0) == Some((b, k))) == is_place(
            last.0,
            b,
            k,
        ) by {
            lemma_place(last.0, b, k);
        }
        assert forall|b: u64, k: Seq<char>|
            after.contains_key(b) && #[trigger] after[b].contains_key(k) implies exists|i: int|
            #[trigger] last_that_counts(all, i, b, k) && json_text_of_bytes(all[i].1)->Ok_0
                == after[b][k] by {
            lemma_place(last.0, b, k);
            if counts(last, b, k) {
                assert(last_that_counts(all, n, b, k));
            } else {
                assert(before.contains_key(b) && before[b].contains_key(k));
                let i = choose|i: int| #[trigger]
                    last_that_counts(head, i, b, k) && json_text_of_bytes(head[i].1)->Ok_0
                        == before[b][k];
                assert(all[i] == head[i]);
                assert forall|j: int| i < j < all.len() implies !counts(#[trigger] all[j], b, k) by {
                    if j < n {
                        assert(all[j] == head[j]);
                    }
                }
                assert(last_that_counts(all, i, b, k));
            }
        }
        assert forall|i: int, b: u64, k: Seq<char>|
            0 <= i < all.len() && #[trigger] counts(all[i], b, k) implies after.contains_key(b)
            && after[b].contains_key(k) by {
            if i < n {
                assert(all[i] == head[i]);
                assert(counts(head[i], b, k));
            } else {
                lemma_place(last.0, b, k);
            }
        }
        assert forall|b: u64| #[trigger] after.contains_key(b) implies exists|k: Seq<char>|
            #[trigger] after[b].contains_key(k) by {
            if before.contains_key(b) {
                let k = choose|k: Seq<char>| #[trigger] before[b].contains_key(k);
                assert(after[b].contains_key(k));
            } else {
                let place = place_of_key(last.0)->0;
                assert(after[b].contains_key(place.1));
            }
        }
    }
}

/// A scan brings of each fragment what the last entry under its key says, if its value is JSON, and
/// nothing else.
pub proof fn law_fragments_are_brought(
    store: &RoomPersistence,
    entries: &[StoreEntry],
    r: IdMap<StrMap<Value>>,
)
    requires
        call_ensures(RoomPersistence::load_all_fragments, (store, entries), r),
    ensures
        brought(r@, rows(entries@)),
{
    lemma_brought(rows(entries@));
}

/// Whether an entry of a scan gives the flags of a bucket: it stands under their key, and its value
/// can be read.
pub open spec fn gives_flags(row: (Seq<u8>, Seq<u8>), b: u64) -> bool {
    valid_utf8(row.0) && is_prefix_and_number("meta:bucket:"@, decode_utf8(row.0), b) && flags_in(
        row.1,
    ) is Some
}

/// Whether flags are of each bucket what the last entry of a scan that gives them says, and nothing
/// else.
pub open spec fn flags_brought(flags: Map<u64, u32>, all: Seq<(Seq<u8>, Seq<u8>)>) -> bool {
    forall|b: u64|
        if #[trigger] flags.contains_key(b) {
            exists|i: int|
                {
                    &&& 0 <= i < all.len()
                    &&& gives_flags(#[trigger] all[i], b)
                    &&& flags_in(all[i].1) == Some(flags[b])
                    &&& forall|j: int| i < j < all.len() ==> !gives_flags(#[trigger] all[j], b)
                }
        } else {
            forall|i: int| 0 <= i < all.len() ==> !gives_flags(#[trigger] all[i], b)
        }
}

proof fn lemma_flags_brought(all: Seq<(Seq<u8>, Seq<u8>)>)
    ensures
        flags_brought(meta_flags_in(all), all),
    decreases all.len(),
{
    if all.len() > 0 {
        let head = all.drop_last();
        let n = head.len() as int;
        let last = all.last();
        let before = meta_flags_in(head);
        let after = meta_flags_in(all);
        lemma_flags_brought(head);
        assert forall|b: u64|
            if #[trigger] after.contains_key(b) {
                exists|i: int|
                    {
                        &&& 0 <= i < all.len()
                        &&& gives_flags(#[trigger] all[i], b)
                        &&& flags_in(all[i].1) == Some(after[b])
                        &&& forall|j: int| i < j < all.len() ==> !gives_flags(#[trigger] all[j], b)
                    }
            } else {
                forall|i: int| 0 <= i < all.len() ==> !gives_flags(#[trigger] all[i], b)
            } by {
            lemma_id_behind("meta:bucket:"@, decode_utf8(last.0), b);
            assert(before.contains_key(b) || !before.contains_key(b));
            if gives_flags(last, b) {
                assert(all[n] == last);
                assert(gives_flags(all[n], b));
            } else if before.contains_key(b) {
                let i = choose|i: int|
                    {
                        &&& 0 <= i < head.len()
                        &&& gives_flags(#[trigger] head[i], b)
                        &&& flags_in(head[i].1) == Some(before[b])
                        &&& forall|j: int| i < j < head.len() ==> !gives_flags(#[trigger] head[j], b)
                    };
                assert(all[i] == head[i]);
                assert forall|j: int| i < j < all.len() implies !gives_flags(
                    #[trigger] all[j],
                    b,
                ) by {
                    if j < n {
                        assert(all[j] == head[j]);
                    }
                }
            } else {
                assert forall|i: int| 0 <= i < all.len() implies !gives_flags(
                    #[trigger] all[i],
                    b,
                ) by {
                    if i < n {
                        assert(all[i] == head[i]);
                    }
                }
            }
        }
    }
}

/// The flags of buckets come from their records where there are any; else from the entries of their
/// own.
pub proof fn law_flags_are_brought(
    store: &RoomPersistence,
    records: Option<&IdMap<BucketRecord>>,
    entries: &[StoreEntry],
    r: IdMap<u32>,
    of_entries: IdMap<u32>,
)
    requires
        call_ensures(RoomPersistence::load_bucket_flags, (store, records, entries), r),
        call_ensures(collect_meta_flags, (entries,), of_entries),
    ensures
        flags_brought(of_entries@, rows(entries@)),
        (records is None || forall|b: u64| !#[trigger] records->0@.contains_key(b)) ==> r@
            == of_entries@,
        (records is Some && exists|b: u64| #[trigger] records->0@.contains_key(b)) ==> {
            &&& forall|b: u64| #[trigger] r@.contains_key(b) <==> records->0@.contains_key(b)
            &&& forall|b: u64| #[trigger] r@.contains_key(b) ==> r@[b] == records->0@[b].flags
        },
{
    lemma_flags_brought(rows(entries@));
    if let Some(known) = records {
        if forall|b: u64| !#[trigger] known@.contains_key(b) {
            assert(known@ =~= Map::<u64, RecordView>::empty());
        }
    }
}

/// The flags of buckets are read from their records.
pub proof fn law_flags_of_records(records: &IdMap<BucketRecord>, r: IdMap<u32>)
    requires
        call_ensures(record_flags, (records,), r),
    ensures
        forall|b: u64| #[trigger] r@.contains_key(b) <==> records@.contains_key(b),
        forall|b: u64| #[trigger] r@.contains_key(b) ==> r@[b] == records@[b].flags,
{
}

proof fn lemma_records_in(all: Seq<(u64, Option<RecordView>)>)
    ensures
        forall|b: u64| #[trigger]
            records_in(all).contains_key(b) ==> exists|i: int|
                {
                    &&& 0 <= i < all.len()
                    &&& (#[trigger] all[i]).0 == b
                    &&& all[i].1 == Some(records_in(all)[b])
                    &&& forall|j: int|
                        i < j < all.len() ==> (#[trigger] all[j]).0 != b || all[j].1 is None
                },
        forall|i: int|
            0 <= i < all.len() && (#[trigger] all[i]).1 is Some ==> records_in(all).contains_key(
                all[i].0,
            ),
    decreases all.len(),
{
    if all.len() > 0 {
        let head = all.drop_last();
        let n = head.len() as int;
        let last = all.last();
        let before = records_in(head);
        let after = records_in(all);
        lemma_records_in(head);
        assert forall|b: u64| #[trigger] after.contains_key(b) implies exists|i: int|
            {
                &&& 0 <= i < all.len()
                &&& (#[trigger] all[i]).0 == b
                &&& all[i].1 == Some(after[b])
                &&& forall|j: int|
                    i < j < all.len() ==> (#[trigger] all[j]).0 != b || all[j].1 is None
            } by {
            if last.0 == b && last.1 is Some {
                assert(all[n].0 == b);
            } else {
                assert(before.contains_key(b));
                let i = choose|i: int|
                    {
                        &&& 0 <= i < head.len()
                        &&& (#[trigger] head[i]).0 == b
                        &&& head[i].1 == Some(before[b])
                        &&& forall|j: int|
                            i < j < head.len() ==> (#[trigger] head[j]).0 != b || head[j].1 is None
                    };
                assert(all[i] == head[i]);
                assert forall|j: int| i < j < all.len() implies (#[trigger] all[j]).0 != b
                    || all[j].1 is None by {
                    if j < n {
                        assert(all[j] == head[j]);
                    }
                }
            }
        }
        assert forall|i: int| 0 <= i < all.len() && (#[trigger] all[i]).1 is Some implies
            after.contains_key(all[i].0) by {
            if i < n {
                assert(all[i] == head[i]);
            }
        }
    }
}

/// Whether records are of each bucket the last that was found for it, and nothing else.
pub open spec fn records_found(records: Map<u64, RecordView>, found: Seq<FoundRecord>) -> bool {
    &&& forall|b: u64| #[trigger]
        records.contains_key(b) ==> exists|i: int|
            {
                &&& 0 <= i < found.len()
                &&& (#[trigger] found[i]).bucket_id == b
                &&& found[i].record is Some
                &&& found[i].record->0@ == records[b]
                &&& forall|j: int|
                    i < j < found.len() ==> (#[trigger] found[j]).bucket_id != b
                        || found[j].record is None
            }
    &&& forall|i: int|
        0 <= i < found.len() && (#[trigger] found[i]).record is Some ==> records.contains_key(
            found[i].bucket_id,
        )
}

proof fn lemma_records_found(found: Seq<FoundRecord>)
    ensures
        records_found(records_in(found_rows(found)), found),
{
    let all = found_rows(found);
    let records = records_in(all);
    lemma_records_in(all);
    assert forall|b: u64| #[trigger] records.contains_key(b) implies exists|i: int|
        {
            &&& 0 <= i < found.len()
            &&& (#[trigger] found[i]).bucket_id == b
            &&& found[i].record is Some
            &&& found[i].record->0@ == records[b]
            &&& forall|j: int|
                i < j < found.len() ==> (#[trigger] found[j]).bucket_id != b
                    || found[j].record is None
        } by {
        let i = choose|i: int|
            {
                &&& 0 <= i < all.len()
                &&& (#[trigger] all[i]).0 == b
                &&& all[i].1 == Some(records[b])
                &&& forall|j: int|
                    i < j < all.len() ==> (#[trigger] all[j]).0 != b || all[j].1 is None
            };
        assert(all[i] == found[i]@);
        assert forall|j: int| i < j < found.len() implies (#[trigger] found[j]).bucket_id != b
            || found[j].record is None by {
            assert(all[j] == found[j]@);
        }
    }
    assert forall|i: int| 0 <= i < found.len() && (#[trigger] found[i]).record is Some implies
        records.contains_key(found[i].bucket_id) by {
        assert(all[i] == found[i]@);
    }
}

/// Of the records that were found, the last for each bucket counts, and nothing else. So it is when
/// they are loaded, and they are then the ones that the cache has of the room.
pub proof fn law_records_are_found(
    found: &[FoundRecord],
    r: IdMap<BucketRecord>,
    store: &RoomPersistence,
    cache: &mut BucketCache,
    loaded: IdMap<BucketRecord>,
)
    requires
        call_ensures(collect_records, (found,), r),
        call_ensures(RoomPersistence::load_buckets, (store, cache, found), loaded),
        old(cache).capacity() > 0,
    ensures
        records_found(r@, found@),
        loaded@ == r@,
        find_row(final(cache)@, store.room_id) == Some(loaded@),
{
    lemma_records_found(found@);
    crate::bucket_cache::law_put_is_found(
        old(cache)@,
        store.room_id,
        loaded@,
        old(cache).capacity(),
    );
}

/// How often a number of a bucket with a record stands among the entries of a scan.
pub open spec fn times_listed(all: Seq<(Seq<u8>, Seq<u8>)>, b: u64) -> nat {
    Set::new(
        |i: int|
            0 <= i < all.len() && valid_utf8(all[i].0) && is_prefix_and_number(
                "bucket:"@,
                decode_utf8(all[i].0),
                b,
            ),
    ).len()
}

proof fn lemma_times_listed(all: Seq<(Seq<u8>, Seq<u8>)>, b: u64)
    ensures
        Set::new(
            |i: int|
                0 <= i < all.len() && valid_utf8(all[i].0) && is_prefix_and_number(
                    "bucket:"@,
                    decode_utf8(all[i].0),
                    b,
                ),
        ).finite(),
        buckets_in(all).to_multiset().count(b) == times_listed(all, b),
    decreases all.len(),
{
    broadcast use vstd::seq_lib::group_to_multiset_ensures;

    let places = Set::new(
        |i: int|
            0 <= i < all.len() && valid_utf8(all[i].0) && is_prefix_and_number(
                "bucket:"@,
                decode_utf8(all[i].0),
                b,
            ),
    );
    if all.len() == 0 {
        assert(places =~= Set::<int>::empty());
        assert(buckets_in(all) =~= Seq::<u64>::empty());
        assert(buckets_in(all).to_multiset() =~= vstd::multiset::Multiset::empty());
    } else {
        let head = all.drop_last();
        let n = head.len() as int;
        let before = Set::new(
            |i: int|
                0 <= i < head.len() && valid_utf8(head[i].0) && is_prefix_and_number(
                    "bucket:"@,
                    decode_utf8(head[i].0),
                    b,
                ),
        );
        lemma_times_listed(head, b);
        lemma_id_behind("bucket:"@, decode_utf8(all[n].0), b);
        if places.contains(n) {
            assert(places =~= before.insert(n));
        } else {
            assert(places =~= before);
        }
    }
}

/// The buckets of a room are those with a record in a scan, in order; or those of the stored list, if
/// there is one. The list that is stored is that of the scan, and is what is read again.
pub proof fn law_buckets_are_listed(
    store: &RoomPersistence,
    entries: &[StoreEntry],
    collected: Vec<u64>,
    kept: StoreWrite,
    stored: Option<&[u8]>,
    r: Result<Vec<u64>, String>,
    bytes: &[u8],
    listed: Option<Vec<u64>>,
    b: u64,
)
    requires
        call_ensures(RoomPersistence::collect_bucket_ids, (store, entries), collected),
        call_ensures(RoomPersistence::update_bucket_list, (store, entries), kept),
        call_ensures(RoomPersistence::load_bucket_list, (store, stored, entries), r),
        call_ensures(RoomPersistence::listed_buckets, (store, bytes), listed),
    ensures
        forall|i: int, j: int|
            0 <= i < j < collected@.len() ==> #[trigger] collected@[i] <= #[trigger] collected@[j],
        collected@.to_multiset().count(b) == times_listed(rows(entries@), b),
        kept.key@ == "/room/"@ + decimal(store.room_id as nat) + "/buckets"@,
        kept.value matches Some(written) && (ids_of_json(written@) matches Ok(ids)
            && ids.to_multiset().count(b) == times_listed(rows(entries@), b)),
        stored is None ==> (r matches Ok(ids) && ids@.to_multiset().count(b) == times_listed(
            rows(entries@),
            b,
        )),
        stored matches Some(list) ==> match ids_of_json(list@) {
            Ok(ids) => r matches Ok(read) && read@ == ids,
            Err(e) => r matches Err(text) && text@ == "deserialize error: "@ + e,
        },
        match ids_of_json(bytes@) {
            Ok(ids) => listed matches Some(read) && read@ == ids,
            Err(_) => listed is None,
        },
{
    lemma_times_listed(rows(entries@), b);
}

// ---------------------------------------------------------------------------
// The cache
// ---------------------------------------------------------------------------

/// A cache begins empty and holds up to 128 rooms.
pub proof fn law_new_cache(cache: BucketCache)
    requires
        call_ensures(BucketCache::new, (), cache),
    ensures
        cache@.len() == 0,
        cache.capacity() == 128,
{
}

/// What is kept of a room is handed out, and nothing is found that was not kept. Looking changes what
/// is found of no room.
pub proof fn law_kept_records_are_found(
    cache: &mut BucketCache,
    room_id: u64,
    r: Option<Arc<IdMap<BucketRecord>>>,
    for_list: &mut BucketCache,
    list: Option<Vec<u64>>,
    for_copy: &mut BucketCache,
    copy: Option<IdMap<BucketRecord>>,
    other: u64,
)
    requires
        call_ensures(BucketCache::get, (cache, room_id), r),
        call_ensures(BucketCache::bucket_list, (for_list, room_id), list),
        call_ensures(BucketCache::buckets, (for_copy, room_id), copy),
    ensures
        match find_row(old(cache)@, room_id) {
            Some(records) => r matches Some(given) && given@ == records,
            None => r is None,
        },
        match find_row(old(for_list)@, room_id) {
            Some(records) => list matches Some(ids) && (forall|b: u64| #[trigger]
                ids@.contains(b) <==> records.contains_key(b)) && (forall|i: int, j: int|
                0 <= i < j < ids@.len() ==> #[trigger] ids@[i] < #[trigger] ids@[j]),
            None => list is None,
        },
        match find_row(old(for_copy)@, room_id) {
            Some(records) => copy matches Some(given) && given@ == records,
            None => copy is None,
        },
        find_row(final(cache)@, other) == find_row(old(cache)@, other),
        find_row(final(for_list)@, other) == find_row(old(for_list)@, other),
        find_row(final(for_copy)@, other) == find_row(old(for_copy)@, other),
        final(cache).capacity() == old(cache).capacity(),
{
    crate::bucket_cache::law_lookup_changes_nothing(old(cache)@, room_id, other);
    crate::bucket_cache::law_lookup_changes_nothing(old(for_list)@, room_id, other);
    crate::bucket_cache::law_lookup_changes_nothing(old(for_copy)@, room_id, other);
    if let Some(ids) = list {
        let records = find_row(old(for_list)@, room_id)->0;
        assert forall|b: u64| #[trigger] ids@.contains(b) <==> records.contains_key(b) by {
            assert(ids@.to_set().contains(b) == records.dom().contains(b));
        }
    }
}

/// Records that are put or loaded are found of their room; of any other room what was found is found,
/// or nothing, and nothing only if the cache was full. Records that are removed are found no more.
pub proof fn law_records_are_put(
    cache: &mut BucketCache,
    for_loaded: &mut BucketCache,
    for_removed: &mut BucketCache,
    room_id: u64,
    records: Arc<IdMap<BucketRecord>>,
    loaded: &IdMap<BucketRecord>,
    other: u64,
)
    requires
        call_ensures(BucketCache::put, (cache, room_id, records), ()),
        call_ensures(BucketCache::note_loaded, (for_loaded, room_id, loaded), ()),
        call_ensures(BucketCache::remove, (for_removed, room_id), ()),
        old(cache).capacity() > 0,
        old(for_loaded).capacity() > 0,
        other != room_id,
    ensures
        find_row(final(cache)@, room_id) == Some(records@),
        find_row(final(for_loaded)@, room_id) == Some(loaded@),
        find_row(final(for_removed)@, room_id) is None,
        find_row(final(for_removed)@, other) == find_row(old(for_removed)@, other),
        find_row(final(cache)@, other) == find_row(old(cache)@, other) || (find_row(
            final(cache)@,
            other,
        ) is None && old(cache)@.len() >= old(cache).capacity()),
        find_row(final(for_loaded)@, other) == find_row(old(for_loaded)@, other) || (find_row(
            final(for_loaded)@,
            other,
        ) is None && old(for_loaded)@.len() >= old(for_loaded).capacity()),
        old(cache)@.len() <= old(cache).capacity() ==> final(cache)@.len()
            <= final(cache).capacity(),
{
    crate::bucket_cache::law_put_is_found(old(cache)@, room_id, records@, old(cache).capacity());
    crate::bucket_cache::law_put_is_found(
        old(for_loaded)@,
        room_id,
        loaded@,
        old(for_loaded).capacity(),
    );
    crate::bucket_cache::law_put_keeps_others(
        old(cache)@,
        room_id,
        records@,
        old(cache).capacity(),
        other,
    );
    crate::bucket_cache::law_put_keeps_others(
        old(for_loaded)@,
        room_id,
        loaded@,
        old(for_loaded).capacity(),
        other,
    );
    crate::bucket_cache::law_remove_drops_one(old(for_removed)@, room_id, other);
    if old(cache)@.len() <= old(cache).capacity() {
        crate::bucket_cache::law_capacity_holds(
            old(cache)@,
            room_id,
            records@,
            old(cache).capacity(),
        );
    }
}

/// A record that was stored is put among those that are kept of its room, and one that was dropped is
/// taken out of them; a room of which nothing is kept stays out.
pub proof fn law_records_are_kept_up(
    saved: &mut BucketCache,
    removed: &mut BucketCache,
    room_id: u64,
    record: BucketRecord,
    bucket_id: u64,
)
    requires
        call_ensures(BucketCache::note_saved, (saved, room_id, record), ()),
        call_ensures(BucketCache::note_removed, (removed, room_id, bucket_id), ()),
        old(saved).capacity() > 0,
        old(removed).capacity() > 0,
    ensures
        find_row(final(saved)@, room_id) == (match find_row(old(saved)@, room_id) {
            Some(records) => Some(records.insert(record.id, record@)),
            None => None,
        }),
        find_row(final(removed)@, room_id) == (match find_row(old(removed)@, room_id) {
            Some(records) => Some(records.remove(bucket_id)),
            None => None,
        }),
{
    if let Some(records) = find_row(old(saved)@, room_id) {
        crate::bucket_cache::law_put_is_found(
            touched(old(saved)@, room_id),
            room_id,
            records.insert(record.id, record@),
            old(saved).capacity(),
        );
    }
    if let Some(records) = find_row(old(removed)@, room_id) {
        crate::bucket_cache::law_put_is_found(
            touched(old(removed)@, room_id),
            room_id,
            records.remove(bucket_id),
            old(removed).capacity(),
        );
    }
}

} // verus!
