//! What holds of the store of a room as a whole: what is written under a key is found
//! again, and the keys of one kind are never taken for those of another.

use crate::json::{holds_float, json_text_of_bytes};
use crate::persistence::{
    bucket_key_text, bucket_list_key_text, bucket_of_key, buckets_in, first_colon, flags_in,
    fragment_key_text, fragments_in, id_behind, lemma_first_colon, member_list_key_text, members_in,
    meta_bucket_of_key, meta_key_text, place_of_key, room_dir_text, scans, text_of,
    writes_fragment, writes_members, written, StoreWrite,
};
use crate::text::{decimal, is_digit, lemma_decimal, lemma_u64_round_trip, starts_with, u64_of_text};
use vstd::prelude::*;
use vstd::string::*;
use vstd::utf8::{encode_utf8, encode_utf8_decode_utf8, encode_utf8_valid_utf8};

verus! {

/// The bytes of a text are read as that text.
pub proof fn law_text_round_trip(text: Seq<char>)
    ensures
        text_of(encode_utf8(text)) == Some(text),
{
    encode_utf8_valid_utf8(text);
    encode_utf8_decode_utf8(text);
}

/// Two texts with the same bytes are the same.
pub proof fn law_text_bytes_injective(a: Seq<char>, b: Seq<char>)
    requires
        encode_utf8(a) == encode_utf8(b),
    ensures
        a == b,
{
    encode_utf8_decode_utf8(a);
    encode_utf8_decode_utf8(b);
}

proof fn lemma_id_behind(prefix: Seq<char>, id: u64)
    ensures
        id_behind(prefix, prefix + decimal(id as nat)) == Some(id),
{
    let name = prefix + decimal(id as nat);
    assert(name.take(prefix.len() as int) =~= prefix);
    assert(name.skip(prefix.len() as int) =~= decimal(id as nat));
    lemma_u64_round_trip(id);
}

/// The directory of a room is recognised as that room's.
pub proof fn law_room_dir_round_trip(room_id: u64)
    ensures
        id_behind("room_"@, room_dir_text(room_id)) == Some(room_id),
{
    lemma_id_behind("room_"@, room_id);
}

/// The key of a bucket's record is recognised as that bucket's.
pub proof fn law_bucket_key_round_trip(bucket_id: u64)
    ensures
        bucket_of_key(encode_utf8(bucket_key_text(bucket_id))) == Some(bucket_id),
{
    law_text_round_trip(bucket_key_text(bucket_id));
    lemma_id_behind("bucket:"@, bucket_id);
}

/// The key of a bucket's flags is recognised as that bucket's.
pub proof fn law_meta_key_round_trip(bucket_id: u64)
    ensures
        meta_bucket_of_key(encode_utf8(meta_key_text(bucket_id))) == Some(bucket_id),
{
    law_text_round_trip(meta_key_text(bucket_id));
    lemma_id_behind("meta:bucket:"@, bucket_id);
}

/// The key of a fragment is recognised as that fragment's, whatever characters the
/// fragment's own key holds.
pub proof fn law_fragment_key_round_trip(bucket_id: u64, key: Seq<char>)
    ensures
        place_of_key(encode_utf8(fragment_key_text(decimal(bucket_id as nat), key))) == Some(
            (bucket_id, key),
        ),
{
    let digits = decimal(bucket_id as nat);
    let name = fragment_key_text(digits, key);
    law_text_round_trip(name);
    reveal_strlit(":");
    lemma_decimal(bucket_id as nat);
    let n = digits.len() as int;
    assert forall|i: int| 0 <= i < n implies name[i] != ':' by {
        assert(name[i] == digits[i]);
        assert(is_digit(digits[i]));
    }
    assert(name[n] == ':');
    lemma_first_colon(name, n);
    assert(name.take(n) =~= digits);
    assert(name.skip(n + 1) =~= key);
    lemma_u64_round_trip(bucket_id);
}

/// Two fragments have the same key only where they are the same fragment.
pub proof fn law_fragment_keys_are_distinct(b1: u64, k1: Seq<char>, b2: u64, k2: Seq<char>)
    requires
        fragment_key_text(decimal(b1 as nat), k1) == fragment_key_text(decimal(b2 as nat), k2),
    ensures
        b1 == b2,
        k1 == k2,
{
    law_fragment_key_round_trip(b1, k1);
    law_fragment_key_round_trip(b2, k2);
}

proof fn lemma_no_number(s: Seq<char>)
    requires
        s.len() > 0,
        !is_digit(s[0]),
        s[0] != '+',
    ensures
        u64_of_text(s) is None,
{
}

/// The keys of bucket records, of flags and of lists are never taken for fragments.
pub proof fn law_own_keys_are_no_fragments(id: u64)
    ensures
        place_of_key(encode_utf8(bucket_key_text(id))) is None,
        place_of_key(encode_utf8(meta_key_text(id))) is None,
        place_of_key(encode_utf8(bucket_list_key_text(id))) is None,
        place_of_key(encode_utf8(member_list_key_text(id))) is None,
{
    reveal_strlit("bucket:");
    reveal_strlit("meta:bucket:");
    reveal_strlit("/room/");
    reveal_strlit("/buckets");
    reveal_strlit("/members");
    lemma_decimal(id as nat);
    let bucket = bucket_key_text(id);
    law_text_round_trip(bucket);
    lemma_first_colon(bucket, 6);
    lemma_no_number(bucket.take(6));
    let meta = meta_key_text(id);
    law_text_round_trip(meta);
    lemma_first_colon(meta, 4);
    lemma_no_number(meta.take(4));
    let buckets = bucket_list_key_text(id);
    law_text_round_trip(buckets);
    lemma_no_colon(buckets, decimal(id as nat), "/buckets"@);
    let members = member_list_key_text(id);
    law_text_round_trip(members);
    lemma_no_colon(members, decimal(id as nat), "/members"@);
}

proof fn lemma_no_colon(name: Seq<char>, digits: Seq<char>, end: Seq<char>)
    requires
        name == "/room/"@ + digits + end,
        forall|i: int| 0 <= i < digits.len() ==> is_digit(digits[i]),
        forall|i: int| 0 <= i < end.len() ==> end[i] != ':',
    ensures
        first_colon(name) == name.len(),
{
    reveal_strlit("/room/");
    assert forall|i: int| 0 <= i < name.len() implies name[i] != ':' by {
        if i >= 6 && i < 6 + digits.len() {
            assert(name[i] == digits[i - 6]);
        } else if i >= 6 {
            assert(name[i] == end[i - 6 - digits.len()]);
        }
    }
    lemma_first_colon(name, name.len() as int);
}

/// The keys of flags are never taken for those of records, nor those of records for those
/// of flags.
pub proof fn law_records_and_flags_are_apart(id: u64)
    ensures
        bucket_of_key(encode_utf8(meta_key_text(id))) is None,
        meta_bucket_of_key(encode_utf8(bucket_key_text(id))) is None,
{
    reveal_strlit("bucket:");
    reveal_strlit("meta:bucket:");
    let meta = meta_key_text(id);
    law_text_round_trip(meta);
    assert(meta.take("bucket:"@.len() as int)[0] == 'm');
    let bucket = bucket_key_text(id);
    law_text_round_trip(bucket);
    if starts_with(bucket, "meta:bucket:"@) {
        assert(bucket.take("meta:bucket:"@.len() as int)[0] == 'b');
    }
}

/// Flags that were written are read back.
pub proof fn law_flags_read_back(flags: u32)
    ensures
        flags_in(vstd::bytes::spec_u32_to_le_bytes(flags)) == Some(flags),
{
    vstd::bytes::lemma_auto_spec_u32_to_from_le_bytes();
}

/// After a change the store holds what was written under the key, and under every other
/// key what it held before.
pub proof fn law_write_changes_one_key(
    store: Map<Seq<u8>, Seq<u8>>,
    write: StoreWrite,
    other: Seq<u8>,
)
    ensures
        ({
            let key = encode_utf8(write.key@);
            let after = written(store, write);
            &&& match write.value {
                Some(bytes) => after.contains_key(key) && after[key] == bytes@,
                None => !after.contains_key(key),
            }
            &&& other != key ==> after.contains_key(other) == store.contains_key(other)
            &&& other != key && store.contains_key(other) ==> after[other] == store[other]
        }),
{
}

/// The members that were stored are the members that are loaded.
pub proof fn law_members_read_back(
    store: Map<Seq<u8>, Seq<u8>>,
    write: StoreWrite,
    room_id: u64,
    members: Set<Seq<char>>,
)
    requires
        writes_members(write, room_id, members),
    ensures
        ({
            let key = encode_utf8(member_list_key_text(room_id));
            let after = written(store, write);
            after.contains_key(key) && members_in(Some(after[key])) == Ok::<
                Set<Seq<char>>,
                Seq<char>,
            >(members)
        }),
{
}

/// A scan brings every fragment that the store holds: the value of the last entry for a
/// place whose value is JSON.
pub proof fn law_scan_brings_fragments(
    rows: Seq<(Seq<u8>, Seq<u8>)>,
    i: int,
    bucket_id: u64,
    key: Seq<char>,
    value: Seq<char>,
)
    requires
        0 <= i < rows.len(),
        place_of_key(rows[i].0) == Some((bucket_id, key)),
        json_text_of_bytes(rows[i].1) == Ok::<Seq<char>, Seq<char>>(value),
        forall|j: int|
            i < j < rows.len() ==> place_of_key(#[trigger] rows[j].0) != Some((bucket_id, key))
                || json_text_of_bytes(rows[j].1) is Err,
    ensures
        fragments_in(rows).contains_key(bucket_id),
        fragments_in(rows)[bucket_id].contains_key(key),
        fragments_in(rows)[bucket_id][key] == value,
    decreases rows.len(),
{
    if i < rows.len() - 1 {
        let rest = rows.drop_last();
        assert forall|j: int| i < j < rest.len() implies place_of_key(#[trigger] rest[j].0) != Some(
            (bucket_id, key),
        ) || json_text_of_bytes(rest[j].1) is Err by {
            assert(rest[j] == rows[j]);
        }
        law_scan_brings_fragments(rest, i, bucket_id, key, value);
        assert(rows.last() == rows[rows.len() - 1]);
    }
}

/// A scan brings no fragment for which the store holds no entry.
pub proof fn law_scan_brings_nothing_else(
    rows: Seq<(Seq<u8>, Seq<u8>)>,
    bucket_id: u64,
    key: Seq<char>,
)
    requires
        forall|j: int|
            0 <= j < rows.len() ==> place_of_key(#[trigger] rows[j].0) != Some((bucket_id, key))
                || json_text_of_bytes(rows[j].1) is Err,
    ensures
        !(fragments_in(rows).contains_key(bucket_id) && fragments_in(rows)[bucket_id].contains_key(
            key,
        )),
    decreases rows.len(),
{
    if rows.len() > 0 {
        let rest = rows.drop_last();
        assert forall|j: int| 0 <= j < rest.len() implies place_of_key(#[trigger] rest[j].0) != Some(
            (bucket_id, key),
        ) || json_text_of_bytes(rest[j].1) is Err by {
            assert(rest[j] == rows[j]);
        }
        law_scan_brings_nothing_else(rest, bucket_id, key);
        assert(rows.last() == rows[rows.len() - 1]);
    }
}

/// Whether no entry of a store but that of the fragment itself is taken for a fragment.
pub open spec fn sole_place(store: Map<Seq<u8>, Seq<u8>>, bucket_id: u64, key: Seq<char>) -> bool {
    forall|other: Seq<u8>| #[trigger]
        store.contains_key(other) && place_of_key(other) == Some((bucket_id, key)) ==> other
            == encode_utf8(fragment_key_text(decimal(bucket_id as nat), key))
}

/// Keeping or dropping a fragment of a numbered bucket adds no entry that is taken for
/// another fragment.
pub proof fn law_fragments_keep_their_places(
    store: Map<Seq<u8>, Seq<u8>>,
    write: StoreWrite,
    written_bucket: u64,
    written_key: Seq<char>,
    value: Option<Seq<char>>,
    bucket_id: u64,
    key: Seq<char>,
)
    requires
        writes_fragment(write, decimal(written_bucket as nat), written_key, value),
        sole_place(store, bucket_id, key),
    ensures
        sole_place(written(store, write), bucket_id, key),
{
    law_fragment_key_round_trip(written_bucket, written_key);
}

/// A fragment that was kept is brought by every later scan of the store, with the value that
/// it had; a value with a floating-point number is left out, of which the last digit may
/// change.
pub proof fn law_fragment_read_back(
    store: Map<Seq<u8>, Seq<u8>>,
    write: StoreWrite,
    bucket_id: u64,
    key: Seq<char>,
    value: Seq<char>,
    rows: Seq<(Seq<u8>, Seq<u8>)>,
)
    requires
        writes_fragment(write, decimal(bucket_id as nat), key, Some(value)),
        !holds_float(value, false),
        sole_place(store, bucket_id, key),
        scans(rows, written(store, write)),
    ensures
        fragments_in(rows).contains_key(bucket_id),
        fragments_in(rows)[bucket_id].contains_key(key),
        fragments_in(rows)[bucket_id][key] == value,
{
    let name = encode_utf8(fragment_key_text(decimal(bucket_id as nat), key));
    let after = written(store, write);
    law_fragment_key_round_trip(bucket_id, key);
    assert(after.contains_key(name));
    let i = choose|i: int| 0 <= i < rows.len() && (#[trigger] rows[i]).0 == name;
    assert forall|j: int| i < j < rows.len() implies place_of_key(#[trigger] rows[j].0) != Some(
        (bucket_id, key),
    ) by {
        assert(after.contains_key(rows[j].0));
        assert(rows[i].0 != rows[j].0);
    }
    law_scan_brings_fragments(rows, i, bucket_id, key, value);
}

/// A fragment that was dropped is brought by no later scan of the store.
pub proof fn law_dropped_fragments_stay_away(
    store: Map<Seq<u8>, Seq<u8>>,
    write: StoreWrite,
    bucket_id: u64,
    key: Seq<char>,
    rows: Seq<(Seq<u8>, Seq<u8>)>,
)
    requires
        writes_fragment(write, decimal(bucket_id as nat), key, None),
        sole_place(store, bucket_id, key),
        scans(rows, written(store, write)),
    ensures
        !(fragments_in(rows).contains_key(bucket_id) && fragments_in(rows)[bucket_id].contains_key(
            key,
        )),
{
    let after = written(store, write);
    assert forall|j: int| 0 <= j < rows.len() implies place_of_key(#[trigger] rows[j].0) != Some(
        (bucket_id, key),
    ) by {
        assert(after.contains_key(rows[j].0));
    }
    law_scan_brings_nothing_else(rows, bucket_id, key);
}

/// A scan lists exactly the buckets whose records the store holds.
pub proof fn law_scan_lists_buckets(rows: Seq<(Seq<u8>, Seq<u8>)>, bucket_id: u64)
    ensures
        buckets_in(rows).contains(bucket_id) <==> exists|i: int|
            0 <= i < rows.len() && bucket_of_key(#[trigger] rows[i].0) == Some(bucket_id),
    decreases rows.len(),
{
    if rows.len() > 0 {
        let rest = rows.drop_last();
        let last = rows.len() - 1;
        law_scan_lists_buckets(rest, bucket_id);
        if exists|i: int| 0 <= i < rest.len() && bucket_of_key(#[trigger] rest[i].0) == Some(bucket_id) {
            let i = choose|i: int|
                0 <= i < rest.len() && bucket_of_key(#[trigger] rest[i].0) == Some(bucket_id);
            assert(rows[i] == rest[i]);
        }
        if exists|i: int| 0 <= i < rows.len() && bucket_of_key(#[trigger] rows[i].0) == Some(bucket_id) {
            let i = choose|i: int|
                0 <= i < rows.len() && bucket_of_key(#[trigger] rows[i].0) == Some(bucket_id);
            if i < last {
                assert(rest[i] == rows[i]);
            }
        }
        let before = buckets_in(rest);
        match bucket_of_key(rows.last().0) {
            Some(id) => {
                assert(before.push(id)[before.len() as int] == id);
                if before.contains(bucket_id) {
                    let k = choose|k: int| 0 <= k < before.len() && before[k] == bucket_id;
                    assert(before.push(id)[k] == bucket_id);
                }
                if before.push(id).contains(bucket_id) && id != bucket_id {
                    let k = choose|k: int|
                        0 <= k < before.push(id).len() && before.push(id)[k] == bucket_id;
                    assert(before[k] == bucket_id);
                }
                if id == bucket_id {
                    assert(bucket_of_key(rows[last].0) == Some(bucket_id));
                }
            },
            None => {},
        }
    }
}

} // verus!
