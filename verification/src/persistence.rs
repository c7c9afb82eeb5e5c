//! What is kept of a room on disk: the keys under which a room's store holds its
//! fragments, buckets and members, and what the bytes under them stand for.

use crate::collections::{ascending_texts, lemma_take_one_more, texts, IdMap, StrMap, StrSet};
use crate::json::{holds_float, json_text_of_bytes, Value};
use crate::text::{
    chars_of, decimal, decimal_string, has_prefix, parse_u64, push_decimal, starts_with, string_of,
    trim, trimmed_string, u64_of_text,
};
use vstd::prelude::*;
use vstd::slice::slice_subrange;
use vstd::string::*;

verus! {

// ---------------------------------------------------------------------------
// Buckets
// ---------------------------------------------------------------------------

/// What is kept of a bucket.
#[derive(Debug)]
pub struct BucketRecord {
    pub id: u64,
    pub label: Option<String>,
    pub flags: u32,
}

pub ghost struct RecordView {
    pub id: u64,
    pub label: Option<Seq<char>>,
    pub flags: u32,
}

impl View for BucketRecord {
    type V = RecordView;

    open spec fn view(&self) -> RecordView {
        RecordView {
            id: self.id,
            label: match self.label {
                Some(label) => Some(label@),
                None => None,
            },
            flags: self.flags,
        }
    }
}

impl Clone for BucketRecord {
    fn clone(&self) -> (r: BucketRecord)
        ensures
            r@ == self@,
    {
        BucketRecord {
            id: self.id,
            label: match &self.label {
                Some(label) => Some(label.clone()),
                None => None,
            },
            flags: self.flags,
        }
    }
}

/// Copies the records of a room.
pub fn copy_records(records: &IdMap<BucketRecord>) -> (r: IdMap<BucketRecord>)
    ensures
        r@ == records@,
{
    let ids: Vec<u64> = records.keys();
    let mut out: IdMap<BucketRecord> = IdMap::new();
    let mut i: usize = 0;
    while i < ids.len()
        invariant
            i <= ids@.len(),
            ids@.to_set() == records@.dom(),
            out@ == records@.restrict(ids@.take(i as int).to_set()),
        decreases ids@.len() - i,
    {
        let id: u64 = ids[i];
        assert(ids@.to_set().contains(ids@[i as int]));
        if let Some(record) = records.get(id) {
            out.insert(id, record.clone());
        }
        proof {
            lemma_take_one_more(ids@, i as int);
            assert(out@ =~= records@.restrict(ids@.take(i + 1).to_set()));
        }
        i = i + 1;
    }
    assert(ids@.take(i as int) =~= ids@);
    assert(out@ =~= records@);
    out
}

// ---------------------------------------------------------------------------
// Keys
// ---------------------------------------------------------------------------

/// The key of a fragment.
pub open spec fn fragment_key_text(container: Seq<char>, key: Seq<char>) -> Seq<char> {
    container + ":"@ + key
}

pub fn fragment_key(container: &str, key: &str) -> (r: String)
    ensures
        r@ == fragment_key_text(container@, key@),
{
    let mut out: String = container.to_string();
    out.append(":");
    out.append(key);
    out
}

/// The key of the flags of a bucket.
pub open spec fn meta_key_text(bucket_id: u64) -> Seq<char> {
    "meta:bucket:"@ + decimal(bucket_id as nat)
}

pub fn meta_key(bucket_id: u64) -> (r: String)
    ensures
        r@ == meta_key_text(bucket_id),
{
    let mut out: String = "meta:bucket:".to_string();
    push_decimal(&mut out, bucket_id);
    out
}

/// The key of the record of a bucket.
pub open spec fn bucket_key_text(bucket_id: u64) -> Seq<char> {
    "bucket:"@ + decimal(bucket_id as nat)
}

pub fn bucket_key(bucket_id: u64) -> (r: String)
    ensures
        r@ == bucket_key_text(bucket_id),
{
    let mut out: String = "bucket:".to_string();
    push_decimal(&mut out, bucket_id);
    out
}

/// The key of the list of a room's buckets.
pub open spec fn bucket_list_key_text(room_id: u64) -> Seq<char> {
    "/room/"@ + decimal(room_id as nat) + "/buckets"@
}

/// The key of the list of a room's members.
pub open spec fn member_list_key_text(room_id: u64) -> Seq<char> {
    "/room/"@ + decimal(room_id as nat) + "/members"@
}

/// The name of the directory with the store of a room.
pub open spec fn room_dir_text(room_id: u64) -> Seq<char> {
    "room_"@ + decimal(room_id as nat)
}

pub fn room_dir(room_id: u64) -> (r: String)
    ensures
        r@ == room_dir_text(room_id),
{
    let mut out: String = "room_".to_string();
    push_decimal(&mut out, room_id);
    out
}

/// The number that stands behind a prefix.
pub open spec fn id_behind(prefix: Seq<char>, name: Seq<char>) -> Option<u64> {
    if starts_with(name, prefix) {
        u64_of_text(name.skip(prefix.len() as int))
    } else {
        None
    }
}

pub fn parse_id_behind(prefix: &str, name: &str) -> (r: Option<u64>)
    ensures
        r == id_behind(prefix@, name@),
{
    let chars: Vec<char> = chars_of(name);
    if !has_prefix(chars.as_slice(), prefix) {
        return None;
    }
    let n: usize = chars_of(prefix).len();
    let rest: &[char] = slice_subrange(chars.as_slice(), n, chars.len());
    assert(rest@ =~= name@.skip(prefix@.len() as int));
    parse_u64(rest)
}

/// The room whose store a directory holds, by the directory's name.
pub fn room_id_of_dir(name: &str) -> (r: Option<u64>)
    ensures
        r == id_behind("room_"@, name@),
{
    parse_id_behind("room_", name)
}

/// `std::str::from_utf8`: the text that bytes encode in UTF-8, or nothing where they
/// encode none.
#[verifier::external_body]
fn text_of_utf8(bytes: &[u8]) -> (r: Option<String>)
    ensures
        match r {
            Some(text) => text_of(bytes@) == Some(text@),
            None => text_of(bytes@) is None,
        },
{
    std::str::from_utf8(bytes).ok().map(str::to_owned)
}

/// The text that bytes encode in UTF-8.
pub open spec fn text_of(bytes: Seq<u8>) -> Option<Seq<char>> {
    if vstd::utf8::valid_utf8(bytes) {
        Some(vstd::utf8::decode_utf8(bytes))
    } else {
        None
    }
}

/// The bucket whose record stands under a key.
pub open spec fn bucket_of_key(key: Seq<u8>) -> Option<u64> {
    match text_of(key) {
        Some(name) => id_behind("bucket:"@, name),
        None => None,
    }
}

pub fn bucket_id_of_key(key: &[u8]) -> (r: Option<u64>)
    ensures
        r == bucket_of_key(key@),
{
    match text_of_utf8(key) {
        Some(name) => parse_id_behind("bucket:", name.as_str()),
        None => None,
    }
}

/// The bucket whose flags stand under a key.
pub open spec fn meta_bucket_of_key(key: Seq<u8>) -> Option<u64> {
    match text_of(key) {
        Some(name) => id_behind("meta:bucket:"@, name),
        None => None,
    }
}

pub fn meta_bucket_id_of_key(key: &[u8]) -> (r: Option<u64>)
    ensures
        r == meta_bucket_of_key(key@),
{
    match text_of_utf8(key) {
        Some(name) => parse_id_behind("meta:bucket:", name.as_str()),
        None => None,
    }
}

/// Where the first colon of a text stands; its length where it has none.
pub open spec fn first_colon(name: Seq<char>) -> int
    decreases name.len(),
{
    if name.len() == 0 || name[0] == ':' {
        0
    } else {
        1 + first_colon(name.skip(1))
    }
}

pub proof fn lemma_first_colon(name: Seq<char>, n: int)
    requires
        0 <= n <= name.len(),
        forall|i: int| 0 <= i < n ==> name[i] != ':',
        n < name.len() ==> name[n] == ':',
    ensures
        first_colon(name) == n,
    decreases name.len(),
{
    if n > 0 {
        let rest = name.skip(1);
        assert forall|i: int| 0 <= i < n - 1 implies rest[i] != ':' by {
            assert(rest[i] == name[i + 1]);
        }
        lemma_first_colon(rest, n - 1);
    }
}

/// The bucket and the key of the fragment that stands under a name: what stands
/// before the first colon is the number of the bucket, the rest is the key.
pub open spec fn place_in_text(name: Seq<char>) -> Option<(u64, Seq<char>)> {
    let colon = first_colon(name);
    if colon < name.len() {
        match u64_of_text(name.take(colon)) {
            Some(bucket_id) => Some((bucket_id, name.skip(colon + 1))),
            None => None,
        }
    } else {
        None
    }
}

/// The bucket and the key of the fragment that stands under a key.
pub open spec fn place_of_key(key: Seq<u8>) -> Option<(u64, Seq<char>)> {
    match text_of(key) {
        Some(name) => place_in_text(name),
        None => None,
    }
}

pub open spec fn place_view(place: Option<(u64, String)>) -> Option<(u64, Seq<char>)> {
    match place {
        Some((bucket_id, key)) => Some((bucket_id, key@)),
        None => None,
    }
}

pub fn fragment_place(key: &[u8]) -> (r: Option<(u64, String)>)
    ensures
        place_view(r) == place_of_key(key@),
{
    let name: String = match text_of_utf8(key) {
        Some(name) => name,
        None => {
            return None;
        },
    };
    let chars: Vec<char> = chars_of(name.as_str());
    let mut colon: usize = 0;
    while colon < chars.len() && chars[colon] != ':'
        invariant
            colon <= chars@.len(),
            forall|i: int| 0 <= i < colon ==> chars@[i] != ':',
        decreases chars@.len() - colon,
    {
        colon = colon + 1;
    }
    proof {
        lemma_first_colon(chars@, colon as int);
    }
    if colon >= chars.len() {
        return None;
    }
    let prefix: &[char] = slice_subrange(chars.as_slice(), 0, colon);
    let rest: &[char] = slice_subrange(chars.as_slice(), colon + 1, chars.len());
    assert(prefix@ =~= chars@.take(colon as int));
    assert(rest@ =~= chars@.skip(colon + 1));
    match parse_u64(prefix) {
        Some(bucket_id) => Some((bucket_id, string_of(rest))),
        None => None,
    }
}

// ---------------------------------------------------------------------------
// What is written
// ---------------------------------------------------------------------------

/// A change to the store of a room: bytes to put under a key, or a key to delete.
#[derive(Debug)]
pub struct StoreWrite {
    pub key: String,
    pub value: Option<Vec<u8>>,
}

/// What a change makes of what stands in a store.
pub open spec fn written(store: Map<Seq<u8>, Seq<u8>>, write: StoreWrite) -> Map<
    Seq<u8>,
    Seq<u8>,
> {
    let key = vstd::utf8::encode_utf8(write.key@);
    match write.value {
        Some(bytes) => store.insert(key, bytes@),
        None => store.remove(key),
    }
}

/// The bytes of a text.
fn bytes_of(text: &str) -> (r: Vec<u8>)
    ensures
        r@ == vstd::utf8::encode_utf8(text@),
{
    let bytes: &[u8] = text.as_bytes();
    let mut out: Vec<u8> = Vec::new();
    let mut i: usize = 0;
    while i < bytes.len()
        invariant
            i <= bytes@.len(),
            out@ == bytes@.take(i as int),
        decreases bytes@.len() - i,
    {
        out.push(bytes[i]);
        assert(out@ =~= bytes@.take(i + 1));
        i = i + 1;
    }
    assert(out@ =~= bytes@);
    out
}

pub open spec fn optional_value(value: Option<&Value>) -> Option<Seq<char>> {
    match value {
        Some(value) => Some(value@),
        None => None,
    }
}

/// Whether a change keeps the value of a fragment, or drops it where there is none. A value
/// is kept as the bytes of its JSON text, and is read back from these unless it holds a
/// floating-point number.
pub open spec fn writes_fragment(
    write: StoreWrite,
    container: Seq<char>,
    key: Seq<char>,
    value: Option<Seq<char>>,
) -> bool {
    &&& write.key@ == fragment_key_text(container, key)
    &&& match (value, write.value) {
        (Some(text), Some(bytes)) => bytes@ == vstd::utf8::encode_utf8(text) && (holds_float(
            text,
            false,
        ) || json_text_of_bytes(bytes@) == Ok::<Seq<char>, Seq<char>>(text)),
        (None, None) => true,
        _ => false,
    }
}

/// The flags that bytes stand for: four bytes, the least significant first, or else a
/// decimal number.
pub open spec fn flags_in(bytes: Seq<u8>) -> Option<u32> {
    if bytes.len() == 4 {
        Some(vstd::bytes::spec_u32_from_le_bytes(bytes))
    } else {
        match text_of(bytes) {
            Some(text) => match u64_of_text(text) {
                Some(n) => if n <= u32::MAX {
                    Some(n as u32)
                } else {
                    None
                },
                None => None,
            },
            None => None,
        }
    }
}

pub fn parse_flags(bytes: &[u8]) -> (r: Option<u32>)
    ensures
        r == flags_in(bytes@),
{
    if bytes.len() == 4 {
        return Some(vstd::bytes::u32_from_le_bytes(bytes));
    }
    match text_of_utf8(bytes) {
        Some(text) => {
            let chars: Vec<char> = chars_of(text.as_str());
            match parse_u64(chars.as_slice()) {
                Some(n) => if n <= 0xffff_ffff {
                    Some(n as u32)
                } else {
                    None
                },
                None => None,
            }
        },
        None => None,
    }
}

// ---------------------------------------------------------------------------
// Lists
// ---------------------------------------------------------------------------

/// The JSON array that `serde_json` writes for numbers.
pub uninterp spec fn json_of_ids(ids: Seq<u64>) -> Seq<u8>;

/// The numbers that `serde_json` reads from a JSON array, or the message of the error.
pub uninterp spec fn ids_of_json(bytes: Seq<u8>) -> Result<Seq<u64>, Seq<char>>;

/// The JSON array that `serde_json` writes for texts.
pub uninterp spec fn json_of_texts(list: Seq<Seq<char>>) -> Seq<u8>;

/// The texts that `serde_json` reads from a JSON array, or the message of the error.
pub uninterp spec fn texts_of_json(bytes: Seq<u8>) -> Result<Seq<Seq<char>>, Seq<char>>;

/// `serde_json::to_vec` on numbers: it does not fail, and `serde_json` reads the same
/// numbers back from what it writes.
#[verifier::external_body]
fn encode_ids(ids: &[u64]) -> (r: Result<Vec<u8>, String>)
    ensures
        match r {
            Ok(bytes) => bytes@ == json_of_ids(ids@) && ids_of_json(bytes@) == Ok::<
                Seq<u64>,
                Seq<char>,
            >(ids@),
            Err(_) => false,
        },
{
    serde_json::to_vec(ids).map_err(|error| error.to_string())
}

/// `serde_json::from_slice` to numbers: a function of the bytes alone.
#[verifier::external_body]
fn decode_ids(bytes: &[u8]) -> (r: Result<Vec<u64>, String>)
    ensures
        match r {
            Ok(ids) => ids_of_json(bytes@) == Ok::<Seq<u64>, Seq<char>>(ids@),
            Err(e) => ids_of_json(bytes@) == Err::<Seq<u64>, Seq<char>>(e@),
        },
{
    serde_json::from_slice(bytes).map_err(|error: serde_json::Error| error.to_string())
}

/// `serde_json::to_vec` on texts: it does not fail, and `serde_json` reads the same texts
/// back from what it writes.
#[verifier::external_body]
fn encode_texts(list: &[String]) -> (r: Result<Vec<u8>, String>)
    ensures
        match r {
            Ok(bytes) => bytes@ == json_of_texts(texts(list@)) && texts_of_json(bytes@) == Ok::<
                Seq<Seq<char>>,
                Seq<char>,
            >(texts(list@)),
            Err(_) => false,
        },
{
    serde_json::to_vec(list).map_err(|error| error.to_string())
}

/// `serde_json::from_slice` to texts: a function of the bytes alone.
#[verifier::external_body]
fn decode_texts(bytes: &[u8]) -> (r: Result<Vec<String>, String>)
    ensures
        match r {
            Ok(list) => texts_of_json(bytes@) == Ok::<Seq<Seq<char>>, Seq<char>>(texts(list@)),
            Err(e) => texts_of_json(bytes@) == Err::<Seq<Seq<char>>, Seq<char>>(e@),
        },
{
    serde_json::from_slice(bytes).map_err(|error: serde_json::Error| error.to_string())
}

/// The message for a list that cannot be read.
pub open spec fn unreadable(message: Seq<char>) -> Seq<char> {
    "deserialize error: "@ + message
}

fn unreadable_text(message: &str) -> (r: String)
    ensures
        r@ == unreadable(message@),
{
    let mut out: String = "deserialize error: ".to_string();
    out.append(message);
    out
}

/// The members that a stored list names; none where no list is stored.
pub open spec fn members_in(stored: Option<Seq<u8>>) -> Result<Set<Seq<char>>, Seq<char>> {
    match stored {
        Some(bytes) => match texts_of_json(bytes) {
            Ok(list) => Ok(list.to_set()),
            Err(e) => Err(unreadable(e)),
        },
        None => Ok(Set::empty()),
    }
}

pub open spec fn stored_view(stored: Option<&[u8]>) -> Option<Seq<u8>> {
    match stored {
        Some(bytes) => Some(bytes@),
        None => None,
    }
}

/// Whether a list is that of a set of texts: each once, in ascending order.
pub open spec fn lists(list: Seq<Seq<char>>, members: Set<Seq<char>>) -> bool {
    ascending_texts(list) && list.to_set() == members
}

/// Whether bytes are what is stored for a set of members.
pub open spec fn stores_members(bytes: Seq<u8>, members: Set<Seq<char>>) -> bool {
    exists|list: Seq<Seq<char>>| #[trigger] lists(list, members) && bytes == json_of_texts(list)
}

/// Whether a change stores a set of members as those of a room.
pub open spec fn writes_members(write: StoreWrite, room_id: u64, members: Set<Seq<char>>) -> bool {
    &&& write.key@ == member_list_key_text(room_id)
    &&& match write.value {
        Some(bytes) => stores_members(bytes@, members) && members_in(Some(bytes@)) == Ok::<
            Set<Seq<char>>,
            Seq<char>,
        >(members),
        None => false,
    }
}

// ---------------------------------------------------------------------------
// What a scan of the store brings
// ---------------------------------------------------------------------------

/// An entry of the store of a room.
#[derive(Debug)]
pub struct StoreEntry {
    pub key: Vec<u8>,
    pub value: Vec<u8>,
}

impl View for StoreEntry {
    type V = (Seq<u8>, Seq<u8>);

    open spec fn view(&self) -> (Seq<u8>, Seq<u8>) {
        (self.key@, self.value@)
    }
}

/// The entries of a scan.
pub open spec fn rows(entries: Seq<StoreEntry>) -> Seq<(Seq<u8>, Seq<u8>)> {
    entries.map_values(|entry: StoreEntry| entry@)
}

/// Whether a scan brings all the entries of a store, each once, in whatever order.
pub open spec fn scans(rows: Seq<(Seq<u8>, Seq<u8>)>, store: Map<Seq<u8>, Seq<u8>>) -> bool {
    &&& forall|i: int|
        0 <= i < rows.len() ==> store.contains_key((#[trigger] rows[i]).0) && store[rows[i].0]
            == rows[i].1
    &&& forall|i: int, j: int|
        0 <= i < j < rows.len() ==> (#[trigger] rows[i]).0 != (#[trigger] rows[j]).0
    &&& forall|key: Seq<u8>| #[trigger]
        store.contains_key(key) ==> exists|i: int|
            0 <= i < rows.len() && (#[trigger] rows[i]).0 == key
}

/// The buckets with a record among the entries, in the order of the entries.
pub open spec fn buckets_in(rows: Seq<(Seq<u8>, Seq<u8>)>) -> Seq<u64>
    decreases rows.len(),
{
    if rows.len() == 0 {
        Seq::empty()
    } else {
        let before = buckets_in(rows.drop_last());
        match bucket_of_key(rows.last().0) {
            Some(bucket_id) => before.push(bucket_id),
            None => before,
        }
    }
}

/// Not decreasing.
pub open spec fn in_order(s: Seq<u64>) -> bool {
    forall|i: int, j: int| 0 <= i < j < s.len() ==> s[i] <= s[j]
}

/// Puts a number behind those that are not greater.
fn insert_in_order(out: &mut Vec<u64>, n: u64)
    requires
        in_order(old(out)@),
    ensures
        in_order(final(out)@),
        final(out)@.to_multiset() == old(out)@.to_multiset().insert(n),
{
    let mut i: usize = 0;
    while i < out.len() && out[i] <= n
        invariant
            i <= out@.len(),
            out@ == old(out)@,
            forall|k: int| 0 <= k < i ==> out@[k] <= n,
        decreases out@.len() - i,
    {
        i = i + 1;
    }
    let ghost before = out@;
    out.insert(i, n);
    proof {
        broadcast use vstd::seq_lib::group_to_multiset_ensures;

        assert(out@ =~= before.insert(i as int, n));
    }
}

/// Whether a list holds the same numbers as another, in order.
pub open spec fn sorts(list: Seq<u64>, ids: Seq<u64>) -> bool {
    in_order(list) && list.to_multiset() == ids.to_multiset()
}

/// Whether a change stores the list of a room's buckets.
pub open spec fn writes_buckets(write: StoreWrite, room_id: u64, ids: Seq<u64>) -> bool {
    &&& write.key@ == bucket_list_key_text(room_id)
    &&& match write.value {
        Some(bytes) => exists|list: Seq<u64>| #[trigger]
            sorts(list, ids) && bytes@ == json_of_ids(list) && ids_of_json(bytes@) == Ok::<
                Seq<u64>,
                Seq<char>,
            >(list),
        None => false,
    }
}

/// A record as it was found for a bucket; nothing where it was not there or could not be
/// read.
#[derive(Debug)]
pub struct FoundRecord {
    pub bucket_id: u64,
    pub record: Option<BucketRecord>,
}

impl View for FoundRecord {
    type V = (u64, Option<RecordView>);

    open spec fn view(&self) -> (u64, Option<RecordView>) {
        (
            self.bucket_id,
            match self.record {
                Some(record) => Some(record@),
                None => None,
            },
        )
    }
}

/// What was found, record by record.
pub open spec fn found_rows(found: Seq<FoundRecord>) -> Seq<(u64, Option<RecordView>)> {
    found.map_values(|f: FoundRecord| f@)
}

/// The records that were found, by bucket. Of two for one bucket the later counts.
pub open spec fn records_in(rows: Seq<(u64, Option<RecordView>)>) -> Map<u64, RecordView>
    decreases rows.len(),
{
    if rows.len() == 0 {
        Map::empty()
    } else {
        let before = records_in(rows.drop_last());
        match rows.last().1 {
            Some(record) => before.insert(rows.last().0, record),
            None => before,
        }
    }
}

/// Gathers the records that were found.
pub fn collect_records(found: &[FoundRecord]) -> (r: IdMap<BucketRecord>)
    ensures
        r@ == records_in(found_rows(found@)),
{
    let mut out: IdMap<BucketRecord> = IdMap::new();
    let mut i: usize = 0;
    let ghost all = found_rows(found@);
    while i < found.len()
        invariant
            i <= found@.len(),
            all == found_rows(found@),
            out@ == records_in(all.take(i as int)),
        decreases found@.len() - i,
    {
        assert(all.take(i + 1).drop_last() =~= all.take(i as int));
        if let Some(record) = &found[i].record {
            out.insert(found[i].bucket_id, record.clone());
        }
        i = i + 1;
    }
    assert(all.take(i as int) =~= all);
    out
}

/// The flags of each of a room's buckets.
pub open spec fn flags_of_records(records: Map<u64, RecordView>) -> Map<u64, u32> {
    records.map_values(|record: RecordView| record.flags)
}

/// Reads the flags of a room's buckets from their records.
pub fn record_flags(records: &IdMap<BucketRecord>) -> (r: IdMap<u32>)
    ensures
        r@ == flags_of_records(records@),
{
    let ids: Vec<u64> = records.keys();
    let mut out: IdMap<u32> = IdMap::new();
    let mut i: usize = 0;
    let ghost all = flags_of_records(records@);
    assert(out@ =~= all.restrict(ids@.take(0).to_set()));
    while i < ids.len()
        invariant
            i <= ids@.len(),
            ids@.to_set() == records@.dom(),
            all == flags_of_records(records@),
            out@ == all.restrict(ids@.take(i as int).to_set()),
        decreases ids@.len() - i,
    {
        let id: u64 = ids[i];
        assert(ids@.to_set().contains(ids@[i as int]));
        if let Some(record) = records.get(id) {
            out.insert(id, record.flags);
        }
        proof {
            lemma_take_one_more(ids@, i as int);
            assert(out@ =~= all.restrict(ids@.take(i + 1).to_set()));
        }
        i = i + 1;
    }
    assert(ids@.take(i as int) =~= ids@);
    assert(out@ =~= all);
    out
}

/// The flags that stand under the keys of their own among the entries, by bucket.
pub open spec fn meta_flags_in(rows: Seq<(Seq<u8>, Seq<u8>)>) -> Map<u64, u32>
    decreases rows.len(),
{
    if rows.len() == 0 {
        Map::empty()
    } else {
        let before = meta_flags_in(rows.drop_last());
        match (meta_bucket_of_key(rows.last().0), flags_in(rows.last().1)) {
            (Some(bucket_id), Some(flags)) => before.insert(bucket_id, flags),
            _ => before,
        }
    }
}

/// Gathers the flags that stand under keys of their own.
pub fn collect_meta_flags(entries: &[StoreEntry]) -> (r: IdMap<u32>)
    ensures
        r@ == meta_flags_in(rows(entries@)),
{
    let mut out: IdMap<u32> = IdMap::new();
    let mut i: usize = 0;
    let ghost all = rows(entries@);
    while i < entries.len()
        invariant
            i <= entries@.len(),
            all == rows(entries@),
            out@ == meta_flags_in(all.take(i as int)),
        decreases entries@.len() - i,
    {
        assert(all.take(i + 1).drop_last() =~= all.take(i as int));
        if let Some(bucket_id) = meta_bucket_id_of_key(entries[i].key.as_slice()) {
            if let Some(flags) = parse_flags(entries[i].value.as_slice()) {
                out.insert(bucket_id, flags);
            }
        }
        i = i + 1;
    }
    assert(all.take(i as int) =~= all);
    out
}

/// A fragment put among others.
pub open spec fn with_fragment(
    fragments: Map<u64, Map<Seq<char>, Seq<char>>>,
    bucket_id: u64,
    key: Seq<char>,
    value: Seq<char>,
) -> Map<u64, Map<Seq<char>, Seq<char>>> {
    let bucket = if fragments.contains_key(bucket_id) {
        fragments[bucket_id]
    } else {
        Map::empty()
    };
    fragments.insert(bucket_id, bucket.insert(key, value))
}

/// The fragments among the entries, by bucket and key. An entry whose value is not JSON
/// counts for nothing; of two for one place the later counts.
pub open spec fn fragments_in(rows: Seq<(Seq<u8>, Seq<u8>)>) -> Map<u64, Map<Seq<char>, Seq<char>>>
    decreases rows.len(),
{
    if rows.len() == 0 {
        Map::empty()
    } else {
        let before = fragments_in(rows.drop_last());
        match (place_of_key(rows.last().0), json_text_of_bytes(rows.last().1)) {
            (Some((bucket_id, key)), Ok(value)) => with_fragment(before, bucket_id, key, value),
            _ => before,
        }
    }
}

// ---------------------------------------------------------------------------
// The store of a room
// ---------------------------------------------------------------------------

/// The store of a room: what is written to it and what is read from it.
pub struct RoomPersistence {
    pub room_id: u64,
}

impl RoomPersistence {
    pub fn member_list_key(&self) -> (r: String)
        ensures
            r@ == member_list_key_text(self.room_id),
    {
        let mut out: String = "/room/".to_string();
        push_decimal(&mut out, self.room_id);
        out.append("/members");
        out
    }

    pub fn bucket_list_key(&self) -> (r: String)
        ensures
            r@ == bucket_list_key_text(self.room_id),
    {
        let mut out: String = "/room/".to_string();
        push_decimal(&mut out, self.room_id);
        out.append("/buckets");
        out
    }

    /// The change that keeps the value of a fragment, or drops it where there is none.
    pub fn persist_fragment(&self, container: &str, key: &str, value: Option<&Value>) -> (r: StoreWrite)
        ensures
            writes_fragment(r, container@, key@, optional_value(value)),
    {
        let value: Option<Vec<u8>> = match value {
            Some(v) => Some(bytes_of(v.text())),
            None => None,
        };
        StoreWrite { key: fragment_key(container, key), value }
    }

    /// The change that keeps the flags of a bucket.
    pub fn persist_bucket_flags(&self, bucket_id: u64, flags: u32) -> (r: StoreWrite)
        ensures
            r.key@ == meta_key_text(bucket_id),
            match r.value {
                Some(bytes) => bytes@ == vstd::bytes::spec_u32_to_le_bytes(flags),
                None => false,
            },
    {
        StoreWrite { key: meta_key(bucket_id), value: Some(vstd::bytes::u32_to_le_bytes(flags)) }
    }

    /// The change that drops the flags of a bucket.
    pub fn remove_bucket_metadata(&self, bucket_id: u64) -> (r: StoreWrite)
        ensures
            r.key@ == meta_key_text(bucket_id),
            r.value is None,
    {
        StoreWrite { key: meta_key(bucket_id), value: None }
    }

    /// The change that keeps the members of a room.
    pub fn update_member_list(&self, members: &StrSet) -> (r: StoreWrite)
        ensures
            writes_members(r, self.room_id, members@),
    {
        let list: Vec<String> = members.sorted();
        let key: String = self.member_list_key();
        match encode_texts(list.as_slice()) {
            Ok(bytes) => {
                assert(lists(texts(list@), members@));
                StoreWrite { key, value: Some(bytes) }
            },
            Err(_) => StoreWrite { key, value: None },
        }
    }

    /// The change that adds a member to those of a room. A blank member changes nothing.
    pub fn persist_member(&self, stored: Option<&[u8]>, member: &str) -> (r: Result<
        Option<StoreWrite>,
        String,
    >)
        ensures
            trim(member@).len() == 0 ==> (r matches Ok(None)),
            trim(member@).len() > 0 ==> match members_in(stored_view(stored)) {
                Ok(members) => match r {
                    Ok(Some(write)) => writes_members(write, self.room_id, members.insert(trim(member@))),
                    _ => false,
                },
                Err(e) => match r {
                    Err(text) => text@ == e,
                    _ => false,
                },
            },
    {
        let member: String = trimmed_string(member);
        if member.as_str().is_empty() {
            return Ok(None);
        }
        match self.load_members(stored) {
            Ok(mut members) => {
                members.insert(member.as_str());
                Ok(Some(self.update_member_list(&members)))
            },
            Err(e) => Err(e),
        }
    }

    /// The change that takes a member out of those of a room.
    pub fn remove_member(&self, stored: Option<&[u8]>, member: &str) -> (r: Result<
        StoreWrite,
        String,
    >)
        ensures
            match members_in(stored_view(stored)) {
                Ok(members) => match r {
                    Ok(write) => writes_members(write, self.room_id, members.remove(member@)),
                    Err(_) => false,
                },
                Err(e) => match r {
                    Ok(_) => false,
                    Err(text) => text@ == e,
                },
            },
    {
        match self.load_members(stored) {
            Ok(mut members) => {
                members.remove(member);
                Ok(self.update_member_list(&members))
            },
            Err(e) => Err(e),
        }
    }

    /// Reads the members of a room from its stored list.
    pub fn load_members(&self, stored: Option<&[u8]>) -> (r: Result<StrSet, String>)
        ensures
            match r {
                Ok(members) => members_in(stored_view(stored)) == Ok::<Set<Seq<char>>, Seq<char>>(
                    members@,
                ),
                Err(e) => members_in(stored_view(stored)) == Err::<Set<Seq<char>>, Seq<char>>(e@),
            },
    {
        let mut members: StrSet = StrSet::new();
        let list: Vec<String> = match stored {
            None => {
                return Ok(members);
            },
            Some(bytes) => match decode_texts(bytes) {
                Ok(list) => list,
                Err(e) => {
                    return Err(unreadable_text(e.as_str()));
                },
            },
        };
        let mut i: usize = 0;
        let ghost all = texts(list@);
        assert(members@ =~= all.take(0).to_set());
        while i < list.len()
            invariant
                i <= list@.len(),
                all == texts(list@),
                members@ == all.take(i as int).to_set(),
            decreases list@.len() - i,
        {
            members.insert(list[i].as_str());
            proof {
                lemma_take_one_more(all, i as int);
            }
            i = i + 1;
        }
        assert(all.take(i as int) =~= all);
        Ok(members)
    }

    /// The buckets with a record among the entries, in order.
    pub fn collect_bucket_ids(&self, entries: &[StoreEntry]) -> (r: Vec<u64>)
        ensures
            in_order(r@),
            r@.to_multiset() == buckets_in(rows(entries@)).to_multiset(),
    {
        let mut out: Vec<u64> = Vec::new();
        let mut i: usize = 0;
        let ghost all = rows(entries@);
        assert(all.take(0) =~= Seq::<(Seq<u8>, Seq<u8>)>::empty());
        assert(out@ =~= buckets_in(all.take(0)));
        while i < entries.len()
            invariant
                i <= entries@.len(),
                all == rows(entries@),
                in_order(out@),
                out@.to_multiset() == buckets_in(all.take(i as int)).to_multiset(),
            decreases entries@.len() - i,
        {
            proof {
                broadcast use vstd::seq_lib::group_to_multiset_ensures;

                assert(all.take(i + 1).drop_last() =~= all.take(i as int));
            }
            if let Some(bucket_id) = bucket_id_of_key(entries[i].key.as_slice()) {
                insert_in_order(&mut out, bucket_id);
            }
            i = i + 1;
        }
        assert(all.take(i as int) =~= all);
        out
    }

    /// The change that keeps the list of a room's buckets, as a scan brings them.
    pub fn update_bucket_list(&self, entries: &[StoreEntry]) -> (r: StoreWrite)
        ensures
            writes_buckets(r, self.room_id, buckets_in(rows(entries@))),
    {
        let ids: Vec<u64> = self.collect_bucket_ids(entries);
        let key: String = self.bucket_list_key();
        match encode_ids(ids.as_slice()) {
            Ok(bytes) => {
                assert(sorts(ids@, buckets_in(rows(entries@))));
                StoreWrite { key, value: Some(bytes) }
            },
            Err(_) => StoreWrite { key, value: None },
        }
    }

    /// The buckets of a room, from the stored list or, where none is stored, from a scan.
    pub fn load_bucket_list(&self, stored: Option<&[u8]>, entries: &[StoreEntry]) -> (r: Result<
        Vec<u64>,
        String,
    >)
        ensures
            match stored {
                Some(bytes) => match r {
                    Ok(ids) => ids_of_json(bytes@) == Ok::<Seq<u64>, Seq<char>>(ids@),
                    Err(text) => match ids_of_json(bytes@) {
                        Ok(_) => false,
                        Err(e) => text@ == unreadable(e),
                    },
                },
                None => match r {
                    Ok(ids) => sorts(ids@, buckets_in(rows(entries@))),
                    Err(_) => false,
                },
            },
    {
        match stored {
            Some(bytes) => match decode_ids(bytes) {
                Ok(ids) => Ok(ids),
                Err(e) => Err(unreadable_text(e.as_str())),
            },
            None => Ok(self.collect_bucket_ids(entries)),
        }
    }

    /// The buckets that a stored list names, where it can be read.
    pub fn listed_buckets(&self, bytes: &[u8]) -> (r: Option<Vec<u64>>)
        ensures
            match r {
                Some(ids) => ids_of_json(bytes@) == Ok::<Seq<u64>, Seq<char>>(ids@),
                None => ids_of_json(bytes@) is Err,
            },
    {
        decode_ids(bytes).ok()
    }

    /// The flags of a room's buckets: from the records where there are any, else from the keys
    /// of their own.
    pub fn load_bucket_flags(&self, records: Option<&IdMap<BucketRecord>>, entries: &[StoreEntry]) -> (r: IdMap<
        u32,
    >)
        ensures
            r@ == match records {
                Some(records) => if records@ == Map::<u64, RecordView>::empty() {
                    meta_flags_in(rows(entries@))
                } else {
                    flags_of_records(records@)
                },
                None => meta_flags_in(rows(entries@)),
            },
    {
        if let Some(records) = records {
            if records.len() > 0 {
                return record_flags(records);
            }
            assert(records@ =~= Map::<u64, RecordView>::empty());
        }
        collect_meta_flags(entries)
    }

    /// Gathers the fragments of a room.
    pub fn load_all_fragments(&self, entries: &[StoreEntry]) -> (r: IdMap<StrMap<Value>>)
        ensures
            r@ == fragments_in(rows(entries@)),
    {
        let mut out: IdMap<StrMap<Value>> = IdMap::new();
        let mut i: usize = 0;
        let ghost all = rows(entries@);
        while i < entries.len()
            invariant
                i <= entries@.len(),
                all == rows(entries@),
                out@ == fragments_in(all.take(i as int)),
            decreases entries@.len() - i,
        {
            assert(all.take(i + 1).drop_last() =~= all.take(i as int));
            let ghost before = out@;
            if let Some((bucket_id, key)) = fragment_place(entries[i].key.as_slice()) {
                if let Ok(value) = Value::parse_bytes(entries[i].value.as_slice()) {
                    let mut bucket: StrMap<Value> = match out.remove(bucket_id) {
                        Some(bucket) => bucket,
                        None => StrMap::new(),
                    };
                    bucket.insert(key.as_str(), value);
                    out.insert(bucket_id, bucket);
                    assert(out@ =~= with_fragment(before, bucket_id, key@, value@));
                }
            }
            i = i + 1;
        }
        assert(all.take(i as int) =~= all);
        out
    }

    /// The key under which the record of a bucket is stored, and the record.
    pub fn persist_bucket(&self, bucket_id: u64, label: Option<&str>, flags: u32) -> (r: (
        String,
        BucketRecord,
    ))
        ensures
            r.0@ == bucket_key_text(bucket_id),
            r.1@ == (RecordView {
                id: bucket_id,
                label: match label {
                    Some(label) => Some(label@),
                    None => None,
                },
                flags,
            }),
    {
        let label: Option<String> = match label {
            Some(label) => Some(label.to_string()),
            None => None,
        };
        (bucket_key(bucket_id), BucketRecord { id: bucket_id, label, flags })
    }

    /// The change that drops the record of a bucket.
    pub fn remove_bucket(&self, bucket_id: u64) -> (r: StoreWrite)
        ensures
            r.key@ == bucket_key_text(bucket_id),
            r.value is None,
    {
        StoreWrite { key: bucket_key(bucket_id), value: None }
    }

    /// The key under which a fragment is stored.
    pub fn read_fragment(&self, container: &str, key: &str) -> (r: String)
        ensures
            r@ == fragment_key_text(container@, key@),
    {
        fragment_key(container, key)
    }

    /// The change that keeps the value of a fragment of a numbered bucket, or drops it where
    /// there is none.
    pub fn persist_bucket_fragment(&self, bucket_id: u64, key: &str, value: Option<&Value>) -> (r:
        StoreWrite)
        ensures
            writes_fragment(r, decimal(bucket_id as nat), key@, optional_value(value)),
    {
        let container: String = decimal_string(bucket_id);
        self.persist_fragment(container.as_str(), key, value)
    }
}

} // verus!
