//! What is kept of a room on disk. A map stands for the store of a room.

use std::collections::BTreeMap;
use syncpond::bucket_cache::{BucketCache, BUCKET_CACHE_CAPACITY};
use syncpond::collections::IdMap;
use syncpond::json::Value;
use syncpond::persistence::{
    bucket_id_of_key, bucket_key, fragment_key, fragment_place, meta_bucket_id_of_key, meta_key,
    parse_flags, room_dir, room_id_of_dir, BucketRecord, FoundRecord, RoomPersistence, StoreEntry,
    StoreWrite,
};

type Store = BTreeMap<Vec<u8>, Vec<u8>>;

fn apply(store: &mut Store, write: StoreWrite) {
    match write.value {
        Some(bytes) => {
            store.insert(write.key.into_bytes(), bytes);
        }
        None => {
            store.remove(write.key.as_bytes());
        }
    }
}

fn scan(store: &Store) -> Vec<StoreEntry> {
    store
        .iter()
        .map(|(key, value)| StoreEntry { key: key.clone(), value: value.clone() })
        .collect()
}

fn stored<'a>(store: &'a Store, key: &str) -> Option<&'a [u8]> {
    store.get(key.as_bytes()).map(|bytes| bytes.as_slice())
}

fn record(id: u64, label: Option<&str>, flags: u32) -> BucketRecord {
    BucketRecord { id, label: label.map(|l| l.to_string()), flags }
}

#[test]
fn test_persist_bucket_updates_room_bucket_list_key() {
    let room = RoomPersistence { room_id: 1 };
    let mut store = Store::new();

    let (key, rec) = room.persist_bucket(42, Some("foo"), 0);
    assert_eq!(rec.id, 42);
    assert_eq!(rec.label, Some("foo".to_string()));
    store.insert(key.into_bytes(), b"{\"id\":42,\"label\":\"foo\",\"flags\":0}".to_vec());
    let list = room.update_bucket_list(&scan(&store));
    apply(&mut store, list);

    let bucket_list =
        room.load_bucket_list(stored(&store, &room.bucket_list_key()), &scan(&store)).unwrap();
    assert_eq!(bucket_list, vec![42]);

    let bytes = stored(&store, &room.bucket_list_key()).unwrap();
    let ids: Vec<u64> = serde_json::from_slice(bytes).unwrap();
    assert_eq!(ids, vec![42]);
}

#[test]
fn keys_have_their_shapes() {
    let room = RoomPersistence { room_id: 12 };
    assert_eq!(fragment_key("public", "a:b"), "public:a:b");
    assert_eq!(room.read_fragment("0", "k"), "0:k");
    assert_eq!(meta_key(7), "meta:bucket:7");
    assert_eq!(bucket_key(7), "bucket:7");
    assert_eq!(room.bucket_list_key(), "/room/12/buckets");
    assert_eq!(room.member_list_key(), "/room/12/members");
    assert_eq!(room_dir(12), "room_12");
}

#[test]
fn keys_are_recognised() {
    assert_eq!(room_id_of_dir("room_12"), Some(12));
    assert_eq!(room_id_of_dir("room_"), None);
    assert_eq!(room_id_of_dir("lost+found"), None);
    assert_eq!(bucket_id_of_key(b"bucket:7"), Some(7));
    assert_eq!(bucket_id_of_key(b"bucket:x"), None);
    assert_eq!(bucket_id_of_key(b"meta:bucket:7"), None);
    assert_eq!(bucket_id_of_key(b"bucket:\xff"), None);
    assert_eq!(meta_bucket_id_of_key(b"meta:bucket:7"), Some(7));
    assert_eq!(meta_bucket_id_of_key(b"bucket:7"), None);
    assert_eq!(fragment_place(b"7:a:b"), Some((7, "a:b".to_string())));
    assert_eq!(fragment_place("7:\u{fc}".as_bytes()), Some((7, "\u{fc}".to_string())));
    assert_eq!(fragment_place(b"7:"), Some((7, String::new())));
    assert_eq!(fragment_place(b"7"), None);
    assert_eq!(fragment_place(b"public:a"), None);
    assert_eq!(fragment_place(b"bucket:7"), None);
    assert_eq!(fragment_place(b"/room/1/buckets"), None);
    assert_eq!(fragment_place(b"7:\xff"), None);
}

#[test]
fn fragments_are_brought_back() {
    let room = RoomPersistence { room_id: 1 };
    let mut store = Store::new();
    let value = Value::parse("{\"x\": \"\\u00fc\"}").unwrap();
    apply(&mut store, room.persist_bucket_fragment(7, "a:b", Some(&value)));
    apply(&mut store, room.persist_bucket_fragment(7, "c", Some(&Value::null())));
    apply(&mut store, room.persist_bucket_fragment(8, "d", Some(&value)));
    apply(&mut store, room.persist_bucket_fragment(8, "d", None));
    store.insert(b"9:bad".to_vec(), b"{".to_vec());
    store.insert(b"bucket:7".to_vec(), b"{}".to_vec());
    let fragments = room.load_all_fragments(&scan(&store));
    assert_eq!(fragments.keys(), vec![7]);
    let seven = fragments.get(7).unwrap();
    assert_eq!(seven.sorted_keys(), vec!["a:b".to_string(), "c".to_string()]);
    assert_eq!(seven.get("a:b").unwrap().text(), "{\"x\":\"\u{fc}\"}");
    let write = room.persist_fragment("public", "k", Some(&value));
    assert_eq!(write.key, "public:k");
    assert_eq!(write.value.unwrap(), "{\"x\":\"\u{fc}\"}".as_bytes());
}

#[test]
fn flags_are_read_back() {
    let room = RoomPersistence { room_id: 1 };
    let mut store = Store::new();
    apply(&mut store, room.persist_bucket_flags(5, 0x0102_0304));
    assert_eq!(stored(&store, "meta:bucket:5").unwrap(), &[4, 3, 2, 1]);
    store.insert(b"meta:bucket:6".to_vec(), b"17".to_vec());
    store.insert(b"meta:bucket:7".to_vec(), b"x".to_vec());
    let flags = room.load_bucket_flags(None, &scan(&store));
    assert_eq!(flags.keys(), vec![5, 6]);
    assert_eq!(flags.get(5), Some(&0x0102_0304));
    assert_eq!(flags.get(6), Some(&17));
    apply(&mut store, room.remove_bucket_metadata(5));
    assert_eq!(room.load_bucket_flags(None, &scan(&store)).keys(), vec![6]);

    let mut records: IdMap<BucketRecord> = IdMap::new();
    apply(&mut store, room.persist_bucket_flags(7, 5));
    let flags = room.load_bucket_flags(Some(&records), &scan(&store));
    assert_eq!(flags.keys(), vec![6, 7]);
    assert_eq!(flags.get(7), Some(&5));
    records.insert(1, record(1, None, 3));
    let flags = room.load_bucket_flags(Some(&records), &scan(&store));
    assert_eq!(flags.keys(), vec![1]);
    assert_eq!(flags.get(1), Some(&3));
}

#[test]
fn flags_may_be_decimal() {
    assert_eq!(parse_flags(b"4294967295"), Some(u32::MAX));
    assert_eq!(parse_flags(b"4294967296"), None);
    assert_eq!(parse_flags(b"1234"), Some(u32::from_le_bytes(*b"1234")));
    assert_eq!(parse_flags(b"+7"), Some(7));
    assert_eq!(parse_flags(b""), None);
    assert_eq!(parse_flags(&[0xff]), None);
}

#[test]
fn members_are_read_back() {
    let room = RoomPersistence { room_id: 1 };
    let mut store = Store::new();
    let key = room.member_list_key();
    for name in ["bob", " ann ", "bob", "c\"d"] {
        let write = room.persist_member(stored(&store, &key), name).unwrap().unwrap();
        apply(&mut store, write);
    }
    assert_eq!(stored(&store, &key).unwrap(), b"[\"ann\",\"bob\",\"c\\\"d\"]");
    let write = room.remove_member(stored(&store, &key), "bob").unwrap();
    apply(&mut store, write);
    let members = room.load_members(stored(&store, &key)).unwrap();
    assert_eq!(members.sorted(), vec!["ann".to_string(), "c\"d".to_string()]);
    assert_eq!(room.load_members(None).unwrap().len(), 0);
}

#[test]
fn blank_members_change_nothing_and_bad_lists_are_reported() {
    let room = RoomPersistence { room_id: 1 };
    assert!(room.persist_member(Some(b"bad"), "  ").unwrap().is_none());
    let error = room.persist_member(Some(b"bad"), "x").unwrap_err();
    assert!(error.starts_with("deserialize error: expected value"), "{error}");
    assert!(room.remove_member(Some(b"{}"), "x").is_err());
    let error = room.load_bucket_list(Some(b"[-1]"), &[]).unwrap_err();
    assert!(error.starts_with("deserialize error: invalid value"), "{error}");
    assert_eq!(room.listed_buckets(b"[2,1]"), Some(vec![2, 1]));
    assert_eq!(room.listed_buckets(b"x"), None);
}

#[test]
fn buckets_are_listed_by_a_scan() {
    let room = RoomPersistence { room_id: 1 };
    let mut store = Store::new();
    for key in ["bucket:10", "bucket:9", "bucket:+9", "7:bucket", "bucket:"] {
        store.insert(key.as_bytes().to_vec(), Vec::new());
    }
    assert_eq!(room.load_bucket_list(None, &scan(&store)), Ok(vec![9, 9, 10]));
    let gone = room.remove_bucket(9);
    assert_eq!(gone.key, "bucket:9");
    apply(&mut store, gone);
    assert_eq!(room.collect_bucket_ids(&scan(&store)), vec![9, 10]);
}

#[test]
fn records_are_kept_in_memory() {
    let room = RoomPersistence { room_id: 3 };
    let mut cache = BucketCache::new();
    assert!(cache.buckets(3).is_none());
    cache.note_saved(3, record(1, None, 0));
    assert!(cache.buckets(3).is_none());
    let found = [
        FoundRecord { bucket_id: 5, record: Some(record(5, Some("x"), 2)) },
        FoundRecord { bucket_id: 6, record: None },
        FoundRecord { bucket_id: 4, record: Some(record(4, None, 1)) },
    ];
    let loaded = room.load_buckets(&mut cache, &found);
    assert_eq!(loaded.keys(), vec![4, 5]);
    assert_eq!(cache.bucket_list(3), Some(vec![4, 5]));
    cache.note_saved(3, record(9, Some("y"), 7));
    cache.note_removed(3, 4);
    let kept = cache.buckets(3).unwrap();
    assert_eq!(kept.keys(), vec![5, 9]);
    assert_eq!(kept.get(9).unwrap().flags, 7);
    assert_eq!(kept.get(5).unwrap().label, Some("x".to_string()));
    assert_eq!(cache.bucket_list(4), None);
    cache.remove(3);
    assert!(cache.buckets(3).is_none());
}

#[test]
fn the_rooms_used_last_are_kept() {
    let mut cache = BucketCache::new();
    let full = BUCKET_CACHE_CAPACITY as u64;
    for room_id in 0..full {
        cache.note_loaded(room_id, &IdMap::new());
    }
    assert!(cache.get(0).is_some());
    cache.note_loaded(full, &IdMap::new());
    assert!(cache.get(0).is_some());
    assert!(cache.get(1).is_none());
    assert!(cache.get(2).is_some());
    assert!(cache.get(full).is_some());
}
