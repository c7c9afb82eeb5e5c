//! Rooms that are kept on disk: known, loaded and unloaded.

use std::collections::HashSet;
use syncpond::collections::{IdMap, StrMap, StrSet};
use syncpond::commands::{CommandResponse, Commands};
use syncpond::json::Value;
use syncpond::kernel::{PersistRequest, SyncpondKernel};
use syncpond::kernel_state::{AppState, StateError};
use syncpond::loading::{load_room, register_room, restore_buckets, unload_room, StoredRoom};
use syncpond::persistence::{BucketRecord, RoomPersistence, StoreEntry};
use syncpond::upstream::{map_room_error, CommandHandler, CommandServer, StatusCode};

fn json(text: &str) -> Value {
    Value::parse(text).unwrap()
}

fn records() -> IdMap<BucketRecord> {
    let mut records = IdMap::new();
    records.insert(4, BucketRecord { id: 4, label: Some("four".to_string()), flags: 3 });
    records.insert(5, BucketRecord { id: 5, label: None, flags: 0 });
    records
}

fn members() -> StrSet {
    let mut members = StrSet::new();
    members.insert("ann");
    members
}

fn fragments() -> IdMap<StrMap<Value>> {
    let mut four = StrMap::new();
    four.insert("b", json("2"));
    four.insert("a", json("{\"x\": 1}"));
    let mut six = StrMap::new();
    six.insert("c", json("null"));
    let mut fragments = IdMap::new();
    fragments.insert(6, six);
    fragments.insert(4, four);
    fragments
}

fn stored() -> StoredRoom {
    StoredRoom { records: records(), members: members(), fragments: fragments() }
}

#[test]
fn rooms_are_known_before_they_are_loaded() {
    let mut state = AppState::new();
    register_room(&mut state, 7);
    register_room(&mut state, 2);
    assert_eq!(state.list_rooms(), vec![2, 7]);
    let missing = StateError::RoomNotLoaded;
    assert_eq!(missing.to_text(), "room_not_loaded");
    assert_eq!(state.room_version(7), Err(missing));
    assert_eq!(state.get_fragment(7, 4, "a").unwrap_err(), missing);
    assert_eq!(state.set_fragment(7, 4, "a".to_string(), json("1")), Err(missing));
    assert_eq!(state.tx_begin(7), Err(missing));
    assert_eq!(state.list_members(7), Err(missing));
    assert_eq!(state.get_bucket_flags(7, 4), Err(missing));
    assert_eq!(state.room_info(7).unwrap_err(), missing);
    assert_eq!(state.create_room(), 8);
    assert_eq!(state.room_version(8), Ok(0));
}

#[test]
fn loaded_rooms_hold_what_is_kept() {
    let mut state = AppState::new();
    register_room(&mut state, 7);
    let other = state.create_room();
    state.set_fragment(other, 1, "o".to_string(), json("1")).unwrap();
    assert_eq!(load_room(&mut state, 7, &records(), members(), fragments()), Ok(()));
    assert_eq!(state.room_version(7), Ok(3));
    let (a, a_version) = state.get_fragment(7, 4, "a").unwrap();
    let (b, b_version) = state.get_fragment(7, 4, "b").unwrap();
    assert_eq!((a.text(), b.text()), ("{\"x\":1}", "2"));
    assert_eq!(state.get_fragment(7, 6, "c").unwrap_err(), StateError::FragmentTombstone);
    let versions = HashSet::from([a_version, b_version]);
    assert_eq!(versions.len(), 2);
    assert!(versions.iter().all(|v| (1..=3).contains(v)));
    assert_eq!(state.get_bucket_label(7, 4), Some("four".to_string()));
    assert_eq!(state.get_bucket_label(7, 5), None);
    assert_eq!(state.get_bucket_flags(7, 4), Ok(3));
    assert_eq!(state.room_info(7).unwrap().container_count, 3);
    assert_eq!(state.list_members(7), Ok(vec!["ann".to_string()]));
    assert_eq!(state.get_fragment(other, 1, "o").unwrap().1, 1);
    assert_eq!(
        load_room(&mut state, 9, &records(), members(), fragments()),
        Err(StateError::RoomNotFound)
    );
    assert_eq!(state.list_rooms(), vec![7, other]);
}

#[test]
fn loading_takes_the_place_of_what_is_there() {
    let mut state = AppState::new();
    let id = state.create_room();
    state.set_fragment(id, 4, "old".to_string(), json("1")).unwrap();
    state.add_member(id, "bob".to_string()).unwrap();
    load_room(&mut state, id, &records(), members(), fragments()).unwrap();
    assert_eq!(state.get_fragment(id, 4, "old").unwrap_err(), StateError::FragmentNotFound);
    assert_eq!(state.list_members(id), Ok(vec!["ann".to_string()]));
    assert_eq!(state.room_version(id), Ok(4));
    let delta = state.room_delta(id, 1, &HashSet::from([4])).unwrap();
    assert_eq!(delta.buckets.get("bucket_4").unwrap().len(), 2);
}

#[test]
fn unloaded_rooms_hold_nothing() {
    let mut state = AppState::new();
    let id = state.create_room();
    let other = state.create_room();
    state.set_fragment(id, 4, "k".to_string(), json("1")).unwrap();
    state.set_fragment(other, 4, "k".to_string(), json("1")).unwrap();
    assert_eq!(unload_room(&mut state, id), Ok(()));
    assert_eq!(state.get_fragment(id, 4, "k").unwrap_err(), StateError::RoomNotLoaded);
    assert_eq!(state.get_fragment(other, 4, "k").unwrap().1, 1);
    assert_eq!(unload_room(&mut state, 9), Err(StateError::RoomNotFound));
    load_room(&mut state, id, &IdMap::new(), StrSet::new(), IdMap::new()).unwrap();
    assert_eq!(state.get_fragment(id, 4, "k").unwrap_err(), StateError::BucketNotFound);
    assert_eq!(state.room_version(id), Ok(1));
}

#[test]
fn the_service_loads_and_unloads() {
    let mut state = AppState::new();
    register_room(&mut state, 1);
    let mut s = CommandServer::new(SyncpondKernel::new(state));
    let refused = || Err::<(), String>("room_not_loaded".to_string());
    let key = || "a".to_string();
    assert_eq!(s.read_fragment(1, 4, key()), Err("room_not_loaded".to_string()));
    assert_eq!(s.read_fragment(5, 4, key()), Err("room_not_loaded".to_string()));
    assert_eq!(map_room_error("room_not_loaded").code, StatusCode::FailedPrecondition);
    assert_eq!(s.write_fragment(1, 4, key(), b"1".to_vec()), refused());
    assert_eq!(s.new_bucket(1, 4, String::new()), refused());
    assert_eq!(s.create_bucket(1, 4), refused());
    assert_eq!(s.delete_bucket(1, 4), refused());
    assert_eq!(s.new_member(1, "bob".to_string()), refused());
    assert_eq!(s.delete_member(1, "bob".to_string()), refused());
    assert!(s.list_buckets(1).is_empty());
    assert!(s.take_updates().is_empty());
    assert!(s.take_requests().is_empty());
    assert_eq!(s.load_room(1, stored()), Ok(()));
    assert_eq!(s.read_fragment(1, 4, key()), Ok(Some(b"{\"x\":1}".to_vec())));
    assert_eq!(s.read_fragment(1, 4, "z".to_string()), Ok(None));
    assert_eq!(s.read_fragment(1, 9, key()), Ok(None));
    assert_eq!(s.read_fragment(1, 6, "c".to_string()), Ok(None));
    assert_eq!(s.list_members(1), vec!["ann".to_string()]);
    assert_eq!(s.unload_room(1), Ok(()));
    assert_eq!(s.read_fragment(1, 4, key()), Err("room_not_loaded".to_string()));
    assert_eq!(s.load_room(5, stored()), Err("room_not_found".to_string()));
    assert_eq!(s.unload_room(5), Err("room_not_found".to_string()));
    let mut room = s.kernel.state.rooms.remove(1).unwrap();
    room.room_counter = u64::MAX - 2;
    s.kernel.state.rooms.insert(1, room);
    assert_eq!(s.load_room(1, stored()), Err("load_room_failed".to_string()));
    let response = s.handle_command(Commands::UnloadRoom(1));
    assert!(matches!(response, CommandResponse::UnloadRoomResponse(Ok(()))));
}

#[test]
fn what_is_written_is_read_after_a_restart() {
    let mut s = CommandServer::new(SyncpondKernel::new(AppState::new()));
    let id = s.new_room(String::new());
    s.write_fragment(id, 7, "k:1".to_string(), b"[1, \"x\"]".to_vec()).unwrap();
    s.write_fragment(id, 7, "gone".to_string(), b"1".to_vec()).unwrap();
    s.write_fragment(id, 7, "gone".to_string(), b"null".to_vec()).unwrap();
    s.new_member(id, " ann ".to_string()).unwrap();
    s.new_member(id, "bob".to_string()).unwrap();
    s.delete_member(id, "bob".to_string()).unwrap();
    let room = RoomPersistence { room_id: id };
    let mut store: Vec<StoreEntry> = Vec::new();
    for request in s.take_requests() {
        let list = store
            .iter()
            .find(|entry| entry.key == room.member_list_key().into_bytes())
            .map(|entry| entry.value.clone());
        let write = match request {
            PersistRequest::SaveFragment { bucket_id, key, value, .. } => {
                room.persist_bucket_fragment(bucket_id, &key, Some(&value))
            }
            PersistRequest::RemoveFragment { bucket_id, key, .. } => {
                room.persist_bucket_fragment(bucket_id, &key, None)
            }
            PersistRequest::SaveMember { member, .. } => {
                room.persist_member(list.as_deref(), &member).unwrap().unwrap()
            }
            PersistRequest::RemoveMember { member, .. } => {
                room.remove_member(list.as_deref(), &member).unwrap()
            }
            other => panic!("{other:?}"),
        };
        let key = write.key.into_bytes();
        store.retain(|entry| entry.key != key);
        if let Some(value) = write.value {
            store.push(StoreEntry { key, value });
        }
    }
    let list = store.iter().find(|entry| entry.key == room.member_list_key().into_bytes());
    let kept = StoredRoom {
        records: IdMap::new(),
        members: room.load_members(list.map(|entry| entry.value.as_slice())).unwrap(),
        fragments: room.load_all_fragments(&store),
    };

    let mut state = AppState::new();
    register_room(&mut state, id);
    let mut s = CommandServer::new(SyncpondKernel::new(state));
    s.load_room(id, kept).unwrap();
    assert_eq!(s.read_fragment(id, 7, "k:1".to_string()), Ok(Some(b"[1,\"x\"]".to_vec())));
    assert_eq!(s.read_fragment(id, 7, "gone".to_string()), Ok(None));
    assert_eq!(s.list_members(id), vec!["ann".to_string()]);
}

#[test]
fn buckets_keep_what_is_in_them() {
    let mut state = AppState::new();
    let room_id = state.create_room();
    let value = syncpond::json::Value::parse("1").unwrap();
    state.set_fragment(room_id, 4, "k".to_string(), value).unwrap();
    state.set_bucket_label(room_id, 4, "old".to_string()).unwrap();
    let mut room = state.rooms.remove(room_id).unwrap();
    restore_buckets(&mut room, &records());
    state.rooms.insert(room_id, room);
    assert_eq!(state.get_fragment(room_id, 4, "k").unwrap().1, 1);
    assert_eq!(state.get_bucket_label(room_id, 4), Some("four".to_string()));
}
