//! What holds of the states as a whole, on concrete values.

use std::collections::HashSet;
use syncpond::collections::StrSet;
use syncpond::json::Value;
use syncpond::kernel_state;
use syncpond::persistence::{RoomPersistence, StoreEntry, StoreWrite};
use syncpond::protocol::{format_command, parse_command, Command};
use syncpond::state;

fn json(text: &str) -> Value {
    Value::parse(text).unwrap()
}

fn names(list: &[&str]) -> StrSet {
    let mut set = StrSet::new();
    for name in list {
        set.insert(name);
    }
    set
}

fn ids(list: &[u64]) -> HashSet<u64> {
    list.iter().copied().collect()
}

/// A room with one key in the public container.
fn room_with_key() -> (state::AppState, u64) {
    let mut app = state::AppState::new();
    let id = app.create_room();
    app.set_fragment(id, "public".into(), "k".into(), json("1")).unwrap();
    (app, id)
}

/// A room with one key in the public bucket.
fn kernel_room_with_key() -> (kernel_state::AppState, u64) {
    let mut app = kernel_state::AppState::new();
    let id = app.create_room();
    app.set_fragment(id, 0, "k".into(), json("1")).unwrap();
    (app, id)
}

#[test]
fn written_values_are_read_and_others_stay() {
    let (mut app, id) = room_with_key();
    let other = app.create_room();
    app.set_fragment(other, "public".into(), "k".into(), json("7")).unwrap();
    app.set_fragment(id, "public".into(), "l".into(), json("[2]")).unwrap();
    assert_eq!(app.get_fragment(id, "public", "l"), Ok((json("[2]"), 2)));
    assert_eq!(app.get_fragment(id, "public", "k"), Ok((json("1"), 1)));
    assert_eq!(app.get_fragment(other, "public", "k"), Ok((json("7"), 1)));
    app.set_fragment(id, "public".into(), "k".into(), json("null")).unwrap();
    assert_eq!(
        app.get_fragment(id, "public", "k"),
        Err(state::StateError::FragmentTombstone)
    );
    assert_eq!(app.room_version(id), Ok(3));
}

#[test]
fn transactions_show_nothing_until_they_end() {
    let (mut app, id) = room_with_key();
    app.tx_begin(id).unwrap();
    app.set_fragment(id, "public".into(), "k".into(), json("2")).unwrap();
    app.set_fragment(id, "x".into(), "n".into(), json("3")).unwrap();
    app.del_fragment(id, "nowhere".into(), "n".into()).unwrap();
    assert_eq!(app.get_fragment(id, "public", "k"), Ok((json("1"), 1)));
    assert_eq!(app.room_version(id), Ok(1));
    app.tx_end(id).unwrap();
    assert_eq!(app.get_fragment(id, "public", "k"), Ok((json("2"), 2)));
    assert_eq!(app.get_fragment(id, "x", "n"), Ok((json("3"), 3)));
    assert_eq!(
        app.get_fragment(id, "nowhere", "n"),
        Err(state::StateError::FragmentTombstone)
    );
    assert_eq!(app.room_version(id), Ok(4));
}

#[test]
fn aborted_transactions_leave_nothing() {
    let (mut app, id) = room_with_key();
    app.tx_begin(id).unwrap();
    app.del_fragment(id, "public".into(), "k".into()).unwrap();
    app.tx_abort(id).unwrap();
    assert_eq!(app.get_fragment(id, "public", "k"), Ok((json("1"), 1)));
    assert_eq!(app.tx_end(id), Err(state::StateError::TxNotOpen));
    app.del_fragment(id, "public".into(), "k".into()).unwrap();
    assert_eq!(app.room_version(id), Ok(2));

    let (mut app, id) = kernel_room_with_key();
    app.tx_begin(id).unwrap();
    app.del_fragment(id, 0, "k".into()).unwrap();
    app.tx_abort(id).unwrap();
    assert_eq!(app.get_fragment(id, 0, "k"), Ok((json("1"), 1)));
}

#[test]
fn deltas_bring_clients_up_to_date() {
    let (mut app, id) = room_with_key();
    app.set_fragment(id, "x".into(), "a".into(), json("1")).unwrap();
    app.set_fragment(id, "hidden".into(), "s".into(), json("1")).unwrap();
    let seen = app.room_version(id).unwrap();
    app.del_fragment(id, "public".into(), "k".into()).unwrap();
    app.set_fragment(id, "hidden".into(), "t".into(), json("1")).unwrap();
    let delta = app.room_delta(id, seen, &names(&["x"])).unwrap();
    assert_eq!(delta.room_counter, 5);
    assert_eq!(delta.containers.sorted_keys(), vec!["public".to_string()]);
    let public = delta.containers.get("public").unwrap();
    assert_eq!(public.sorted_keys(), vec!["k".to_string()]);
    assert!(public.get("k").unwrap().is_null());
    let now = app.room_delta(id, 5, &names(&["x"])).unwrap();
    assert_eq!(now.room_counter, 5);
    assert_eq!(now.containers.len(), 0);
    let all = app.room_snapshot(id, &names(&["x"])).unwrap();
    assert_eq!(all.containers.sorted_keys(), vec!["public".to_string(), "x".to_string()]);
    assert_eq!(all.containers.get("public").unwrap().len(), 0);
}

#[test]
fn rooms_that_are_busy_are_left_alone() {
    let (mut app, id) = room_with_key();
    app.set_io_locked(id, true).unwrap();
    let busy = state::StateError::RoomIoBusy;
    assert_eq!(app.set_fragment(id, "public".into(), "k".into(), json("2")), Err(busy));
    assert_eq!(app.del_fragment(id, "public".into(), "k".into()), Err(busy));
    assert_eq!(app.get_fragment(id, "public", "k").unwrap_err(), busy);
    assert_eq!(app.room_version(id), Err(busy));
    assert_eq!(app.tx_begin(id), Err(busy));
    app.set_jwt_key("k".repeat(32));
    app.set_jwt_issuer("i".into());
    app.set_jwt_audience("a".into());
    assert_eq!(app.create_room_token(id, &["public".to_string()]), Err(busy));
    assert_eq!(app.set_room_label(id, "lobby".into()), Err(busy));
    assert_eq!(app.delete_room(id), Err(busy));
    assert_eq!(app.list_rooms(), vec![id]);
    assert_eq!(busy.to_text(), "room_io_busy");
    app.set_io_locked(id, false).unwrap();
    assert_eq!(app.get_fragment(id, "public", "k"), Ok((json("1"), 1)));
    assert_eq!(app.set_io_locked(9, true), Err(state::StateError::RoomNotFound));
    assert_eq!(app.set_room_label(id, "lobby".into()), Ok(()));
    assert_eq!(app.delete_room(id), Ok(()));
}

#[test]
fn fragments_are_marked_as_written_to_disk() {
    let (mut app, id) = room_with_key();
    assert_eq!(app.get_fragment_persisted(id, "public", "k"), Ok(false));
    app.set_fragment_persisted(id, "public".into(), "k".into(), true).unwrap();
    assert_eq!(app.get_fragment_persisted(id, "public", "k"), Ok(true));
    assert_eq!(app.get_fragment(id, "public", "k"), Ok((json("1"), 1)));
    app.set_fragment(id, "public".into(), "k".into(), json("2")).unwrap();
    assert_eq!(app.get_fragment_persisted(id, "public", "k"), Ok(false));
    assert_eq!(
        app.set_fragment_persisted(id, "public".into(), "no".into(), true),
        Err(state::StateError::FragmentNotFound)
    );
    assert_eq!(
        app.get_fragment_persisted(id, "no", "k"),
        Err(state::StateError::ContainerNotFound)
    );
}

#[test]
fn labels_lead_to_one_room() {
    let mut app = state::AppState::new();
    let one = app.create_room();
    let two = app.create_room();
    app.set_room_label(one, "  lobby ".into()).unwrap();
    assert_eq!(app.get_room_id_by_label("lobby"), Ok(one));
    assert_eq!(app.set_room_label(two, "lobby".into()), Err(state::StateError::LabelInUse));
    assert_eq!(app.set_room_label(one, "lobby".into()), Ok(()));
    assert_eq!(app.set_room_label(one, "  ".into()), Err(state::StateError::LabelInvalid));
    assert_eq!(app.set_room_label(9, "x".into()), Err(state::StateError::RoomNotFound));
    assert_eq!(app.get_room_id_by_label("hall"), Err(state::StateError::LabelNotFound));
    app.delete_room(one).unwrap();
    assert_eq!(app.get_room_id_by_label("lobby"), Err(state::StateError::LabelNotFound));
    assert_eq!(app.set_room_label(two, "lobby".into()), Ok(()));
}

#[test]
fn buckets_have_labels_and_flags() {
    let (mut app, id) = kernel_room_with_key();
    let missing = kernel_state::StateError::BucketNotFound;
    app.set_bucket_label(id, 0, " main ".into()).unwrap();
    assert_eq!(app.get_bucket_label(id, 0), Some("main".to_string()));
    assert_eq!(app.get_bucket_label(id, 5), None);
    assert_eq!(app.set_bucket_label(id, 5, "x".into()), Err(missing));
    assert_eq!(
        app.set_bucket_label(id, 0, " ".into()),
        Err(kernel_state::StateError::LabelInvalid)
    );
    app.set_bucket_flags(id, 0, 0b0101).unwrap();
    app.set_bucket_flag_bit(id, 0, 0b0010, true).unwrap();
    assert_eq!(app.get_bucket_flags(id, 0), Ok(0b0111));
    app.set_bucket_flag_bit(id, 0, 0b0100, false).unwrap();
    assert_eq!(app.get_bucket_flags(id, 0), Ok(0b0011));
    assert_eq!(app.set_bucket_flags(id, 5, 1), Err(missing));
    assert_eq!(app.set_bucket_flag_bit(id, 5, 1, true), Err(missing));
}

#[test]
fn the_bucket_of_the_server_is_never_shown() {
    let (mut app, id) = kernel_room_with_key();
    let reserved = kernel_state::SERVER_ONLY_BUCKET_ID;
    app.set_fragment(id, reserved, "s".into(), json("1")).unwrap();
    app.set_fragment(id, 4, "n".into(), json("1")).unwrap();
    let snapshot = app.room_snapshot(id, &ids(&[4, reserved])).unwrap();
    assert_eq!(
        snapshot.buckets.sorted_keys(),
        vec!["bucket_0".to_string(), "bucket_4".to_string()]
    );
    let delta = app.room_delta(id, 1, &ids(&[4, reserved])).unwrap();
    assert_eq!(delta.room_counter, 3);
    assert_eq!(delta.buckets.sorted_keys(), vec!["bucket_4".to_string()]);
}

#[test]
fn members_are_listed_once_and_in_order() {
    let mut app = kernel_state::AppState::new();
    let id = app.create_room();
    app.add_member(id, " zoe ".into()).unwrap();
    app.add_member(id, "amy".into()).unwrap();
    app.add_member(id, "zoe".into()).unwrap();
    assert_eq!(app.list_members(id), Ok(vec!["amy".to_string(), "zoe".to_string()]));
    app.remove_member(id, "amy").unwrap();
    assert_eq!(app.list_members(id), Ok(vec!["zoe".to_string()]));
    assert_eq!(app.list_members(9), Err(kernel_state::StateError::RoomNotFound));
}

#[test]
fn every_error_has_its_text() {
    let errors = [
        (kernel_state::StateError::RoomNotFound, "room_not_found"),
        (kernel_state::StateError::FragmentNotFound, "not_found"),
        (kernel_state::StateError::FragmentTombstone, "tombstone"),
        (kernel_state::StateError::TxNotOpen, "tx_not_open"),
        (kernel_state::StateError::TxAlreadyOpen, "tx_already_open"),
        (kernel_state::StateError::LabelInUse, "label_in_use"),
        (kernel_state::StateError::LabelInvalid, "label_invalid"),
        (kernel_state::StateError::LabelNotFound, "label_not_found"),
    ];
    for (error, text) in errors {
        assert_eq!(error.to_text(), text);
    }
}

#[test]
fn json_is_read_back_as_it_is_written() {
    let texts = [
        "null",
        "true",
        "0",
        "-9223372036854775808",
        "18446744073709551615",
        "\"1.5e3 \\\" \\\\ \\n \u{fc}\"",
        "[]",
        "{}",
        "[1,[2,\"e\"],{\"a\":null}]",
        "{\"b\":1,\"a\":[true,false]}",
    ];
    for text in texts {
        let value = json(text);
        assert_eq!(json(value.text()), value);
        assert_eq!(Value::parse_bytes(value.text().as_bytes()), Ok(value));
    }
    let string = Value::string("tab\t and \"quotes\"");
    assert_eq!(json(string.text()), string);
    assert_eq!(string.text(), "\"tab\\t and \\\"quotes\\\"\"");
    let bytes = Value::byte_array(&[0, 9, 255]);
    assert_eq!(bytes.text(), "[0,9,255]");
    assert_eq!(json(bytes.text()), bytes);
    assert_eq!(Value::byte_array(&[]).text(), "[]");
    assert_eq!(Value::null().text(), "null");
    assert_eq!(json("null"), Value::null());
}

#[test]
fn commands_with_values_are_read_back() {
    let command = Command::SetValue {
        room_id: 3,
        container: "two words".to_string(),
        key: "1.5".to_string(),
        value: json("{\"x\": \"1.5\\n\"}"),
    };
    let line = format_command(&command);
    assert_eq!(line.lines().count(), 1);
    match parse_command(&line) {
        Ok(Command::SetValue { room_id, container, key, value }) => {
            assert_eq!(room_id, 3);
            assert_eq!(container, "two words");
            assert_eq!(key, "1.5");
            assert_eq!(value, json("{\"x\":\"1.5\\n\"}"));
        }
        _ => panic!("the command was not read back"),
    }
}

fn put(store: &mut Vec<StoreEntry>, write: StoreWrite) {
    let key = write.key.into_bytes();
    store.retain(|entry| entry.key != key);
    if let Some(value) = write.value {
        store.push(StoreEntry { key, value });
    }
}

#[test]
fn kept_fragments_are_brought_by_any_scan() {
    let room = RoomPersistence { room_id: 1 };
    let mut store = Vec::new();
    put(&mut store, room.persist_bucket_fragment(7, "k", Some(&json("\"old\""))));
    put(&mut store, room.persist_bucket_fragment(70, "k", Some(&json("[0]"))));
    put(&mut store, room.persist_bucket_fragment(7, "k", Some(&json("\"1.5\""))));
    put(&mut store, room.persist_bucket_fragment(7, ":k", Some(&json("2"))));
    for _ in 0..2 {
        let fragments = room.load_all_fragments(&store);
        assert_eq!(fragments.keys(), vec![7, 70]);
        let seven = fragments.get(7).unwrap();
        assert_eq!(seven.sorted_keys(), vec![":k".to_string(), "k".to_string()]);
        assert_eq!(seven.get("k"), Some(&json("\"1.5\"")));
        store.reverse();
    }
    put(&mut store, room.persist_bucket_fragment(7, "k", None));
    let fragments = room.load_all_fragments(&store);
    assert_eq!(fragments.get(7).unwrap().sorted_keys(), vec![":k".to_string()]);
    assert_eq!(fragments.get(70).unwrap().get("k"), Some(&json("[0]")));
}
