//! Rooms, permissions, signals, and the values of fragments.

use syncpond::commands::KernelSignal;
use syncpond::json::Value;
use syncpond::permissions::{ClientJwt, RoomClientIdentity, RoomPermissions};
use syncpond::rooms::{FragmentFlags, Room};

#[test]
fn flags_keep_their_bits() {
    assert_eq!(FragmentFlags::new().bits(), 0);
    assert_eq!(FragmentFlags::from_bits(0x8001).bits(), 0x8001);
    assert_eq!(FragmentFlags::PERSISTENT, 1);
}

#[test]
fn clients_and_buckets_are_listed_once() {
    let mut room = Room::new("lobby".to_string());
    room.add_client("a".to_string());
    room.add_client("a".to_string());
    room.add_client("b".to_string());
    assert_eq!(room.client_ids, vec!["a".to_string(), "b".to_string()]);
    room.remove_client(&"a".to_string());
    assert_eq!(room.client_ids, vec!["b".to_string()]);
    room.add_bucket("x".to_string());
    room.add_bucket("x".to_string());
    assert_eq!(room.buckets, vec!["x".to_string()]);
    room.remove_bucket(&"x".to_string());
    assert!(room.buckets.is_empty());
}

#[test]
fn only_members_subscribe() {
    let mut room = Room::new("lobby".to_string());
    room.subscribe_client_to_bucket("a".to_string(), "x".to_string());
    assert!(room.buckets.is_empty());
    room.add_client("a".to_string());
    room.subscribe_client_to_bucket("a".to_string(), "x".to_string());
    assert_eq!(room.buckets, vec!["x".to_string()]);
    room.unsubscribe_client_from_bucket(&"b".to_string(), &"x".to_string());
    assert_eq!(room.buckets, vec!["x".to_string()]);
    room.unsubscribe_client_from_bucket(&"a".to_string(), &"x".to_string());
    assert!(room.buckets.is_empty());
}

fn identity(id: &str, name: &str) -> RoomClientIdentity {
    RoomClientIdentity { id: id.to_string(), display_name: name.to_string() }
}

#[test]
fn identities_are_found_by_their_ids() {
    let mut known = RoomPermissions::new();
    known.add_identity(identity("a", "Ann"));
    known.add_identity(identity("a", "Anna"));
    known.add_identity(identity("b", "Bob"));
    assert_eq!(known.get_identity("a").unwrap().display_name, "Anna");
    assert!(known.get_identity("c").is_none());
    let jwt = |sub: &str| ClientJwt {
        exp: 0,
        iat: 0,
        nbf: 0,
        aud: String::new(),
        iss: String::new(),
        sub: sub.to_string(),
        room: String::new(),
        role: String::new(),
        has_command_queue: false,
    };
    assert!(known.verify_jwt(&jwt("b")));
    known.remove_identity("b");
    assert!(!known.verify_jwt(&jwt("b")));
}

#[test]
fn signals_name_room_and_client() {
    assert!(matches!(
        KernelSignal::ws_connected(3, 45),
        KernelSignal::Custom(text) if text == "ws_connected:3:45"
    ));
}

#[test]
fn values_are_compact() {
    assert_eq!(Value::parse(" { \"b\" : 1, \"a\" : [ true ] } ").unwrap().text(), "{\"a\":[true],\"b\":1}");
    assert_eq!(Value::parse("\"\\u000a\"").unwrap().text(), "\"\\n\"");
    assert!(Value::parse("nope").is_err());
    assert_eq!(Value::parse_bytes(b" 1 ").unwrap().text(), "1");
    assert!(Value::parse_bytes(&[0xff]).is_err());
    assert_eq!(Value::from_bytes(b"x y").text(), "\"x y\"");
    assert_eq!(Value::from_text("x\ty").text(), "\"x\\ty\"");
    assert_eq!(Value::string("q\"").text(), "\"q\\\"\"");
    assert!(Value::null().is_null());
    assert!(!Value::parse("\"null\"").unwrap().is_null());
    assert!(Value::parse("[1,2]") == Value::parse("[1, 2]"));
}
