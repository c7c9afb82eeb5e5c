//! The state of the rooms.

use std::collections::HashSet;
use syncpond::json::Value;
use syncpond::kernel_state::{AppState, StateError};
use syncpond::state::Metrics;

fn json(text: &str) -> Value {
    Value::parse(text).unwrap()
}

/// The mean lifetime of the finished connections in milliseconds.
fn avg_latency_ms(m: &Metrics) -> f64 {
    if m.ws_connection_count > 0 {
        m.ws_connection_latency_ns_total as f64 / m.ws_connection_count as f64 / 1_000_000.0
    } else {
        0.0
    }
}


#[test]
fn mod_test_room_set_get_del() {
    let mut app = AppState::new();
    let room_id = app.create_room();

    assert_eq!(room_id, 1);
    assert_eq!(app.room_version(room_id).unwrap(), 0);

    app.set_fragment(room_id, 1, "foo".into(), json("\"bar\""))
        .unwrap();
    assert_eq!(app.room_version(room_id).unwrap(), 1);

    let (value, kv) = app.get_fragment(room_id, 1, "foo").unwrap();
    assert_eq!(value, json("\"bar\""));
    assert_eq!(kv, 1);

    app.del_fragment(room_id, 1, "foo".into()).unwrap();
    assert_eq!(app.room_version(room_id).unwrap(), 2);

    let err = app.get_fragment(room_id, 1, "foo").unwrap_err();
    assert!(matches!(err, StateError::FragmentTombstone));
}

#[test]
fn mod_test_tx_begin_end_abort() {
    let mut app = AppState::new();
    let room_id = app.create_room();

    app.tx_begin(room_id).unwrap();
    assert!(matches!(
        app.tx_begin(room_id),
        Err(StateError::TxAlreadyOpen)
    ));

    app.set_fragment(room_id, 1, "a".into(), json("1")).unwrap();
    app.del_fragment(room_id, 1, "missing".into()).unwrap();

    // not applied until tx_end
    let maybe = app.get_fragment(room_id, 1, "a");
    assert!(maybe.is_err());

    app.tx_end(room_id).unwrap();
    assert_eq!(app.room_version(room_id).unwrap(), 2);

    let (value, key_version) = app.get_fragment(room_id, 1, "a").unwrap();
    assert_eq!(value, json("1"));
    assert_eq!(key_version, 1);

    let err = app.get_fragment(room_id, 1, "missing").unwrap_err();
    assert!(matches!(err, StateError::FragmentTombstone));

    app.tx_begin(room_id).unwrap();
    app.set_fragment(room_id, 1, "a".into(), json("2")).unwrap();
    app.tx_abort(room_id).unwrap();

    let (value, kv) = app.get_fragment(room_id, 1, "a").unwrap();
    assert_eq!(value, json("1"));
    assert_eq!(kv, 1);
}

#[test]
fn mod_test_delete_room() {
    let mut app = AppState::new();
    let room_id = app.create_room();
    assert!(app.delete_room(room_id).is_ok());
    assert!(matches!(
        app.delete_room(room_id),
        Err(StateError::RoomNotFound)
    ));
}

#[test]
fn mod_test_create_room_token_jwt_key_too_short() {
    let mut app = AppState::new();
    app.set_jwt_key("short".to_string());
    app.set_jwt_issuer("issuer".to_string());
    app.set_jwt_audience("audience".to_string());

    let room_id = app.create_room();
    let err = app
        .create_room_token(room_id, "room:1", &[0u64])
        .unwrap_err();
    assert!(matches!(err, StateError::JwtKeyTooShort));
}

#[test]
fn mod_test_list_rooms_sorted() {
    let mut app = AppState::new();
    assert!(app.list_rooms().is_empty());

    let r1 = app.create_room();
    let r2 = app.create_room();
    let r3 = app.create_room();
    let rooms = app.list_rooms();
    assert_eq!(rooms, vec![r1, r2, r3]);

    app.delete_room(r2).unwrap();
    assert_eq!(app.list_rooms(), vec![r1, r3]);
}

#[test]
fn mod_test_room_info_ok_and_missing() {
    let mut app = AppState::new();
    let room_id = app.create_room();

    app.set_fragment(room_id, 0, "k1".into(), json("1")).unwrap();
    app.set_fragment(room_id, 0, "k2".into(), json("2")).unwrap();
    app.set_fragment(room_id, 1, "k3".into(), json("3")).unwrap();

    let info = app.room_info(room_id).unwrap();
    assert_eq!(info.room_id, room_id);
    assert_eq!(info.room_counter, 3u64);
    assert_eq!(info.container_count, 2usize);
    assert_eq!(info.fragment_count, 3);

    let err = app.room_info(999).unwrap_err();
    assert!(matches!(err, StateError::RoomNotFound));
}

#[test]
fn mod_test_metrics_fields() {
    let mut app = AppState::new();
    app.create_room();
    app.total_ws_connections = 3;
    app.ws_connection_count = 2;
    app.ws_connection_latency_ns_total = 2_000_000; // 1ms avg

    let m = app.metrics();
    assert_eq!(m.room_count, 1usize);
    assert_eq!(m.ws_connections, 3usize);
    assert_eq!(avg_latency_ms(&m), 1.0f64);
    assert_eq!(m.ws_connection_count, 2u64);
}

#[test]
fn mod_test_metrics_avg_latency_zero_when_no_connections() {
    let app = AppState::new();
    let m = app.metrics();
    assert_eq!(avg_latency_ms(&m), 0.0f64);
}

#[test]
fn mod_test_room_snapshot_filters_tombstones_and_containers() {
    let mut app = AppState::new();
    let room_id = app.create_room();

    app.set_fragment(room_id, 0, "a".into(), json("1")).unwrap();
    app.set_fragment(room_id, 0, "b".into(), json("2")).unwrap();
    app.del_fragment(room_id, 0, "a".into()).unwrap(); // tombstone

    app.set_fragment(room_id, 1, "s".into(), json("\"hidden\""))
        .unwrap();

    let allowed: HashSet<u64> = HashSet::new(); // only public
    let snap = app.room_snapshot(room_id, &allowed).unwrap();

    let buckets = &snap.buckets;
    assert_eq!(buckets.get("bucket_0").unwrap().get("b").unwrap(), &json("2"));
    assert!(
        buckets.get("bucket_0").unwrap().get("a").is_none(),
        "tombstoned key must be excluded"
    );
    assert!(
        buckets.get("bucket_1").is_none(),
        "disallowed bucket must be excluded"
    );

    // Non-existent room returns None
    assert!(app.room_snapshot(999, &allowed).is_none());
}

#[test]
fn mod_test_room_snapshot_allowed_extra_container() {
    let mut app = AppState::new();
    let room_id = app.create_room();
    app.set_fragment(room_id, 1, "x".into(), json("42")).unwrap();

    let mut allowed: HashSet<u64> = HashSet::new();
    allowed.insert(1u64);

    let snap = app.room_snapshot(room_id, &allowed).unwrap();
    assert_eq!(snap.buckets.get("bucket_1").unwrap().get("x").unwrap(), &json("42"));
}

#[test]
fn mod_test_room_delta_up_to_date_returns_empty() {
    let mut app = AppState::new();
    let room_id = app.create_room();
    app.set_fragment(room_id, 1, "k".into(), json("1")).unwrap();

    let allowed: HashSet<u64> = HashSet::new();
    let delta = app.room_delta(room_id, 1, &allowed).unwrap();
    let buckets = &delta.buckets;
    assert!(
        buckets.len() == 0,
        "delta since current version must be empty"
    );
}

#[test]
fn mod_test_room_delta_only_new_keys() {
    let mut app = AppState::new();
    let room_id = app.create_room();
    app.set_fragment(room_id, 0, "old".into(), json("1"))
        .unwrap(); // version 1
    app.set_fragment(room_id, 0, "new".into(), json("2"))
        .unwrap(); // version 2

    let allowed: HashSet<u64> = HashSet::new();
    // Ask for delta since version 1: should only see "new"
    let delta = app.room_delta(room_id, 1, &allowed).unwrap();
    let pub_container = delta.buckets.get("bucket_0").unwrap();
    assert_eq!(pub_container.get("new").unwrap(), &json("2"));
    assert!(pub_container.get("old").is_none());
}

#[test]
fn mod_test_room_delta_none_for_missing_room() {
    let app = AppState::new();
    let allowed: HashSet<u64> = HashSet::new();
    assert!(app.room_delta(999, 0, &allowed).is_none());
}

#[test]
fn mod_test_room_version_missing_room() {
    let app = AppState::new();
    assert!(matches!(
        app.room_version(42),
        Err(StateError::RoomNotFound)
    ));
}

#[test]
fn mod_test_get_fragment_missing_container() {
    let mut app = AppState::new();
    let room_id = app.create_room();
    let err = app.get_fragment(room_id, 99, "key").unwrap_err();
    assert!(matches!(err, StateError::BucketNotFound));
}

#[test]
fn mod_test_get_fragment_missing_key() {
    let mut app = AppState::new();
    let room_id = app.create_room();
    app.set_fragment(room_id, 0, "x".into(), json("1")).unwrap();
    let err = app.get_fragment(room_id, 0, "no_key").unwrap_err();
    assert!(matches!(err, StateError::FragmentNotFound));
}

#[test]
fn mod_test_del_fragment_missing_room() {
    let mut app = AppState::new();
    let err = app.del_fragment(99, 0, "k".into()).unwrap_err();
    assert!(matches!(err, StateError::RoomNotFound));
}

#[test]
fn mod_test_del_fragment_missing_container() {
    let mut app = AppState::new();
    let room_id = app.create_room();
    let err = app.del_fragment(room_id, 99, "k".into()).unwrap_err();
    assert!(matches!(err, StateError::BucketNotFound));
}

#[test]
fn mod_test_tx_not_open_errors() {
    let mut app = AppState::new();
    let room_id = app.create_room();

    assert!(matches!(app.tx_end(room_id), Err(StateError::TxNotOpen)));
    // Aborting without an open transaction is fine.
    assert!(app.tx_abort(room_id).is_ok());
}

#[test]
fn mod_test_set_command_api_key_success() {
    let mut app = AppState::new();
    app.set_command_api_key("a-valid-key".to_string()).unwrap();
    assert_eq!(app.command_api_key.as_deref(), Some("a-valid-key"));
}

#[test]
fn mod_test_set_command_api_key_blank() {
    let mut app = AppState::new();
    assert!(matches!(
        app.set_command_api_key("   ".to_string()),
        Err(StateError::CommandApiKeyInvalid)
    ));
}

#[test]
fn mod_test_create_room_token_no_jwt_key() {
    let mut app = AppState::new();
    app.set_jwt_issuer("iss".to_string());
    app.set_jwt_audience("aud".to_string());
    let room_id = app.create_room();
    let err = app.create_room_token(room_id, "room:1", &[]).unwrap_err();
    assert!(matches!(err, StateError::JwtKeyNotConfigured));
}

#[test]
fn mod_test_create_room_token_no_issuer_audience() {
    let mut app = AppState::new();
    app.set_jwt_key("a".repeat(32));
    let room_id = app.create_room();
    let err = app.create_room_token(room_id, "room:1", &[]).unwrap_err();
    assert!(matches!(err, StateError::JwtIssuerAudienceNotConfigured));
}

#[test]
fn mod_test_create_room_token_room_not_found() {
    let mut app = AppState::new();
    app.set_jwt_key("a".repeat(32));
    app.set_jwt_issuer("iss".to_string());
    app.set_jwt_audience("aud".to_string());
    let err = app.create_room_token(999, "room:1", &[]).unwrap_err();
    assert!(matches!(err, StateError::RoomNotFound));
}

#[test]
fn test_create_room_token_invalid_member() {
    let mut app = AppState::new();
    app.set_jwt_key("a_long_enough_secret_key_32bytes_+".to_string());
    app.set_jwt_issuer("syncpond".to_string());
    app.set_jwt_audience("client".to_string());
    let room_id = app.create_room();

    let err = app.create_room_token(room_id, "room:1", &[]).unwrap_err();
    assert!(matches!(err, StateError::InvalidMember));
}

#[test]
fn test_create_room_token_valid_member() {
    let mut app = AppState::new();
    app.set_jwt_key("a_long_enough_secret_key_32bytes_+".to_string());
    app.set_jwt_issuer("syncpond".to_string());
    app.set_jwt_audience("client".to_string());
    let room_id = app.create_room();
    app.add_member(room_id, "room:1".to_string()).unwrap();

    let token = app.create_room_token(room_id, "room:1", &[1u64]).unwrap();
    let parts: Vec<&str> = token.split('.').collect();
    assert_eq!(parts.len(), 3, "JWT must have 3 dot-separated parts");
}

#[test]
fn mod_test_create_room_token_success() {
    let mut app = AppState::new();
    app.set_jwt_key("a_long_enough_secret_key_32bytes_+".to_string());
    app.set_jwt_issuer("syncpond".to_string());
    app.set_jwt_audience("client".to_string());
    let room_id = app.create_room();
    app.add_member(room_id, "room:1".to_string()).unwrap();

    let token = app.create_room_token(room_id, "room:1", &[1u64]).unwrap();
    // JWT format: three base64url parts separated by '.'
    let parts: Vec<&str> = token.split('.').collect();
    assert_eq!(parts.len(), 3, "JWT must have 3 dot-separated parts");
}

#[test]
fn mod_test_create_room_token_monotone_timestamps() {
    // Two tokens issued back-to-back should have different (non-equal) timestamps.
    let mut app = AppState::new();
    app.set_jwt_key("a_long_enough_secret_key_32bytes_+".to_string());
    app.set_jwt_issuer("syncpond".to_string());
    app.set_jwt_audience("client".to_string());
    let room_id = app.create_room();
    app.add_member(room_id, "room:1".to_string()).unwrap();

    let t1 = app.create_room_token(room_id, "room:1", &[]).unwrap();
    let t2 = app.create_room_token(room_id, "room:1", &[]).unwrap();
    // Tokens may differ because the monotone clock bumps exp/iat
    assert_ne!(t1, t2, "successive tokens should differ in timestamp");
}

#[test]
fn mod_test_state_error_display() {
    let cases = vec![
        (StateError::RoomNotFound, "room_not_found"),
        (StateError::BucketNotFound, "bucket_not_found"),
        (StateError::FragmentNotFound, "not_found"),
        (StateError::FragmentTombstone, "tombstone"),
        (StateError::TxNotOpen, "tx_not_open"),
        (StateError::TxAlreadyOpen, "tx_already_open"),
        (StateError::JwtKeyNotConfigured, "jwt_key_not_configured"),
        (
            StateError::JwtIssuerAudienceNotConfigured,
            "jwt_issuer_audience_not_configured",
        ),
        (StateError::JwtKeyTooShort, "jwt_key_too_short"),
        (StateError::CommandApiKeyInvalid, "command_api_key_invalid"),
        (StateError::LabelNotFound, "label_not_found"),
        (StateError::LabelInUse, "label_in_use"),
        (StateError::LabelInvalid, "label_invalid"),
    ];
    for (err, expected) in cases {
        assert_eq!(err.to_text(), expected);
    }
}

#[test]
fn mod_test_set_jwt_config_helpers() {
    let mut app = AppState::new();
    app.set_jwt_key("mykey".to_string());
    app.set_jwt_ttl(7200);
    app.set_jwt_issuer("iss".to_string());
    app.set_jwt_audience("aud".to_string());
    assert_eq!(app.jwt_key.as_deref(), Some("mykey"));
    assert_eq!(app.jwt_ttl_seconds, 7200);
    assert_eq!(app.jwt_issuer.as_deref(), Some("iss"));
    assert_eq!(app.jwt_audience.as_deref(), Some("aud"));
}
