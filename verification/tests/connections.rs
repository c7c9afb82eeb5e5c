//! Connections, from the first frame to the end.

use std::collections::HashSet;
use syncpond::auth::{AuthMessage, Claims};
use syncpond::collections::StrSet;
use syncpond::commands::{Commands, DownstreamMessage};
use syncpond::connection::{check_origin, FirstFrame, Frame, Incoming};
use syncpond::json::Value;
use syncpond::loading::register_room;
use syncpond::{bucket_connection, downstream_auth, downstream_connection, room_connection};
use syncpond::{hub, kernel_state, room_hub, state};

const KEY: &str = "secretsecretsecretsecretsecretsecret";

fn message(typ: &str, jwt: &str) -> AuthMessage {
    AuthMessage { typ: typ.to_string(), jwt: jwt.to_string(), last_seen_counter: None }
}

fn claims(room: &str, containers: &[&str]) -> Claims {
    Claims {
        sub: format!("room:{room}"),
        room: room.to_string(),
        containers: Some(containers.iter().map(|c| c.to_string()).collect()),
        exp: u64::MAX,
    }
}

#[test]
fn origins_are_checked() {
    let allowed = vec!["https://a".to_string(), "https://b".to_string()];
    assert!(check_origin(&allowed, Some("https://b")).is_ok());
    let refusal = check_origin(&allowed, Some("https://c")).unwrap_err();
    assert_eq!((refusal.status, refusal.body.as_str()), (403, "origin_not_allowed: https://c"));
    let refusal = check_origin(&allowed, None).unwrap_err();
    assert_eq!((refusal.status, refusal.body.as_str()), (400, "missing_origin"));
    assert!(check_origin(&Vec::new(), None).is_ok());
}

#[test]
fn first_frames_are_read() {
    let mut app = state::AppState::new();
    let mut other = kernel_state::AppState::new();
    let cases = vec![
        (FirstFrame::NotText, "invalid_auth_message"),
        (FirstFrame::NotJson, "invalid_json"),
        (FirstFrame::Message(message("hello", "t")), "missing_auth"),
    ];
    for (frame, reason) in cases {
        let reply = room_connection::read_first_frame(&mut app, frame).unwrap_err();
        assert_eq!(reply, format!("{{\"reason\":\"{reason}\",\"type\":\"auth_error\"}}"));
    }
    assert_eq!(app.ws_auth_failure, 3);
    let good = FirstFrame::Message(message("auth", "token"));
    assert_eq!(room_connection::read_first_frame(&mut app, good), Ok("token".to_string()));
    assert_eq!(app.ws_auth_failure, 3);
    assert!(bucket_connection::read_first_frame(&mut other, FirstFrame::NotJson).is_err());
    assert_eq!(other.ws_auth_failure, 1);
}

#[test]
fn clients_with_tokens_are_let_into_rooms() {
    let mut app = state::AppState::new();
    app.set_jwt_key(KEY.to_string());
    app.set_jwt_issuer("i".to_string());
    app.set_jwt_audience("a".to_string());
    let room_id = app.create_room();
    for (container, key, value) in
        [("public", "b", "2"), ("public", "a", "1"), ("priv", "p", "3"), ("hidden", "h", "4")]
    {
        app.set_fragment(
            room_id,
            container.to_string(),
            key.to_string(),
            Value::parse(value).unwrap(),
        )
        .unwrap();
    }
    let token = app.create_room_token(room_id, &["priv".to_string()]).unwrap();
    match room_connection::open_connection(&mut app, &token) {
        room_connection::Opening::Accepted { room_id: id, allowed, reply } => {
            assert_eq!(id, room_id);
            assert_eq!(allowed.sorted(), vec!["priv".to_string(), "public".to_string()]);
            assert_eq!(
                reply,
                "{\"room_counter\":4,\"state\":{\"containers\":{\"priv\":{\"p\":3},\
                 \"public\":{\"a\":1,\"b\":2}},\"room_counter\":4},\"type\":\"auth_ok\"}"
            );
            let parsed: serde_json::Value = serde_json::from_str(&reply).unwrap();
            assert_eq!(parsed.to_string(), reply);
        }
        room_connection::Opening::Refused { reply } => panic!("{reply}"),
    }
    assert_eq!((app.ws_auth_success, app.ws_auth_failure), (1, 0));
    match room_connection::open_connection(&mut app, "x") {
        room_connection::Opening::Refused { reply } => assert_eq!(
            reply,
            "{\"detail\":\"invalid_jwt:InvalidToken\",\"reason\":\"invalid_jwt\",\
             \"type\":\"auth_error\"}"
        ),
        _ => panic!("accepted"),
    }
    assert_eq!((app.ws_auth_success, app.ws_auth_failure), (1, 1));
}

#[test]
fn claims_decide_on_the_room() {
    let mut app = state::AppState::new();
    let refused = |app: &mut state::AppState, claims: Result<Claims, String>| {
        match room_connection::admit_client(app, claims) {
            room_connection::Opening::Refused { reply } => reply,
            _ => panic!("accepted"),
        }
    };
    let reply = refused(&mut app, Ok(claims("x", &[])));
    assert_eq!(reply, "{\"reason\":\"invalid_room_claim\",\"type\":\"auth_error\"}");
    let reply = refused(&mut app, Ok(claims("1", &[])));
    assert_eq!(reply, "{\"reason\":\"room_not_found\",\"type\":\"auth_error\"}");
    assert_eq!(app.ws_auth_success, 2);
    app.create_room();
    match room_connection::admit_client(&mut app, Ok(claims("1", &["server_only", "x"]))) {
        room_connection::Opening::Accepted { allowed, .. } => {
            assert_eq!(allowed.sorted(), vec!["public".to_string(), "x".to_string()]);
        }
        _ => panic!("refused"),
    }
    app.set_io_locked(1, true).unwrap();
    let reply = refused(&mut app, Ok(claims("1", &[])));
    assert_eq!(reply, "{\"reason\":\"room_io_busy\",\"type\":\"auth_error\"}");
}

#[test]
fn clients_join_and_leave_rooms() {
    let mut app = state::AppState::new();
    let mut hub = room_hub::WsHub::new();
    room_connection::join(&mut app, &mut hub, "a", 1, StrSet::new()).unwrap();
    room_connection::join(&mut app, &mut hub, "b", 1, StrSet::new()).unwrap();
    assert_eq!(app.total_ws_connections, 2);
    room_connection::leave(&mut app, &mut hub, "a", 1, 500);
    assert_eq!(app.total_ws_connections, 1);
    assert_eq!(app.ws_connection_count, 1);
    assert_eq!(app.ws_connection_latency_ns_total, 500);
    room_connection::leave(&mut app, &mut hub, "b", 1, u128::MAX);
    room_connection::leave(&mut app, &mut hub, "b", 1, 1);
    assert_eq!(app.total_ws_connections, 0);
    assert_eq!(app.ws_connection_latency_ns_total, u128::MAX);
    for i in 0..room_hub::MAX_WS_CLIENTS_PER_ROOM {
        room_connection::join(&mut app, &mut hub, &i.to_string(), 1, StrSet::new()).unwrap();
    }
    let reply = room_connection::join(&mut app, &mut hub, "x", 1, StrSet::new()).unwrap_err();
    assert_eq!(reply, "{\"reason\":\"room_client_limit_exceeded\",\"type\":\"auth_error\"}");
    room_connection::note_send_error(&mut app);
    assert_eq!(app.ws_send_errors, 1);
    room_connection::note_broadcast(&mut app, 2, 3);
    assert_eq!((app.ws_update_rate_limited, app.ws_update_dropped), (2, 3));
}

#[test]
fn clients_of_rooms_have_nothing_to_say() {
    assert!(matches!(
        room_connection::on_incoming(Incoming::Frame(Frame::Ping(vec![1]))),
        room_connection::StreamAction::SendPong(payload) if payload == vec![1]
    ));
    assert!(matches!(room_connection::on_incoming(Incoming::Frame(Frame::Pong)), room_connection::StreamAction::Ignore));
    assert!(matches!(room_connection::on_incoming(Incoming::Frame(Frame::Close)), room_connection::StreamAction::Close));
    for frame in [Frame::Text("x".to_string()), Frame::Binary(vec![])] {
        match room_connection::on_incoming(Incoming::Frame(frame)) {
            room_connection::StreamAction::Refuse(reply) => assert_eq!(
                reply,
                "{\"reason\":\"unexpected_message_after_auth\",\"type\":\"auth_error\"}"
            ),
            other => panic!("{other:?}"),
        }
    }
    assert!(matches!(room_connection::on_incoming(Incoming::Failed), room_connection::StreamAction::Stop));
    assert!(matches!(room_connection::on_incoming(Incoming::Ended), room_connection::StreamAction::Stop));
}

fn kernel_app() -> kernel_state::AppState {
    let mut app = kernel_state::AppState::new();
    let room_id = app.create_room();
    for (bucket, key) in [(0, "a"), (5, "b"), (6, "c"), (7, "d")] {
        app.set_fragment(room_id, bucket, key.to_string(), Value::parse("1").unwrap()).unwrap();
    }
    app.set_bucket_label(room_id, 6, "six".to_string()).unwrap();
    app.set_bucket_label(room_id, 7, "six".to_string()).unwrap();
    app
}

#[test]
fn containers_stand_for_buckets() {
    let mut app = kernel_app();
    match bucket_connection::admit_client(&mut app, Ok(claims("1", &["bucket_5", "six", "none"]))) {
        bucket_connection::Opening::Accepted { room_id, allowed, reply } => {
            assert_eq!(room_id, 1);
            assert_eq!(allowed, HashSet::from([0, 5, 6]));
            assert_eq!(
                reply,
                "{\"room_counter\":4,\"state\":{\"buckets\":{\"bucket_0\":{\"a\":1},\
                 \"bucket_5\":{\"b\":1},\"bucket_6\":{\"c\":1}},\"room_counter\":4},\
                 \"type\":\"auth_ok\"}"
            );
        }
        _ => panic!("refused"),
    }
    match bucket_connection::admit_client(&mut app, Ok(claims("2", &[]))) {
        bucket_connection::Opening::Refused { reply } => {
            assert_eq!(reply, "{\"reason\":\"room_not_found\",\"type\":\"auth_error\"}");
        }
        _ => panic!("accepted"),
    }
    match bucket_connection::open_connection(&mut app, "token") {
        bucket_connection::Opening::Refused { reply } => assert_eq!(
            reply,
            "{\"detail\":\"no_jwt_key\",\"reason\":\"invalid_jwt\",\"type\":\"auth_error\"}"
        ),
        _ => panic!("accepted"),
    }
    assert_eq!((app.ws_auth_success, app.ws_auth_failure), (2, 1));
}

#[test]
fn the_server_only_bucket_is_never_granted() {
    let reserved = kernel_state::SERVER_ONLY_BUCKET_ID;
    let mut app = kernel_app();
    let value = Value::parse("1").unwrap();
    app.set_fragment(1, reserved, "k".to_string(), value).unwrap();
    app.set_bucket_label(1, reserved, "inner".to_string()).unwrap();
    let granted = claims("1", &["bucket_18446744073709551615", "inner", "bucket_5"]);
    let mut hub = hub::WsHub::new();
    match bucket_connection::admit_client(&mut app, Ok(granted)) {
        bucket_connection::Opening::Accepted { room_id, allowed, .. } => {
            assert_eq!(allowed, HashSet::from([0, 5]));
            bucket_connection::join(&mut app, &mut hub, room_id, allowed).unwrap();
        }
        _ => panic!("refused"),
    }
    assert!(hub.recipients(reserved).is_empty());
    assert_eq!(hub.recipients(5), vec![1]);
}

#[test]
fn clients_of_buckets_join_talk_and_leave() {
    let mut app = kernel_app();
    let mut hub = hub::WsHub::new();
    let conn = bucket_connection::join(&mut app, &mut hub, 1, HashSet::from([0])).unwrap();
    assert_eq!(conn, 1);
    assert_eq!(hub.recipients(0), vec![1]);
    assert_eq!(app.total_ws_connections, 1);
    let forwarded = |frame| match bucket_connection::on_incoming(Incoming::Frame(frame)) {
        bucket_connection::StreamAction::Forward(value) => value.text().to_string(),
        other => panic!("{other:?}"),
    };
    assert_eq!(forwarded(Frame::Text("{ \"a\":1 }".to_string())), "{\"a\":1}");
    assert_eq!(forwarded(Frame::Text("hi \"x\"".to_string())), "\"hi \\\"x\\\"\"");
    assert_eq!(forwarded(Frame::Binary(vec![1, 20, 255])), "[1,20,255]");
    assert_eq!(forwarded(Frame::Binary(vec![])), "[]");
    let value = Value::parse("1").unwrap();
    assert!(matches!(
        bucket_connection::client_command(&hub, 1, value.clone()),
        Some(Commands::WsMessage(1, _))
    ));
    assert!(bucket_connection::client_command(&hub, 2, value).is_none());
    bucket_connection::note_send_error(&mut app);
    assert_eq!(app.ws_send_errors, 1);
    bucket_connection::leave(&mut app, &mut hub, 1, 7);
    assert!(hub.recipients(0).is_empty());
    assert_eq!(app.ws_connection_latency_ns_total, 7);
}

#[test]
fn the_first_message_is_waited_for() {
    let refused = |incoming| match downstream_connection::on_first(incoming) {
        downstream_connection::FirstAction::Refuse(reply) => reply,
        other => panic!("{other:?}"),
    };
    assert!(matches!(
        downstream_connection::on_first(downstream_connection::FirstIncoming::Text(Some(message("auth", "t")))),
        downstream_connection::FirstAction::Check(jwt) if jwt == "t"
    ));
    assert!(matches!(downstream_connection::on_first(downstream_connection::FirstIncoming::Ping(vec![])), downstream_connection::FirstAction::SendPong(_)));
    assert!(matches!(downstream_connection::on_first(downstream_connection::FirstIncoming::Failed), downstream_connection::FirstAction::Fail));
    assert!(matches!(downstream_connection::on_first(downstream_connection::FirstIncoming::Ended), downstream_connection::FirstAction::Stop));
    assert_eq!(
        refused(downstream_connection::FirstIncoming::Text(Some(message("x", "t")))),
        "{\"reason\":\"expected_auth_type\",\"type\":\"auth_error\"}"
    );
    assert_eq!(
        refused(downstream_connection::FirstIncoming::Text(None)),
        "{\"reason\":\"invalid_auth_frame\",\"type\":\"auth_error\"}"
    );
    assert_eq!(
        refused(downstream_connection::FirstIncoming::Other),
        "{\"reason\":\"expected_text_auth_frame\",\"type\":\"auth_error\"}"
    );
}

#[test]
fn clients_with_bucket_tokens_are_let_in() {
    let reserved = kernel_state::SERVER_ONLY_BUCKET_ID;
    let mut app = kernel_app();
    app.set_jwt_key(KEY.to_string());
    app.set_jwt_issuer("i".to_string());
    app.set_jwt_audience("a".to_string());
    app.add_member(1, "ann".to_string()).unwrap();
    let token = app.create_room_token(1, "ann", &[5]).unwrap();
    let config = downstream_auth::AuthConfig::from_values(
        KEY.to_string(),
        "i".to_string(),
        "a".to_string(),
    )
    .unwrap();
    let mut hub = hub::WsHub::new();
    match downstream_connection::open_connection(&app, &config, &token, reserved) {
        downstream_connection::Opening::Accepted { room_id, allowed, reply } => {
            assert_eq!((room_id, &allowed), (1, &HashSet::from([0, 5])));
            assert_eq!(
                reply,
                "{\"room_counter\":4,\"state\":{\"buckets\":{\"bucket_0\":{\"a\":1},\
                 \"bucket_5\":{\"b\":1}},\"room_counter\":4},\"type\":\"auth_ok\"}"
            );
            let (conn, told) = downstream_connection::join(&mut hub, room_id, allowed).unwrap();
            assert_eq!(conn, 1);
            assert!(matches!(
                told,
                DownstreamMessage::ClientConnected { conn_id: 1, requested_buckets }
                    if requested_buckets == vec![0, 5]
            ));
        }
        downstream_connection::Opening::Refused { reply } => panic!("{reply}"),
    }
    assert!(matches!(
        downstream_connection::client_message(&hub, 1, vec![1]),
        Some(DownstreamMessage::WsMessage(1, bytes)) if bytes == vec![1]
    ));
    assert!(matches!(
        downstream_connection::leave(&mut hub, 1),
        DownstreamMessage::ClientDisconnected { conn_id: 1 }
    ));
    assert!(downstream_connection::client_message(&hub, 1, vec![1]).is_none());
}

#[test]
fn bucket_claims_decide() {
    let reserved = 9;
    let claims = |room_id, buckets| downstream_auth::Claims {
        sub: "s".to_string(),
        room_id,
        buckets,
        exp: 1,
    };
    let mut app = kernel_app();
    register_room(&mut app, 3);
    let good = Ok(claims(Some(1), Some(vec![9, 4])));
    match downstream_connection::admit_client(&app, good, reserved) {
        downstream_connection::Opening::Accepted { room_id, allowed, .. } => {
            assert_eq!((room_id, allowed), (1, HashSet::from([0, 4])));
        }
        _ => panic!("refused"),
    }
    match downstream_connection::admit_client(&app, Ok(claims(Some(2), Some(vec![4]))), reserved) {
        downstream_connection::Opening::Accepted { room_id, allowed, reply } => {
            assert_eq!((room_id, allowed), (2, HashSet::from([0, 4])));
            assert_eq!(reply, "{\"room_counter\":0,\"state\":{},\"type\":\"auth_ok\"}");
        }
        downstream_connection::Opening::Refused { reply } => panic!("{reply}"),
    }
    match downstream_connection::admit_client(&app, Ok(claims(Some(3), None)), reserved) {
        downstream_connection::Opening::Refused { reply } => {
            assert_eq!(reply, "{\"reason\":\"room_not_loaded\",\"type\":\"auth_error\"}");
        }
        _ => panic!("accepted"),
    }
    for room_id in [None, Some(0)] {
        match downstream_connection::admit_client(&app, Ok(claims(room_id, None)), reserved) {
            downstream_connection::Opening::Refused { reply } => assert_eq!(
                reply,
                "{\"reason\":\"invalid_jwt_missing_room_id\",\"type\":\"auth_error\"}"
            ),
            _ => panic!("accepted"),
        }
    }
    match downstream_connection::admit_client(&app, Err("expired_jwt".to_string()), reserved) {
        downstream_connection::Opening::Refused { reply } => assert_eq!(
            reply,
            "{\"detail\":\"expired_jwt\",\"reason\":\"invalid_jwt\",\"type\":\"auth_error\"}"
        ),
        _ => panic!("accepted"),
    }
}

#[test]
fn full_buckets_turn_clients_away() {
    let mut hub = hub::WsHub::new();
    for _ in 0..hub::MAX_WS_CLIENTS_PER_BUCKET {
        downstream_connection::join(&mut hub, 1, HashSet::from([0])).unwrap();
    }
    let reply = downstream_connection::join(&mut hub, 1, HashSet::from([0])).unwrap_err();
    assert_eq!(
        reply,
        "{\"detail\":\"bucket_client_limit_exceeded\",\"reason\":\"client_add_failed\",\
         \"type\":\"auth_error\"}"
    );
    let mut app = kernel_app();
    let reply = bucket_connection::join(&mut app, &mut hub, 1, HashSet::from([0])).unwrap_err();
    assert_eq!(reply, "{\"reason\":\"bucket_client_limit_exceeded\",\"type\":\"auth_error\"}");
    assert_eq!(app.total_ws_connections, 0);
}

#[test]
fn what_clients_send_goes_to_the_kernel_as_bytes() {
    match downstream_connection::on_incoming(Incoming::Frame(Frame::Text("\u{fc}".to_string()))) {
        downstream_connection::StreamAction::Forward(bytes) => assert_eq!(bytes, "\u{fc}".as_bytes()),
        other => panic!("{other:?}"),
    }
    assert!(matches!(
        downstream_connection::on_incoming(Incoming::Frame(Frame::Binary(vec![7]))),
        downstream_connection::StreamAction::Forward(bytes) if bytes == vec![7]
    ));
    assert!(matches!(downstream_connection::on_incoming(Incoming::Frame(Frame::Other)), downstream_connection::StreamAction::Ignore));
    assert!(matches!(downstream_connection::on_incoming(Incoming::Frame(Frame::Close)), downstream_connection::StreamAction::Close));
    assert!(matches!(downstream_connection::on_incoming(Incoming::Ended), downstream_connection::StreamAction::Stop));
}
