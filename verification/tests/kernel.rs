//! The kernel and the service in front of it.

use std::collections::HashSet;
use syncpond::commands::{
    CommandResponse, Commands, DownstreamMessage, UpdateChannelMessage,
};
use syncpond::hub::WsHub;
use syncpond::kernel::{PersistRequest, SyncpondKernel};
use syncpond::kernel_state::AppState;
use syncpond::rooms::FragmentFlags;
use syncpond::upstream::{
    check_api_key, failed_precondition, map_room_error, map_token_error, not_found, CommandHandler,
    CommandServer, StatusCode,
};

fn kernel() -> SyncpondKernel {
    SyncpondKernel::new(AppState::new())
}

fn server() -> CommandServer {
    CommandServer::new(kernel())
}

#[test]
fn rooms_are_made_and_closed() {
    let mut k = kernel();
    let made = k.handle_command(Commands::NewRoom(" lobby ".to_string()));
    assert!(matches!(made.response, CommandResponse::NewRoomResponse(1)));
    assert!(made.update.is_none() && made.persist.is_none());
    assert_eq!(k.state.get_room_label(1), Some("lobby".to_string()));
    let closed = k.handle_command(Commands::CloseRoom(1));
    assert!(matches!(closed.response, CommandResponse::CloseRoomResponse));
    assert!(k.state.list_rooms().is_empty());
    assert!(k.state.get_room_id_by_label("lobby").is_err());
    let again = k.handle_command(Commands::CloseRoom(1));
    assert!(matches!(again.response, CommandResponse::CloseRoomResponse));
    assert_eq!(k.delete_room(1), Err("room_not_found".to_string()));
    let next = k.handle_command(Commands::NewRoom("   ".to_string()));
    assert!(matches!(next.response, CommandResponse::NewRoomResponse(2)));
    assert_eq!(k.state.get_room_label(2), None);
}

#[test]
fn labels_in_use_are_not_taken_away() {
    let mut k = kernel();
    k.handle_command(Commands::NewRoom("lobby".to_string()));
    k.handle_command(Commands::NewRoom("lobby".to_string()));
    assert_eq!(k.state.get_room_id_by_label("lobby"), Ok(1));
    assert_eq!(k.state.get_room_label(2), None);
}

#[test]
fn buckets_are_made_and_kept() {
    let mut k = kernel();
    k.handle_command(Commands::NewRoom(String::new()));
    let made = k.handle_command(Commands::NewBucket(1, 5, " scores ".to_string()));
    match made.persist {
        Some(PersistRequest::SaveBucket { room_id: 1, record }) => {
            assert_eq!(record.id, 5);
            assert_eq!(record.label, Some("scores".to_string()));
            assert_eq!(record.flags, 0);
        }
        other => panic!("{other:?}"),
    }
    assert_eq!(k.state.get_bucket_label(1, 5), Some("scores".to_string()));
    assert_eq!(k.state.get_bucket_flags(1, 5), Ok(0));
    k.state.set_bucket_flags(1, 5, 9).unwrap();
    k.handle_command(Commands::NewBucket(1, 5, "  ".to_string()));
    assert_eq!(k.state.get_bucket_label(1, 5), Some("scores".to_string()));
    assert_eq!(k.state.get_bucket_flags(1, 5), Ok(9));
    let gone = k.handle_command(Commands::DeleteBucket(1, 5));
    assert!(matches!(
        gone.persist,
        Some(PersistRequest::RemoveBucket { room_id: 1, bucket_id: 5 })
    ));
    assert_eq!(k.state.get_bucket_label(1, 5), None);
    let missing = k.handle_command(Commands::NewBucket(9, 5, String::new()));
    assert!(matches!(missing.response, CommandResponse::NewBucketResponse));
    assert!(missing.persist.is_none());
}

#[test]
fn writes_are_read_back_told_and_kept() {
    let mut k = kernel();
    k.handle_command(Commands::NewRoom(String::new()));
    let written =
        k.handle_command(Commands::WriteFragment(1, 7, "k".to_string(), b"{\"a\": 1}".to_vec()));
    assert!(matches!(written.response, CommandResponse::FragmentWriteResponse));
    let update = written.update.unwrap();
    assert_eq!((update.bucket_id, update.key.as_str(), update.bucket_counter), (7, "k", 1));
    assert_eq!(update.value.unwrap().text(), "{\"a\":1}");
    match written.persist {
        Some(PersistRequest::SaveFragment { room_id: 1, bucket_id: 7, key, value }) => {
            assert_eq!((key.as_str(), value.text()), ("k", "{\"a\":1}"));
        }
        other => panic!("{other:?}"),
    }
    let read = k.handle_command(Commands::ReadFragment(1, 7, "k".to_string()));
    match read.response {
        CommandResponse::FragmentReadResponse(Some(bytes)) => assert_eq!(bytes, b"{\"a\":1}"),
        other => panic!("{other:?}"),
    }
    let read = k.handle_command(Commands::ReadFragment(1, 7, "x".to_string()));
    assert!(matches!(read.response, CommandResponse::FragmentReadResponse(None)));
}

#[test]
fn bytes_that_are_no_json_are_kept_as_text() {
    let mut s = server();
    s.new_room(String::new());
    s.write_fragment(1, 0, "k".to_string(), b"hello".to_vec()).unwrap();
    assert_eq!(s.read_fragment(1, 0, "k".to_string()), Ok(Some(b"\"hello\"".to_vec())));
    s.write_fragment(1, 0, "k".to_string(), vec![0xff, b'a']).unwrap();
    assert_eq!(
        s.read_fragment(1, 0, "k".to_string()),
        Ok(Some("\"\u{fffd}a\"".as_bytes().to_vec()))
    );
}

#[test]
fn nulls_delete() {
    let mut k = kernel();
    k.handle_command(Commands::NewRoom(String::new()));
    k.handle_command(Commands::WriteFragment(1, 0, "k".to_string(), b"1".to_vec()));
    let gone = k.handle_command(Commands::WriteFragment(1, 0, "k".to_string(), b" null".to_vec()));
    assert!(matches!(gone.persist, Some(PersistRequest::RemoveFragment { bucket_id: 0, .. })));
    assert_eq!(gone.update.unwrap().bucket_counter, 2);
    let read = k.handle_command(Commands::ReadFragment(1, 0, "k".to_string()));
    assert!(matches!(read.response, CommandResponse::FragmentReadResponse(None)));
}

#[test]
fn writes_to_rooms_that_are_not_there_are_told_without_a_version() {
    let mut k = kernel();
    let written = k.handle_command(Commands::WriteFragment(4, 0, "k".to_string(), b"1".to_vec()));
    assert_eq!(written.update.unwrap().bucket_counter, 0);
    assert!(k.state.list_rooms().is_empty());
}

#[test]
fn other_commands_are_acknowledged() {
    let mut k = kernel();
    let value = syncpond::json::Value::parse("1").unwrap();
    let message = k.handle_command(Commands::WsMessage(1, value));
    assert!(matches!(message.response, CommandResponse::WsMessageAck));
    let flags = k.handle_command(Commands::SetFragmentFlags(1, 2, FragmentFlags::from_bits(1)));
    assert!(matches!(flags.response, CommandResponse::SetFragmentFlagsResponse));
}

#[test]
fn clients_are_brought_up_to_date() {
    let mut k = kernel();
    k.handle_command(Commands::NewRoom(String::new()));
    for (bucket, key, data) in [(0, "a", "1"), (0, "b", "2"), (7, "c", "3"), (8, "d", "4")] {
        k.handle_command(Commands::WriteFragment(
            1,
            bucket,
            key.to_string(),
            data.as_bytes().to_vec(),
        ));
    }
    k.handle_command(Commands::WriteFragment(1, 0, "a".to_string(), b"null".to_vec()));
    let mut hub = WsHub::new();
    hub.add_client(1, 1, HashSet::from([0, 7])).unwrap();
    let updates = k.handle_client_connected(&hub, 1, &[0, 7]);
    let told: Vec<(u64, &str, &str, u64)> = updates
        .iter()
        .map(|u| {
            (u.bucket_id, u.key.as_str(), u.value.as_ref().unwrap().text(), u.bucket_counter)
        })
        .collect();
    assert_eq!(told, vec![(0, "b", "2", 2), (7, "c", "3", 3)]);
    assert!(k.handle_client_connected(&hub, 2, &[0, 7]).is_empty());
}

#[test]
fn clients_that_connect_are_answered() {
    let mut k = kernel();
    k.handle_command(Commands::NewRoom(String::new()));
    k.handle_command(Commands::WriteFragment(1, 7, "c".to_string(), b"3".to_vec()));
    let mut hub = WsHub::new();
    hub.add_client(4, 1, HashSet::from([7])).unwrap();
    let connected = DownstreamMessage::ClientConnected { conn_id: 4, requested_buckets: vec![7] };
    let replies = k.handle_downstream_message(&hub, connected);
    assert_eq!(replies.len(), 1);
    match &replies[0] {
        UpdateChannelMessage::Targeted { conn_id, msg } => {
            assert_eq!(*conn_id, 4);
            assert_eq!((msg.bucket_id, msg.key.as_str(), msg.bucket_counter), (7, "c", 1));
            assert_eq!(msg.value.as_ref().unwrap().text(), "3");
        }
        UpdateChannelMessage::Broadcast(_) => panic!("the update is for one connection"),
    }
    let gone = DownstreamMessage::ClientDisconnected { conn_id: 4 };
    assert!(k.handle_downstream_message(&hub, gone).is_empty());
    let sent = DownstreamMessage::WsMessage(1, b"hello".to_vec());
    assert!(k.handle_downstream_message(&hub, sent).is_empty());
    assert!(matches!(k.handle_ws_message(1, b"hello"), CommandResponse::WsMessageAck));
}

#[test]
fn the_service_lists_rooms_buckets_and_members() {
    let mut s = server();
    assert_eq!(s.new_room("lobby".to_string()), 1);
    assert_eq!(s.new_room(String::new()), 2);
    assert_eq!(s.list_rooms(), vec!["1:lobby".to_string(), "2:".to_string()]);
    s.new_bucket(1, 9, "nine".to_string()).unwrap();
    s.create_bucket(1, 3).unwrap();
    assert_eq!(s.list_buckets(1), vec!["3:".to_string(), "9:nine".to_string()]);
    assert!(s.list_buckets(5).is_empty());
    s.delete_bucket(1, 9).unwrap();
    assert_eq!(s.list_buckets(1), vec!["3:".to_string()]);
    s.new_member(1, " bob ".to_string()).unwrap();
    s.new_member(1, "ann".to_string()).unwrap();
    s.new_member(1, "  ".to_string()).unwrap();
    assert_eq!(s.list_members(1), vec!["ann".to_string(), "bob".to_string()]);
    s.delete_member(1, " bob".to_string()).unwrap();
    assert_eq!(s.list_members(1), vec!["ann".to_string()]);
    assert!(s.list_members(7).is_empty());
    assert_eq!(s.delete_room(1), Ok(()));
    assert_eq!(s.delete_room(1), Err("room_not_found".to_string()));
    let kernel = s.into_inner();
    assert_eq!(kernel.state.list_rooms(), vec![2]);
}

#[test]
fn the_service_queues_what_is_to_be_told_and_kept() {
    let mut s = server();
    s.new_room(String::new());
    s.new_bucket(1, 4, String::new()).unwrap();
    s.write_fragment(1, 4, "k".to_string(), b"1".to_vec()).unwrap();
    let requests = s.take_requests();
    assert!(matches!(requests[0], PersistRequest::SaveBucket { .. }));
    assert!(matches!(requests[1], PersistRequest::SaveFragment { .. }));
    assert_eq!(requests.len(), 2);
    assert!(s.take_requests().is_empty());
    assert_eq!(s.take_updates().len(), 1);
    assert!(s.take_updates().is_empty());
}

#[test]
fn the_service_sets_labels() {
    let mut s = server();
    s.new_room(String::new());
    assert_eq!(s.set_room_label(1, " a ".to_string()), Ok(()));
    assert_eq!(s.get_room_label(1), Some("a".to_string()));
    assert_eq!(s.set_room_label(2, "b".to_string()), Err("room_not_found".to_string()));
    assert_eq!(s.set_room_label(1, " ".to_string()), Err("label_invalid".to_string()));
    s.new_room(String::new());
    assert_eq!(s.set_room_label(2, "a".to_string()), Err("label_in_use".to_string()));
    assert_eq!(s.set_bucket_label(1, 3, "x".to_string()), Err("bucket_not_found".to_string()));
    s.create_bucket(1, 3).unwrap();
    assert_eq!(s.set_bucket_label(1, 3, "x".repeat(257)), Err("label_invalid".to_string()));
    assert_eq!(s.set_bucket_label(1, 3, "x".to_string()), Ok(()));
    assert_eq!(s.get_bucket_label(1, 3), Some("x".to_string()));
}

#[test]
fn the_service_issues_tokens() {
    let mut s = server();
    s.new_room(String::new());
    assert_eq!(
        s.issue_jwt(1, "ann".to_string(), vec![]),
        Err("jwt_key_not_configured".to_string())
    );
    s.kernel.state.set_jwt_key("k".repeat(32));
    s.kernel.state.set_jwt_issuer("i".to_string());
    s.kernel.state.set_jwt_audience("a".to_string());
    assert_eq!(s.issue_jwt(1, "ann".to_string(), vec![]), Err("invalid_member".to_string()));
    s.new_member(1, "ann".to_string()).unwrap();
    assert_eq!(s.issue_jwt(1, "ann".to_string(), vec![2]).unwrap().split('.').count(), 3);
}

#[test]
fn numbers_that_have_run_out_are_reported() {
    let mut s = server();
    s.kernel.state.next_room_id = u64::MAX;
    assert_eq!(s.new_room("x".to_string()), 0);
    assert!(s.list_rooms().is_empty());
    let mut s = server();
    s.new_room(String::new());
    let mut room = s.kernel.state.rooms.remove(1).unwrap();
    room.room_counter = u64::MAX;
    s.kernel.state.rooms.insert(1, room);
    assert_eq!(
        s.write_fragment(1, 0, "k".to_string(), b"1".to_vec()),
        Err("write_fragment_failed".to_string())
    );
}

#[test]
fn failures_have_their_codes() {
    let cases = [
        ("room_not_loaded", StatusCode::FailedPrecondition),
        ("room_not_found", StatusCode::NotFound),
        ("new_bucket_failed", StatusCode::Internal),
    ];
    for (text, code) in cases {
        let status = map_room_error(text);
        assert_eq!((status.code, status.message.as_str()), (code, text));
    }
    let cases = [
        ("room_not_found", StatusCode::NotFound),
        ("reserved_bucket_id", StatusCode::InvalidArgument),
        ("invalid_member", StatusCode::InvalidArgument),
        ("jwt_key_not_configured", StatusCode::FailedPrecondition),
        ("jwt_key_too_short", StatusCode::FailedPrecondition),
        ("jwt_issuer_audience_not_configured", StatusCode::FailedPrecondition),
        ("jwt_encode_failed", StatusCode::Internal),
    ];
    for (text, code) in cases {
        let status = map_token_error(text);
        assert_eq!((status.code, status.message.as_str()), (code, text));
    }
    assert_eq!(not_found("x").code, StatusCode::NotFound);
    assert_eq!(failed_precondition("x").code, StatusCode::FailedPrecondition);
}

#[test]
fn callers_need_the_key() {
    assert!(check_api_key(Some("secret"), Some("secret")).is_ok());
    let wrong = check_api_key(Some("secret"), Some("Secret")).unwrap_err();
    assert_eq!(wrong.code, StatusCode::Unauthenticated);
    assert_eq!(wrong.message, "invalid api key");
    assert_eq!(check_api_key(Some("secret"), Some("")).unwrap_err().message, "invalid api key");
    assert_eq!(check_api_key(Some("secret"), None).unwrap_err().message, "no api key provided");
    assert_eq!(check_api_key(None, Some("secret")).unwrap_err().message, "no api key provided");
}
