//! The line protocol.

use syncpond::client::{auth_line, send_line};
use syncpond::json::Value;
use syncpond::protocol::{
    escape_token, format_command, format_response, format_token, needs_quote, parse_command,
    parse_response, Command, Response,
};

fn json(text: &str) -> Value {
    Value::parse(text).unwrap()
}

fn all_commands() -> Vec<(Command, &'static str)> {
    vec![
        (Command::RoomCreate, "ROOM.CREATE"),
        (Command::RoomDelete(7), "ROOM.DELETE 7"),
        (Command::RoomList, "ROOM.LIST"),
        (Command::RoomInfo(7), "ROOM.INFO 7"),
        (Command::RoomLabel(7, "my room".to_string()), "ROOM.LABEL 7 \"my room\""),
        (Command::RoomFind("lobby".to_string()), "ROOM.FIND lobby"),
        (
            Command::SetValue {
                room_id: 1,
                container: "public".to_string(),
                key: "k".to_string(),
                value: json("{\"a\": [1, 2]}"),
            },
            "SET 1 public k {\"a\":[1,2]}",
        ),
        (
            Command::Del { room_id: 1, container: "public".to_string(), key: "".to_string() },
            "DEL 1 public \"\"",
        ),
        (
            Command::Get { room_id: 1, container: "public".to_string(), key: "k".to_string() },
            "GET 1 public k",
        ),
        (
            Command::ServerSet { room_id: 1, key: "k".to_string(), value: json("null") },
            "SERVER.SET 1 k null",
        ),
        (Command::ServerDel { room_id: 1, key: "k".to_string() }, "SERVER.DEL 1 k"),
        (Command::ServerGet { room_id: 1, key: "k".to_string() }, "SERVER.GET 1 k"),
        (Command::Version(9), "VERSION 9"),
        (Command::SetJwtKey("a\"b\\c".to_string()), "SET.JWTKEY \"a\\\"b\\\\c\""),
        (Command::TxBegin(1), "TX.BEGIN 1"),
        (Command::TxEnd(1), "TX.END 1"),
        (Command::TxAbort(1), "TX.ABORT 1"),
        (
            Command::TokenGen {
                room_id: 1,
                containers: vec!["public".to_string(), "two words".to_string()],
            },
            "TOKEN.GEN 1 public \"two words\"",
        ),
        (Command::Save { room_id: 1 }, "SAVE 1"),
        (Command::Load { room_id: 1 }, "LOAD 1"),
        (
            Command::PersistSet { room_id: 1, container: "c".to_string(), key: "k".to_string() },
            "PERSIST.SET 1 c k",
        ),
        (
            Command::PersistUnset { room_id: 1, container: "c".to_string(), key: "k".to_string() },
            "PERSIST.UNSET 1 c k",
        ),
        (
            Command::PersistGet { room_id: 1, container: "c".to_string(), key: "k".to_string() },
            "PERSIST.GET 1 c k",
        ),
    ]
}

#[test]
fn commands_have_their_lines() {
    for (command, line) in all_commands() {
        assert_eq!(format_command(&command), line);
    }
}

#[test]
fn commands_are_read_back() {
    for (command, line) in all_commands() {
        assert_eq!(parse_command(line), Ok(command));
    }
}

#[test]
fn commands_with_odd_texts_are_read_back_from_one_line() {
    for text in ["", " ", "a b", "\"", "\\", "\n", "\r\n\t", "ü\u{2003}x", "\\n", "\"\"", "a\u{85}b"] {
        let command =
            Command::Get { room_id: 3, container: text.to_string(), key: text.to_string() };
        let line = format_command(&command);
        assert!(!line.contains('\n') && !line.contains('\r'));
        assert_eq!(parse_command(&line), Ok(command));
    }
}

#[test]
fn blanks_around_arguments_do_not_count() {
    assert_eq!(parse_command("  \tROOM.DELETE \u{a0} 12  "), Ok(Command::RoomDelete(12)));
    assert_eq!(parse_command("ROOM.DELETE +12"), Ok(Command::RoomDelete(12)));
    assert_eq!(parse_command("\"ROOM.LIST\""), Ok(Command::RoomList));
    assert_eq!(
        parse_command("TOKEN.GEN 5"),
        Ok(Command::TokenGen { room_id: 5, containers: Vec::new() })
    );
}

#[test]
fn quoted_arguments_may_touch_the_next() {
    assert_eq!(
        parse_command("GET 1 \"a\"\"b\""),
        Ok(Command::Get { room_id: 1, container: "a".to_string(), key: "b".to_string() })
    );
    assert_eq!(
        parse_command("GET 1 \"a\"b"),
        Ok(Command::Get { room_id: 1, container: "a".to_string(), key: "b".to_string() })
    );
    assert_eq!(
        parse_command("GET 1 a\"b c"),
        Ok(Command::Get { room_id: 1, container: "a\"b".to_string(), key: "c".to_string() })
    );
    assert_eq!(parse_command("ROOM.FIND \"\\q\\t\""), Ok(Command::RoomFind("q\t".to_string())));
}

#[test]
fn wrong_commands_are_refused() {
    let cases = vec![
        ("", "ERROR missing_argument"),
        ("   ", "ERROR missing_argument"),
        ("NOPE", "ERROR unknown_command"),
        ("room.create", "ERROR unknown_command"),
        ("\"ROOM.CREATE", "ERROR invalid_argument"),
        ("ROOM.CREATE now", "ERROR extra_arguments"),
        ("ROOM.DELETE", "ERROR missing_argument"),
        ("ROOM.DELETE x", "ERROR invalid_room_id"),
        ("ROOM.DELETE -1", "ERROR invalid_room_id"),
        ("ROOM.DELETE 18446744073709551616", "ERROR invalid_room_id"),
        ("ROOM.DELETE 1 2", "ERROR extra_arguments"),
        ("ROOM.LABEL 1 \"  \"", "ERROR label_invalid"),
        ("ROOM.LABEL 1 \"  \" x", "ERROR label_invalid"),
        ("ROOM.LABEL 1 a b", "ERROR extra_arguments"),
        ("ROOM.FIND \"a\\", "ERROR invalid_argument"),
        ("SET 1 c k", "ERROR missing_value"),
        ("SET 1 c", "ERROR missing_argument"),
        ("SERVER.SET 1 k  ", "ERROR missing_value"),
        ("TOKEN.GEN x", "ERROR invalid_room_id"),
        ("TOKEN.GEN 1 a \"b", "ERROR invalid_argument"),
        ("PERSIST.GET 1 c k extra", "ERROR extra_arguments"),
    ];
    for (line, error) in cases {
        assert_eq!(parse_command(line), Err(error.to_string()), "{line:?}");
    }
    let error = parse_command("SET 1 c k {").unwrap_err();
    assert!(error.starts_with("ERROR invalid_json EOF"), "{error}");
    let error = parse_command("SET 1 c k 1 2").unwrap_err();
    assert!(error.starts_with("ERROR invalid_json trailing characters"), "{error}");
}

#[test]
fn tokens_are_quoted_where_they_must_be() {
    assert!(needs_quote(""));
    assert!(needs_quote("a b"));
    assert!(needs_quote("a\\b"));
    assert!(!needs_quote("a.b:c"));
    assert_eq!(escape_token("a\n\"\\\r\tb"), "a\\n\\\"\\\\\\r\\tb");
    assert_eq!(format_token("plain"), "plain");
    assert_eq!(format_token(""), "\"\"");
}

#[test]
fn responses_are_read() {
    assert_eq!(parse_response("OK"), Ok(Response::Success(None)));
    assert_eq!(parse_response("  OK  \n"), Ok(Response::Success(None)));
    assert_eq!(parse_response("OK 12"), Ok(Response::Success(Some("12".to_string()))));
    assert_eq!(parse_response("OKAY"), Ok(Response::Success(Some("AY".to_string()))));
    assert_eq!(parse_response("ERROR"), Ok(Response::Error("".to_string())));
    assert_eq!(
        parse_response("ERROR room_not_found"),
        Ok(Response::Error("room_not_found".to_string()))
    );
    assert_eq!(parse_response("ok"), Err("ERROR invalid_response".to_string()));
    assert_eq!(parse_response(""), Err("ERROR invalid_response".to_string()));
}

#[test]
fn responses_have_their_lines() {
    assert_eq!(format_response(&Response::Success(None)), "OK");
    assert_eq!(format_response(&Response::Success(Some("12".to_string()))), "OK 12");
    assert_eq!(format_response(&Response::Error("busy".to_string())), "ERROR busy");
}

#[test]
fn clients_write_lines() {
    assert_eq!(auth_line("key"), "key\n");
    assert_eq!(send_line(&Command::RoomInfo(4)), "ROOM.INFO 4\n");
}
