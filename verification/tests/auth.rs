//! Tokens: what is issued, and what is accepted.

use syncpond::auth::{check_claims, check_decoded, validate_jwt_claims, Claims};
use syncpond::downstream_auth::AuthConfig;
use syncpond::kernel_state;
use syncpond::state::AppState;
use syncpond::tokens::next_issue_time;

const KEY: &str = "secretsecretsecretsecretsecretsecret";

fn server() -> AppState {
    let mut app = AppState::new();
    app.set_jwt_key(KEY.to_string());
    app.set_jwt_issuer("my-issuer".to_string());
    app.set_jwt_audience("my-aud".to_string());
    app
}

fn validate(app: &AppState, token: &str) -> Result<Claims, String> {
    validate_jwt_claims(
        app.jwt_key.as_deref(),
        app.jwt_issuer.as_deref(),
        app.jwt_audience.as_deref(),
        token,
    )
}

fn claims(sub: &str, room: &str, containers: Option<Vec<&str>>, exp: u64) -> Claims {
    Claims {
        sub: sub.to_string(),
        room: room.to_string(),
        containers: containers.map(|names| names.iter().map(|n| n.to_string()).collect()),
        exp,
    }
}

#[test]
fn test_validate_jwt_claims_success() {
    let mut app = server();
    let room_id = app.create_room();
    let token = app.create_room_token(room_id, &["public".into()]).unwrap();
    let claims = validate(&app, &token).expect("token should be valid");
    assert_eq!(claims.room, room_id.to_string());
}

#[test]
fn tokens_hold_what_was_granted() {
    let mut app = server();
    let room_id = app.create_room();
    let asked = ["priv".to_string(), "public".to_string(), "priv".to_string()];
    let token = app.create_room_token(room_id, &asked).unwrap();
    let claims = validate(&app, &token).unwrap();
    assert_eq!(claims.sub, "room:1");
    let mut containers = claims.containers.unwrap();
    containers.sort();
    assert_eq!(containers, vec!["priv".to_string(), "public".to_string()]);
    assert_eq!(Some(claims.exp), app.last_jwt_issue_seconds.map(|t| t + 3600));
}

#[test]
fn tokens_for_others_are_refused() {
    let mut app = server();
    let room_id = app.create_room();
    let token = app.create_room_token(room_id, &[]).unwrap();

    assert_eq!(
        validate_jwt_claims(None, None, None, &token).unwrap_err(),
        "no_jwt_key".to_string()
    );
    let mut other = server();
    other.set_jwt_key("another-secret-another-secret-another".to_string());
    assert_eq!(validate(&other, &token).unwrap_err(), "invalid_jwt:InvalidSignature");
    let mut other = server();
    other.set_jwt_issuer("someone".to_string());
    assert_eq!(validate(&other, &token).unwrap_err(), "invalid_jwt:InvalidIssuer");
    let mut other = server();
    other.set_jwt_audience("someone".to_string());
    assert_eq!(validate(&other, &token).unwrap_err(), "invalid_jwt:InvalidAudience");
    assert_eq!(validate(&app, "no token").unwrap_err(), "invalid_jwt:InvalidToken");
}

#[test]
fn tokens_without_the_claims_are_refused() {
    let mut app = server();
    app.jwt_issuer = None;
    app.jwt_audience = None;
    let secret = jsonwebtoken::EncodingKey::from_secret(KEY.as_bytes());
    let mut body = serde_json::Map::new();
    body.insert("exp".to_string(), serde_json::Value::from(u32::MAX));
    let token =
        jsonwebtoken::encode(&jsonwebtoken::Header::default(), &body, &secret).unwrap();
    assert!(validate(&app, &token).unwrap_err().starts_with("invalid_jwt:"));
    body.insert("sub".to_string(), serde_json::Value::from("room:1"));
    body.insert("room".to_string(), serde_json::Value::from("1"));
    let token =
        jsonwebtoken::encode(&jsonwebtoken::Header::default(), &body, &secret).unwrap();
    assert_eq!(validate(&app, &token).unwrap().containers, None);
}

/// The text of the claims of a token: the middle part, which is in base64.
fn claims_text(token: &str) -> String {
    let digits = "ABCDEFGHIJKLMNOPQRSTUVWXYZabcdefghijklmnopqrstuvwxyz0123456789-_";
    let mut bytes = Vec::new();
    let mut bits: u32 = 0;
    let mut count = 0;
    for c in token.split('.').nth(1).unwrap().chars() {
        bits = (bits << 6 | digits.find(c).unwrap() as u32) & 0xffff;
        count += 6;
        if count >= 8 {
            count -= 8;
            bytes.push((bits >> count) as u8);
        }
    }
    String::from_utf8(bytes).unwrap()
}

#[test]
fn claims_stand_in_their_order() {
    let mut app = server();
    let room_id = app.create_room();
    let token = app.create_room_token_at(room_id, &["notes".to_string()], 1_000).unwrap();
    assert_eq!(
        claims_text(&token),
        "{\"sub\":\"room:1\",\"room\":\"1\",\"containers\":[\"notes\",\"public\"],\
         \"exp\":4600,\"iss\":\"my-issuer\",\"aud\":\"my-aud\"}"
    );
    let mut app = kernel_state::AppState::new();
    app.set_jwt_key(KEY.to_string());
    app.set_jwt_issuer("my-issuer".to_string());
    app.set_jwt_audience("my-aud".to_string());
    let room_id = app.create_room();
    app.add_member(room_id, "ann".to_string()).unwrap();
    let token = app.create_room_token_at(room_id, "ann", &[5], 1_000).unwrap();
    assert_eq!(
        claims_text(&token),
        "{\"sub\":\"ann\",\"room_id\":1,\"buckets\":[5,0],\"exp\":4600,\
         \"iss\":\"my-issuer\",\"aud\":\"my-aud\"}"
    );
}

#[test]
fn expired_tokens_are_refused() {
    let mut app = server();
    let room_id = app.create_room();
    app.set_jwt_ttl(10);
    let token = app.create_room_token_at(room_id, &[], 1_000).unwrap();
    assert_eq!(validate(&app, &token).unwrap_err(), "invalid_jwt:ExpiredSignature");
}

#[test]
fn reserved_containers_are_refused() {
    let mut app = server();
    let room_id = app.create_room();
    let token = app.create_room_token(room_id, &["server_only".to_string()]).unwrap();
    assert_eq!(validate(&app, &token).unwrap_err(), "invalid_jwt_reserved_container");
}

#[test]
fn claims_are_checked_in_turn() {
    let now = 100;
    assert!(check_claims(claims("room:1", "1", None, 101), now).is_ok());
    assert_eq!(check_claims(claims("room:1", "1", None, 100), now).unwrap_err(), "expired_jwt");
    assert_eq!(check_claims(claims("room: ", " ", None, 101), now).unwrap_err(), "invalid_jwt_room");
    assert_eq!(check_claims(claims("room:2", "1", None, 101), now).unwrap_err(), "invalid_jwt_sub");
    assert_eq!(check_claims(claims("room:a", "a", None, 101), now).unwrap_err(), "invalid_jwt_room");
    assert_eq!(
        check_claims(claims("room:1", "1", Some(vec!["a", "server_only"]), 101), now).unwrap_err(),
        "invalid_jwt_reserved_container"
    );
    assert_eq!(check_decoded(Err("why".to_string()), now).unwrap_err(), "invalid_jwt:why");
}

#[test]
fn times_of_issue_increase() {
    assert_eq!(next_issue_time(100, None), 100);
    assert_eq!(next_issue_time(100, Some(50)), 100);
    assert_eq!(next_issue_time(100, Some(100)), 101);
    assert_eq!(next_issue_time(100, Some(200)), 201);
    assert_eq!(next_issue_time(100, Some(u64::MAX)), u64::MAX);
}

#[test]
fn tokens_with_buckets_hold_what_was_granted() {
    let mut app = kernel_state::AppState::new();
    app.set_jwt_key(KEY.to_string());
    app.set_jwt_issuer("iss".to_string());
    app.set_jwt_audience("aud".to_string());
    let room_id = app.create_room();
    app.add_member(room_id, "  ann ".to_string()).unwrap();
    let token = app.create_room_token(room_id, " ann", &[7, 7, 3]).unwrap();

    let config =
        AuthConfig::from_values(KEY.to_string(), "x".to_string(), "y".to_string()).unwrap();
    let claims = config.validate_jwt(&token).unwrap();
    assert_eq!(claims.sub, "ann");
    assert_eq!(claims.room_id, Some(1));
    let mut buckets = claims.buckets.unwrap();
    buckets.sort();
    assert_eq!(buckets, vec![0, 3, 7]);

    let config = AuthConfig::from_values("z".to_string(), "x".to_string(), "y".to_string()).unwrap();
    assert_eq!(config.validate_jwt(&token).unwrap_err(), "invalid_jwt:InvalidSignature");
}

#[test]
fn reserved_buckets_are_refused() {
    let mut app = kernel_state::AppState::new();
    app.set_jwt_key(KEY.to_string());
    app.set_jwt_issuer("iss".to_string());
    app.set_jwt_audience("aud".to_string());
    let room_id = app.create_room();
    app.add_member(room_id, "ann".to_string()).unwrap();
    let reserved = [kernel_state::SERVER_ONLY_BUCKET_ID];
    assert_eq!(
        app.create_room_token(room_id, "ann", &reserved),
        Err(kernel_state::StateError::ReservedBucketId)
    );
    assert_eq!(
        app.create_room_token(room_id, "  ", &[]),
        Err(kernel_state::StateError::InvalidMember)
    );
}

#[test]
fn all_values_must_be_configured() {
    let text = |s: &str| s.to_string();
    assert_eq!(
        AuthConfig::from_values(text(""), text("i"), text("a")).unwrap_err(),
        "JWT_KEY environment variable is required for authentication"
    );
    assert_eq!(
        AuthConfig::from_values(text("k"), text(""), text("a")).unwrap_err(),
        "JWT_ISSUER environment variable is required for authentication"
    );
    assert_eq!(
        AuthConfig::from_values(text("k"), text("i"), text("")).unwrap_err(),
        "JWT_AUDIENCE environment variable is required for authentication"
    );
}
