//! Signed tokens: the calls into the JSON Web Token library, and the clock.

use crate::collections::texts;
use vstd::prelude::*;
use vstd::string::*;

verus! {

/// The token that `jsonwebtoken::encode` makes, with HS256, of the claims `sub`,
/// `room`, `containers`, `exp`, `iss` and `aud`.
pub uninterp spec fn container_token(
    key: Seq<char>,
    sub: Seq<char>,
    room: Seq<char>,
    containers: Seq<Seq<char>>,
    exp: u64,
    iss: Seq<char>,
    aud: Seq<char>,
) -> Seq<char>;

/// The token that `jsonwebtoken::encode` makes, with HS256, of the claims `sub`,
/// `room_id`, `buckets`, `exp`, `iss` and `aud`.
pub uninterp spec fn bucket_token(
    key: Seq<char>,
    sub: Seq<char>,
    room_id: u64,
    buckets: Seq<u64>,
    exp: u64,
    iss: Seq<char>,
    aud: Seq<char>,
) -> Seq<char>;

/// The claims `sub`, `room`, `containers` and `exp` that `jsonwebtoken::decode` reads
/// from a token as long as it has not expired: with HS256, a key, and the issuer and the
/// audience that are asked for. Nothing if it refuses the token at any time.
pub uninterp spec fn container_claims(
    token: Seq<char>,
    key: Seq<char>,
    issuer: Option<Seq<char>>,
    audience: Option<Seq<char>>,
) -> Option<(Seq<char>, Seq<char>, Option<Seq<Seq<char>>>, u64)>;

/// The claims `sub`, `room_id`, `buckets` and `exp` that `jsonwebtoken::decode` reads from
/// a token as long as it has not expired: with HS256 and a key, whatever the issuer and
/// the audience. Nothing if it refuses the token at any time.
pub uninterp spec fn bucket_claims(token: Seq<char>, key: Seq<char>) -> Option<
    (Seq<char>, Option<u64>, Option<Seq<u64>>, u64),
>;

/// `jsonwebtoken::encode` with the default header, which asks for HS256, and the
/// key as a shared secret. With such a key and claims that are a JSON object it
/// always succeeds. The claims go in a `serde_yaml::Mapping`, which keeps its entries in the
/// order in which they come, so the token holds them in that order. The token is a function of
/// the key and the claims; decoded with the same key, issuer and audience it gives back the
/// claims.
#[verifier::external_body]
pub(crate) fn encode_container_token(
    key: &str,
    sub: &str,
    room: &str,
    containers: &Vec<String>,
    exp: u64,
    iss: &str,
    aud: &str,
) -> (r: Result<String, String>)
    ensures
        match r {
            Ok(t) => t@ == container_token(
                key@,
                sub@,
                room@,
                texts(containers@),
                exp,
                iss@,
                aud@,
            ) && container_claims(t@, key@, Some(iss@), Some(aud@)) == Some(
                (sub@, room@, Some(texts(containers@)), exp),
            ),
            Err(_) => false,
        },
{
    let mut claims = serde_yaml::Mapping::new();
    claims.insert("sub".into(), serde_yaml::Value::from(sub));
    claims.insert("room".into(), serde_yaml::Value::from(room));
    claims.insert("containers".into(), serde_yaml::Value::from(containers.clone()));
    claims.insert("exp".into(), serde_yaml::Value::from(exp));
    claims.insert("iss".into(), serde_yaml::Value::from(iss));
    claims.insert("aud".into(), serde_yaml::Value::from(aud));
    let secret = jsonwebtoken::EncodingKey::from_secret(key.as_bytes());
    jsonwebtoken::encode(&jsonwebtoken::Header::default(), &claims, &secret)
        .map_err(|e| e.to_string())
}

/// `jsonwebtoken::encode` with the default header, which asks for HS256, and the
/// key as a shared secret. With such a key and claims that are a JSON object it
/// always succeeds. The claims go in a `serde_yaml::Mapping`, which keeps its entries in the
/// order in which they come, so the token holds them in that order. The token is a function of
/// the key and the claims; decoded with the same key it gives back the claims.
#[verifier::external_body]
pub(crate) fn encode_bucket_token(
    key: &str,
    sub: &str,
    room_id: u64,
    buckets: &Vec<u64>,
    exp: u64,
    iss: &str,
    aud: &str,
) -> (r: Result<String, String>)
    ensures
        match r {
            Ok(t) => t@ == bucket_token(key@, sub@, room_id, buckets@, exp, iss@, aud@)
                && bucket_claims(t@, key@) == Some(
                (sub@, Some(room_id), Some(buckets@), exp),
            ),
            Err(_) => false,
        },
{
    let mut claims = serde_yaml::Mapping::new();
    claims.insert("sub".into(), serde_yaml::Value::from(sub));
    claims.insert("room_id".into(), serde_yaml::Value::from(room_id));
    claims.insert("buckets".into(), serde_yaml::Value::from(buckets.clone()));
    claims.insert("exp".into(), serde_yaml::Value::from(exp));
    claims.insert("iss".into(), serde_yaml::Value::from(iss));
    claims.insert("aud".into(), serde_yaml::Value::from(aud));
    let secret = jsonwebtoken::EncodingKey::from_secret(key.as_bytes());
    jsonwebtoken::encode(&jsonwebtoken::Header::default(), &claims, &secret)
        .map_err(|e| e.to_string())
}

/// The text of an optional string.
pub open spec fn optional_view(s: Option<&str>) -> Option<Seq<char>> {
    match s {
        Some(s) => Some(s@),
        None => None,
    }
}

/// The texts of an optional row of strings.
pub open spec fn optional_texts(v: Option<Vec<String>>) -> Option<Seq<Seq<char>>> {
    match v {
        Some(v) => Some(texts(v@)),
        None => None,
    }
}

/// `jsonwebtoken::decode` with HS256 alone, the key as a shared secret, an expiry time
/// that is required and enforced, and the issuer and the audience that are asked for. Of
/// the claims it takes `sub`, `room`, `containers`, which may be missing, and `exp`; where
/// one does not have its type it fails; where `room` or `containers` is named twice, the
/// last counts. What it gives back are the claims that the token holds. Whether it succeeds
/// depends on the clock, so nothing is said of when it fails.
#[verifier::external_body]
pub(crate) fn decode_container_claims(
    key: &str,
    issuer: Option<&str>,
    audience: Option<&str>,
    token: &str,
) -> (r: Result<(String, String, Option<Vec<String>>, u64), String>)
    ensures
        match r {
            Ok((sub, room, containers, exp)) => container_claims(
                token@,
                key@,
                optional_view(issuer),
                optional_view(audience),
            ) == Some((sub@, room@, optional_texts(containers), exp)),
            Err(_) => true,
        },
{
    let mut validation = jsonwebtoken::Validation::new(jsonwebtoken::Algorithm::HS256);
    validation.set_required_spec_claims(&["exp"]);
    validation.iss = issuer.map(|name| std::collections::HashSet::from([name.to_owned()]));
    validation.aud = audience.map(|name| std::collections::HashSet::from([name.to_owned()]));
    let secret = jsonwebtoken::DecodingKey::from_secret(key.as_bytes());
    let claims = jsonwebtoken::decode::<serde_json::Value>(token, &secret, &validation)
        .map_err(|e| e.to_string())?
        .claims;
    let row = ["sub", "room", "containers", "exp"].map(|name| claims[name].clone());
    serde_json::from_value(serde_json::Value::from(row.to_vec()))
        .map_err(|e| jsonwebtoken::errors::Error::from(e).to_string())
}

/// `jsonwebtoken::decode` with HS256 alone, the key as a shared secret, and an expiry time
/// that is required and enforced. Of the claims it takes `sub`, `room_id` and `buckets`,
/// which may be missing, and `exp`; where one does not have its type it fails; where
/// `room_id` or `buckets` is named twice, the last counts. What it gives back are the claims
/// that the token holds. Whether it succeeds depends on the clock, so nothing is said of when
/// it fails.
#[verifier::external_body]
pub(crate) fn decode_bucket_claims(key: &str, token: &str) -> (r: Result<
    (String, Option<u64>, Option<Vec<u64>>, u64),
    String,
>)
    ensures
        match r {
            Ok((sub, room_id, buckets, exp)) => bucket_claims(token@, key@) == Some(
                (
                    sub@,
                    room_id,
                    match buckets {
                        Some(ids) => Some(ids@),
                        None => None,
                    },
                    exp,
                ),
            ),
            Err(_) => true,
        },
{
    let mut validation = jsonwebtoken::Validation::new(jsonwebtoken::Algorithm::HS256);
    validation.set_required_spec_claims(&["exp"]);
    let secret = jsonwebtoken::DecodingKey::from_secret(key.as_bytes());
    let claims = jsonwebtoken::decode::<serde_json::Value>(token, &secret, &validation)
        .map_err(|e| e.to_string())?
        .claims;
    let row = ["sub", "room_id", "buckets", "exp"].map(|name| claims[name].clone());
    serde_json::from_value(serde_json::Value::from(row.to_vec()))
        .map_err(|e| jsonwebtoken::errors::Error::from(e).to_string())
}

/// `std::time::SystemTime::elapsed` since the Unix epoch, in seconds; zero where
/// the clock stands before the epoch. It depends on the machine's clock, so
/// nothing is said of the result.
#[verifier::external_body]
pub(crate) fn seconds_since_epoch() -> (r: u64) {
    std::time::SystemTime::UNIX_EPOCH.elapsed().unwrap_or_default().as_secs()
}

/// Whether a time is one that the clock gave.
pub open(crate) spec fn clock_gave(now: u64) -> bool {
    call_ensures(seconds_since_epoch, (), now)
}

/// Whether the library gave something back for a token with a key, an issuer and an audience.
pub open(crate) spec fn container_decoder_gave(
    key: &str,
    issuer: Option<&str>,
    audience: Option<&str>,
    token: &str,
    decoded: Result<(String, String, Option<Vec<String>>, u64), String>,
) -> bool {
    call_ensures(decode_container_claims, (key, issuer, audience, token), decoded)
}

/// Whether the library gave something back for a token with a key.
pub open(crate) spec fn bucket_decoder_gave(
    key: &str,
    token: &str,
    decoded: Result<(String, Option<u64>, Option<Vec<u64>>, u64), String>,
) -> bool {
    call_ensures(decode_bucket_claims, (key, token), decoded)
}

/// A sum that stays at the largest number where it would go beyond.
pub open spec fn saturating_sum(a: u64, b: u64) -> u64 {
    if a + b <= u64::MAX {
        (a + b) as u64
    } else {
        u64::MAX
    }
}

/// The time at which a token is issued: the time of the clock, but later than that
/// of the token before.
pub open spec fn issue_time(now: u64, last: Option<u64>) -> u64 {
    match last {
        Some(t) => if now >= saturating_sum(t, 1) {
            now
        } else {
            saturating_sum(t, 1)
        },
        None => now,
    }
}

/// The time at which the next token is issued.
pub fn next_issue_time(now: u64, last: Option<u64>) -> (r: u64)
    ensures
        r == issue_time(now, last),
{
    match last {
        Some(t) => {
            let next: u64 = t.saturating_add(1);
            if now >= next {
                now
            } else {
                next
            }
        },
        None => now,
    }
}

} // verus!
