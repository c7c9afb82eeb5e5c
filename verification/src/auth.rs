//! Who may connect to the server with named containers.

use crate::state::{granted, holds_text, lemma_no_bytes, room_subject};
use crate::state_laws::law_token_grants;
use crate::text::{
    chars_of, decimal, is_digit, lemma_decimal, lemma_u64_round_trip, parse_u64, same, starts_with,
    trim, trim_end, trim_start, trimmed_string, u64_of_text, unsigned,
};
use crate::tokens::{
    clock_gave, container_claims, container_decoder_gave, decode_container_claims, optional_texts,
    optional_view, seconds_since_epoch,
};
use vstd::prelude::*;
use vstd::string::*;

verus! {

/// The claims of a client's token.
#[derive(Debug)]
pub struct Claims {
    pub sub: String,
    pub room: String,
    pub containers: Option<Vec<String>>,
    pub exp: u64,
}

pub ghost struct ClaimsView {
    pub sub: Seq<char>,
    pub room: Seq<char>,
    pub containers: Option<Seq<Seq<char>>>,
    pub exp: u64,
}

impl View for Claims {
    type V = ClaimsView;

    open spec fn view(&self) -> ClaimsView {
        ClaimsView {
            sub: self.sub@,
            room: self.room@,
            containers: optional_texts(self.containers),
            exp: self.exp,
        }
    }
}

/// The first message of a client.
#[derive(Debug)]
pub struct AuthMessage {
    pub typ: String,
    pub jwt: String,
    pub last_seen_counter: Option<u64>,
}

/// What is wrong with claims at any time, if anything is.
pub open spec fn claims_fault(c: ClaimsView) -> Option<Seq<char>> {
    if trim(c.room).len() == 0 {
        Some("invalid_jwt_room"@)
    } else if c.sub != room_subject(c.room) {
        Some("invalid_jwt_sub"@)
    } else if u64_of_text(c.room) is None {
        Some("invalid_jwt_room"@)
    } else if c.containers matches Some(names) && names.contains("server_only"@) {
        Some("invalid_jwt_reserved_container"@)
    } else {
        None
    }
}

/// What is wrong with claims at a time, if anything is.
pub open spec fn claims_fault_at(c: ClaimsView, now: u64) -> Option<Seq<char>> {
    if c.exp <= now {
        Some("expired_jwt"@)
    } else {
        claims_fault(c)
    }
}

/// Checks the claims of a token at a time.
pub fn check_claims(claims: Claims, now: u64) -> (r: Result<Claims, String>)
    ensures
        match r {
            Ok(c) => claims_fault_at(claims@, now) is None && c == claims,
            Err(e) => claims_fault_at(claims@, now) == Some(e@),
        },
{
    if claims.exp <= now {
        return Err("expired_jwt".to_string());
    }
    let room: String = trimmed_string(claims.room.as_str());
    proof {
        lemma_no_bytes(room@);
    }
    if room.as_str().is_empty() {
        return Err("invalid_jwt_room".to_string());
    }
    let mut subject: String = "room:".to_string();
    subject.append(claims.room.as_str());
    if !same(claims.sub.as_str(), subject.as_str()) {
        return Err("invalid_jwt_sub".to_string());
    }
    let digits: Vec<char> = chars_of(claims.room.as_str());
    if parse_u64(digits.as_slice()).is_none() {
        return Err("invalid_jwt_room".to_string());
    }
    match &claims.containers {
        Some(names) => {
            if holds_text(names, "server_only") {
                return Err("invalid_jwt_reserved_container".to_string());
            }
        },
        None => {},
    }
    Ok(claims)
}

/// What a token comes to at a time, given what decoding it came to.
pub fn check_decoded(
    decoded: Result<(String, String, Option<Vec<String>>, u64), String>,
    now: u64,
) -> (r: Result<Claims, String>)
    ensures
        match decoded {
            Err(reason) => r matches Err(e) && e@ == "invalid_jwt:"@ + reason@,
            Ok((sub, room, containers, exp)) => {
                let claims = ClaimsView {
                    sub: sub@,
                    room: room@,
                    containers: optional_texts(containers),
                    exp,
                };
                match r {
                    Ok(c) => claims_fault_at(claims, now) is None && c@ == claims,
                    Err(e) => claims_fault_at(claims, now) == Some(e@),
                }
            },
        },
{
    match decoded {
        Err(reason) => {
            let mut e: String = "invalid_jwt:".to_string();
            e.append(reason.as_str());
            Err(e)
        },
        Ok((sub, room, containers, exp)) => check_claims(
            Claims { sub, room, containers, exp },
            now,
        ),
    }
}

/// The claims that a token holds for who knows the key, if it is for the issuer and the
/// audience that are asked for.
pub open spec fn token_claims(
    key: Seq<char>,
    issuer: Option<Seq<char>>,
    audience: Option<Seq<char>>,
    token: Seq<char>,
) -> Option<ClaimsView> {
    match container_claims(token, key, issuer, audience) {
        Some((sub, room, containers, exp)) => Some(ClaimsView { sub, room, containers, exp }),
        None => None,
    }
}

pub open spec fn checked_view(claims: Result<Claims, String>) -> Result<ClaimsView, Seq<char>> {
    match claims {
        Ok(claims) => Ok(claims@),
        Err(reason) => Err(reason@),
    }
}

/// Whether the check of a token can come to the given end. Without a key there is one end.
/// With a key, claims that come back are those of the token and have no fault. A token is
/// refused because it could not be decoded, because it has expired, or for the fault of its
/// claims.
pub open spec fn can_come_to(
    key: Option<Seq<char>>,
    issuer: Option<Seq<char>>,
    audience: Option<Seq<char>>,
    token: Seq<char>,
    end: Result<ClaimsView, Seq<char>>,
) -> bool {
    match key {
        None => end == Err::<ClaimsView, Seq<char>>("no_jwt_key"@),
        Some(key) => {
            let held = token_claims(key, issuer, audience, token);
            match end {
                Ok(claims) => held == Some(claims) && claims_fault(claims) is None,
                Err(reason) => starts_with(reason, "invalid_jwt:"@) || (held matches Some(claims)
                    && (reason == "expired_jwt"@ || claims_fault(claims) == Some(reason))),
            }
        },
    }
}

/// Whether a token with a key comes to the given end by what decoding it gave and by the time
/// of the clock.
pub open spec fn decided(
    key: &str,
    issuer: Option<&str>,
    audience: Option<&str>,
    token: &str,
    decoded: Result<(String, String, Option<Vec<String>>, u64), String>,
    now: u64,
    end: Result<Claims, String>,
) -> bool {
    &&& container_decoder_gave(key, issuer, audience, token, decoded)
    &&& clock_gave(now)
    &&& call_ensures(check_decoded, (decoded, now), end)
}

/// Validates a token now. Whether the token is still good rests on the clock.
pub fn validate_jwt_claims(
    jwt_key: Option<&str>,
    jwt_issuer: Option<&str>,
    jwt_audience: Option<&str>,
    token: &str,
) -> (r: Result<Claims, String>)
    ensures
        can_come_to(
            optional_view(jwt_key),
            optional_view(jwt_issuer),
            optional_view(jwt_audience),
            token@,
            checked_view(r),
        ),
        jwt_key matches Some(key) ==> exists|
            decoded: Result<(String, String, Option<Vec<String>>, u64), String>,
            now: u64,
        |
            #[trigger] decided(key, jwt_issuer, jwt_audience, token, decoded, now, r),
{
    let key: &str = match jwt_key {
        None => {
            return Err("no_jwt_key".to_string());
        },
        Some(key) => key,
    };
    let decoded: Result<(String, String, Option<Vec<String>>, u64), String> =
        decode_container_claims(key, jwt_issuer, jwt_audience, token);
    let now: u64 = seconds_since_epoch();
    proof {
        let n = "invalid_jwt:"@.len() as int;
        assert(("invalid_jwt:"@ + decoded->Err_0@).take(n) =~= "invalid_jwt:"@);
    }
    let ghost gave = decoded;
    let r: Result<Claims, String> = check_decoded(decoded, now);
    assert(decided(key, jwt_issuer, jwt_audience, token, gave, now, r));
    r
}

/// Whether the check of a token with the settings of a server came to an end.
pub open spec fn checked_now(
    key: Option<Seq<char>>,
    issuer: Option<Seq<char>>,
    audience: Option<Seq<char>>,
    token: &str,
    end: Result<Claims, String>,
) -> bool {
    exists|k: Option<&str>, i: Option<&str>, a: Option<&str>|
        optional_view(k) == key && optional_view(i) == issuer && optional_view(a) == audience
            && #[trigger] call_ensures(validate_jwt_claims, (k, i, a, token), end)
}

/// Whether claims came to an end at a time: they are refused as expired exactly if their time is
/// over, and else accepted, as they are, exactly if they name a room by its number, have that room
/// as their subject, and do not grant the container of the server. What is wrong first is what is
/// said.
pub open spec fn judged(
    sub: Seq<char>,
    room: Seq<char>,
    containers: Option<Seq<Seq<char>>>,
    exp: u64,
    now: u64,
    end: Result<Claims, String>,
) -> bool {
    let reserved = containers is Some && containers->0.contains("server_only"@);
    &&& end is Ok <==> exp > now && sub == "room:"@ + room && u64_of_text(room) is Some && !reserved
    &&& end matches Ok(claims) ==> {
        &&& claims.sub@ == sub
        &&& claims.room@ == room
        &&& optional_texts(claims.containers) == containers
        &&& claims.exp == exp
    }
    &&& end matches Err(e) ==> e@ == (if exp <= now {
        "expired_jwt"@
    } else if trim(room).len() == 0 {
        "invalid_jwt_room"@
    } else if sub != "room:"@ + room {
        "invalid_jwt_sub"@
    } else if u64_of_text(room) is None {
        "invalid_jwt_room"@
    } else {
        "invalid_jwt_reserved_container"@
    })
}

/// A text that is read as a number is not blank.
proof fn lemma_numbers_not_blank(room: Seq<char>)
    ensures
        u64_of_text(room) is Some ==> trim(room).len() > 0,
{
    if u64_of_text(room) is Some {
        let d = unsigned(room);
        assert(is_digit(d[0]));
        assert(is_digit(d[d.len() - 1]));
        assert(room[room.len() - 1] == d[d.len() - 1]);
        assert(trim_start(room) == room);
        assert(trim_end(room) == room);
    }
}

/// Claims are good until they expire.
pub proof fn law_claims_are_good_until_they_expire(
    claims: Claims,
    now: u64,
    r: Result<Claims, String>,
)
    requires
        call_ensures(check_claims, (claims, now), r),
    ensures
        judged(claims.sub@, claims.room@, optional_texts(claims.containers), claims.exp, now, r),
{
    lemma_numbers_not_blank(claims.room@);
}

/// What was decoded comes to what its claims come to; what could not be decoded is refused with the
/// reason.
pub proof fn law_decoded_claims_are_judged(
    decoded: Result<(String, String, Option<Vec<String>>, u64), String>,
    now: u64,
    r: Result<Claims, String>,
)
    requires
        call_ensures(check_decoded, (decoded, now), r),
    ensures
        match decoded {
            Err(reason) => r matches Err(e) && e@ == "invalid_jwt:"@ + reason@,
            Ok((sub, room, containers, exp)) => judged(
                sub@,
                room@,
                optional_texts(containers),
                exp,
                now,
                r,
            ),
        },
{
    if let Ok((sub, room, containers, exp)) = decoded {
        lemma_numbers_not_blank(room@);
    }
}

/// What a token with a key comes to is what the decoder gave for it, judged at the time that the
/// clock gave: a token that decodes is refused as expired exactly if its time is over, and until
/// then it is accepted if nothing else is wrong with its claims.
pub proof fn law_tokens_are_good_until_they_expire(
    key: &str,
    issuer: Option<&str>,
    audience: Option<&str>,
    token: &str,
    r: Result<Claims, String>,
)
    requires
        call_ensures(validate_jwt_claims, (Some(key), issuer, audience, token), r),
    ensures
        exists|
            decoded: Result<(String, String, Option<Vec<String>>, u64), String>,
            now: u64,
        | #![trigger container_decoder_gave(key, issuer, audience, token, decoded), clock_gave(now)]
            {
                &&& container_decoder_gave(key, issuer, audience, token, decoded)
                &&& clock_gave(now)
                &&& match decoded {
                    Err(reason) => r matches Err(e) && e@ == "invalid_jwt:"@ + reason@,
                    Ok((sub, room, containers, exp)) => judged(
                        sub@,
                        room@,
                        optional_texts(containers),
                        exp,
                        now,
                        r,
                    ),
                }
            },
{
    let (decoded, now) = choose|
        decoded: Result<(String, String, Option<Vec<String>>, u64), String>,
        now: u64,
    | #[trigger] decided(key, issuer, audience, token, decoded, now, r);
    assert(container_decoder_gave(key, issuer, audience, token, decoded) && clock_gave(now));
    law_decoded_claims_are_judged(decoded, now, r);
}

/// Without a key no token is good.
pub proof fn law_no_key_no_token(
    issuer: Option<&str>,
    audience: Option<&str>,
    token: &str,
    r: Result<Claims, String>,
)
    requires
        call_ensures(validate_jwt_claims, (None::<&str>, issuer, audience, token), r),
    ensures
        r matches Err(e) && e@ == "no_jwt_key"@,
{
}

proof fn lemma_digits_not_blank(n: nat)
    ensures
        trim(decimal(n)).len() > 0,
{
    lemma_decimal(n);
    let d = decimal(n);
    assert(is_digit(d[0]));
    assert(is_digit(d[d.len() - 1]));
    assert(trim_start(d) == d);
    assert(trim_end(d) == d);
}

/// The claims of a token that the server issued for a room have no fault until they
/// expire, unless the token was to grant the container of the server: then it is refused.
pub proof fn law_issued_claims_are_good(id: u64, containers: Seq<Seq<char>>, exp: u64, now: u64)
    requires
        now < exp,
    ensures
        claims_fault_at(
            ClaimsView {
                sub: room_subject(decimal(id as nat)),
                room: decimal(id as nat),
                containers: Some(granted(containers)),
                exp,
            },
            now,
        ) == (if containers.contains("server_only"@) {
            Some("invalid_jwt_reserved_container"@)
        } else {
            None
        }),
{
    lemma_digits_not_blank(id as nat);
    lemma_u64_round_trip(id);
    law_token_grants(containers);
    reveal_strlit("public");
    reveal_strlit("server_only");
    assert("public"@.len() != "server_only"@.len());
}

} // verus!
