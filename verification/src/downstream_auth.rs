//! Who may connect to the websocket server with numbered buckets.

use crate::text::starts_with;
use crate::tokens::{
    bucket_claims, bucket_decoder_gave, clock_gave, decode_bucket_claims, seconds_since_epoch,
};
use vstd::prelude::*;
use vstd::string::*;

verus! {

/// The claims of a client's token.
#[derive(Debug)]
pub struct Claims {
    pub sub: String,
    pub room_id: Option<u64>,
    pub buckets: Option<Vec<u64>>,
    pub exp: u64,
}

#[verifier::ext_equal]
pub ghost struct ClaimsView {
    pub sub: Seq<char>,
    pub room_id: Option<u64>,
    pub buckets: Option<Seq<u64>>,
    pub exp: u64,
}

pub open spec fn optional_ids(v: Option<Vec<u64>>) -> Option<Seq<u64>> {
    match v {
        Some(ids) => Some(ids@),
        None => None,
    }
}

impl View for Claims {
    type V = ClaimsView;

    open spec fn view(&self) -> ClaimsView {
        ClaimsView {
            sub: self.sub@,
            room_id: self.room_id,
            buckets: optional_ids(self.buckets),
            exp: self.exp,
        }
    }
}

/// The key that tokens are signed with, and the issuer and audience of the installation.
#[derive(Debug)]
pub struct AuthConfig {
    pub jwt_key: String,
    pub jwt_issuer: String,
    pub jwt_audience: String,
}

/// What a token comes to at a time, given what decoding it came to.
pub fn check_decoded(
    decoded: Result<(String, Option<u64>, Option<Vec<u64>>, u64), String>,
    now: u64,
) -> (r: Result<Claims, String>)
    ensures
        match decoded {
            Err(reason) => r matches Err(e) && e@ == "invalid_jwt:"@ + reason@,
            Ok((sub, room_id, buckets, exp)) => if exp <= now {
                r matches Err(e) && e@ == "expired_jwt"@
            } else {
                r matches Ok(c) && c@ == (ClaimsView {
                    sub: sub@,
                    room_id,
                    buckets: optional_ids(buckets),
                    exp,
                })
            },
        },
{
    match decoded {
        Err(reason) => {
            let mut e: String = "invalid_jwt:".to_string();
            e.append(reason.as_str());
            Err(e)
        },
        Ok((sub, room_id, buckets, exp)) => {
            if exp <= now {
                return Err("expired_jwt".to_string());
            }
            Ok(Claims { sub, room_id, buckets, exp })
        },
    }
}

/// The claims that a token holds for who knows the key.
pub open spec fn token_claims(key: Seq<char>, token: Seq<char>) -> Option<ClaimsView> {
    match bucket_claims(token, key) {
        Some((sub, room_id, buckets, exp)) => Some(ClaimsView { sub, room_id, buckets, exp }),
        None => None,
    }
}

pub open spec fn checked_view(claims: Result<Claims, String>) -> Result<ClaimsView, Seq<char>> {
    match claims {
        Ok(claims) => Ok(claims@),
        Err(reason) => Err(reason@),
    }
}

/// Whether the check of a token can come to the given end: claims that come back are those
/// of the token, and it is refused because it could not be decoded or has expired.
pub open spec fn can_come_to(
    key: Seq<char>,
    token: Seq<char>,
    end: Result<ClaimsView, Seq<char>>,
) -> bool {
    let held = token_claims(key, token);
    match end {
        Ok(claims) => held == Some(claims),
        Err(reason) => starts_with(reason, "invalid_jwt:"@) || (held is Some && reason
            == "expired_jwt"@),
    }
}

/// Whether a token comes to the given end by what decoding it gave and by the time of the clock.
pub open spec fn decided(
    key: &str,
    token: &str,
    decoded: Result<(String, Option<u64>, Option<Vec<u64>>, u64), String>,
    now: u64,
    end: Result<Claims, String>,
) -> bool {
    &&& bucket_decoder_gave(key, token, decoded)
    &&& clock_gave(now)
    &&& call_ensures(check_decoded, (decoded, now), end)
}

impl AuthConfig {
    /// Makes a configuration of the values of the environment; none of them may be empty.
    pub fn from_values(jwt_key: String, jwt_issuer: String, jwt_audience: String) -> (r: Result<
        AuthConfig,
        String,
    >)
        ensures
            match r {
                Ok(c) => jwt_key@.len() > 0 && jwt_issuer@.len() > 0 && jwt_audience@.len() > 0
                    && c.jwt_key == jwt_key && c.jwt_issuer == jwt_issuer && c.jwt_audience
                    == jwt_audience,
                Err(e) => if jwt_key@.len() == 0 {
                    e@ == "JWT_KEY environment variable is required for authentication"@
                } else if jwt_issuer@.len() == 0 {
                    e@ == "JWT_ISSUER environment variable is required for authentication"@
                } else {
                    jwt_audience@.len() == 0 && e@
                        == "JWT_AUDIENCE environment variable is required for authentication"@
                },
            },
    {
        proof {
            crate::state::lemma_no_bytes(jwt_key@);
            crate::state::lemma_no_bytes(jwt_issuer@);
            crate::state::lemma_no_bytes(jwt_audience@);
        }
        if jwt_key.as_str().is_empty() {
            return Err(
                "JWT_KEY environment variable is required for authentication".to_string(),
            );
        }
        if jwt_issuer.as_str().is_empty() {
            return Err(
                "JWT_ISSUER environment variable is required for authentication".to_string(),
            );
        }
        if jwt_audience.as_str().is_empty() {
            return Err(
                "JWT_AUDIENCE environment variable is required for authentication".to_string(),
            );
        }
        Ok(AuthConfig { jwt_key, jwt_issuer, jwt_audience })
    }

    /// Validates a token now. Whether the token is still good rests on the clock.
    pub fn validate_jwt(&self, token: &str) -> (r: Result<Claims, String>)
        ensures
            can_come_to(self.jwt_key@, token@, checked_view(r)),
            exists|
                key: &str,
                decoded: Result<(String, Option<u64>, Option<Vec<u64>>, u64), String>,
                now: u64,
            |
                key@ == self.jwt_key@ && #[trigger] decided(key, token, decoded, now, r),
    {
        let key: &str = self.jwt_key.as_str();
        let decoded: Result<(String, Option<u64>, Option<Vec<u64>>, u64), String> =
            decode_bucket_claims(key, token);
        let now: u64 = seconds_since_epoch();
        proof {
            let n = "invalid_jwt:"@.len() as int;
            assert(("invalid_jwt:"@ + decoded->Err_0@).take(n) =~= "invalid_jwt:"@);
        }
        let ghost gave = decoded;
        let r: Result<Claims, String> = check_decoded(decoded, now);
        assert(decided(key, token, gave, now, r));
        r
    }
}

/// What a token comes to, by what decoding it with the key gave and by the time of the clock: a
/// token that decodes is accepted with its claims exactly until its time is over.
pub proof fn law_tokens_are_good_until_they_expire(
    config: &AuthConfig,
    token: &str,
    r: Result<Claims, String>,
)
    requires
        call_ensures(AuthConfig::validate_jwt, (config, token), r),
    ensures
        exists|
            key: &str,
            decoded: Result<(String, Option<u64>, Option<Vec<u64>>, u64), String>,
            now: u64,
        | #![trigger bucket_decoder_gave(key, token, decoded), clock_gave(now)]
            {
                &&& key@ == config.jwt_key@
                &&& bucket_decoder_gave(key, token, decoded)
                &&& clock_gave(now)
                &&& match decoded {
                    Err(reason) => r matches Err(e) && e@ == "invalid_jwt:"@ + reason@,
                    Ok((sub, room_id, buckets, exp)) => match r {
                        Ok(claims) => {
                            &&& exp > now
                            &&& claims.sub@ == sub@
                            &&& claims.room_id == room_id
                            &&& optional_ids(claims.buckets) == optional_ids(buckets)
                            &&& claims.exp == exp
                        },
                        Err(e) => exp <= now && e@ == "expired_jwt"@,
                    },
                }
            },
{
    let (key, decoded, now) = choose|
        key: &str,
        decoded: Result<(String, Option<u64>, Option<Vec<u64>>, u64), String>,
        now: u64,
    |
        key@ == config.jwt_key@ && #[trigger] decided(key, token, decoded, now, r);
    assert(bucket_decoder_gave(key, token, decoded) && clock_gave(now));
}

} // verus!
