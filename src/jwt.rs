use vstd::prelude::*;
use crate::claims::{claims_from_payload, claims_json, claims_payload, payload_claims, Claims, ClaimsView};
use crate::error::{ApiError, AuthError};

verus! {

/// The token that `jsonwebtoken` signs for a payload and a secret.
pub uninterp spec fn signed_token(payload: Seq<char>, secret: Seq<char>) -> Seq<char>;

/// The payload of a token whose HS256 signature checks out under the secret.
pub uninterp spec fn verified_payload(token: Seq<char>, secret: Seq<char>) -> Option<Seq<char>>;

/// Relies on `jsonwebtoken::encode` with the default header (HS256) and an HMAC
/// key made of the secret's bytes. The payload goes in as a
/// `serde_json::value::RawValue`, so its text is signed as it is, and
/// `jsonwebtoken::decode` with the same secret gives that text back. A claim
/// payload is valid JSON, so `RawValue::from_string` accepts it, and encoding
/// with an HMAC key under HS256 does not fail.
#[verifier::external_body]
fn sign_payload(payload: &str, secret: &str) -> (r: Option<String>)
    requires
        payload_claims(payload@) is Some,
    ensures
        r is Some,
        r matches Some(t) ==> t@ == signed_token(payload@, secret@) && verified_payload(t@, secret@)
            == Some(payload@),
{
    let raw = serde_json::value::RawValue::from_string(payload.to_string()).ok()?;
    let key = jsonwebtoken::EncodingKey::from_secret(secret.as_bytes());
    jsonwebtoken::encode(&jsonwebtoken::Header::default(), &raw, &key).ok()
}

/// Relies on `jsonwebtoken::decode` restricted to HS256 with an HMAC key made of
/// the secret's bytes, checking the signature only (expiry is checked by the
/// caller against its own clock): the payload text, if the signature holds.
#[verifier::external_body]
fn verify_token(token: &str, secret: &str) -> (r: Option<String>)
    ensures
        match r {
            Some(p) => verified_payload(token@, secret@) == Some(p@),
            None => verified_payload(token@, secret@) is None,
        },
{
    let mut validation = jsonwebtoken::Validation::new(jsonwebtoken::Algorithm::HS256);
    validation.validate_exp = false;
    validation.validate_aud = false;
    validation.required_spec_claims.clear();
    let key = jsonwebtoken::DecodingKey::from_secret(secret.as_bytes());
    jsonwebtoken::decode::<Box<serde_json::value::RawValue>>(token, &key, &validation).ok().map(
        |d| d.claims.get().to_string(),
    )
}

/// Relies on `chrono::Utc::now`: the current time in seconds since the Unix
/// epoch. Nothing is promised of its value.
#[verifier::external_body]
pub(crate) fn now_timestamp() -> (r: i64) {
    chrono::Utc::now().timestamp()
}

/// What decoding `token` with `secret` at time `now` gives: the claims, if the
/// signature holds, the payload is a claim set and `exp` has not passed
/// (a token is still good in the second of its `exp`).
pub open spec fn token_claims(token: Seq<char>, secret: Seq<char>, now: i64) -> Result<
    ClaimsView,
    AuthError,
> {
    match verified_payload(token, secret) {
        None => Err(AuthError::TokenInvalid),
        Some(p) => match payload_claims(p) {
            None => Err(AuthError::TokenInvalid),
            Some(c) => if c.exp < now {
                Err(AuthError::TokenExpired)
            } else {
                Ok(c)
            },
        },
    }
}

/// `r` is the executable form of the outcome `s`.
pub open spec fn decoded_as(r: Result<Claims, ApiError>, s: Result<ClaimsView, AuthError>) -> bool {
    match (r, s) {
        (Ok(c), Ok(v)) => c@ == v,
        (Err(e), Err(a)) => e == ApiError::Auth(a),
        _ => false,
    }
}

/// Signs `claims` with `secret`.
pub fn generate_token(claims: &Claims, secret: &str) -> (r: Result<String, ApiError>)
    ensures
        r matches Ok(t) && t@ == signed_token(claims_json(claims@), secret@) && verified_payload(
            t@,
            secret@,
        ) == Some(claims_json(claims@)),
{
    let payload = claims_payload(claims);
    proof {
        crate::claims::lemma_payload_claims_of_json(claims@);
    }
    match sign_payload(payload.as_str(), secret) {
        Some(t) => Ok(t),
        None => Err(ApiError::Internal(String::from_str("token signing failed"))),
    }
}

/// Decodes `token` with `secret`, taking `now` as the current time.
pub fn decode_token_at(token: &str, secret: &str, now: i64) -> (r: Result<Claims, ApiError>)
    ensures
        decoded_as(r, token_claims(token@, secret@, now)),
{
    let payload = match verify_token(token, secret) {
        Some(p) => p,
        None => return Err(ApiError::Auth(AuthError::TokenInvalid)),
    };
    let claims = match claims_from_payload(payload.as_str()) {
        Some(c) => c,
        None => return Err(ApiError::Auth(AuthError::TokenInvalid)),
    };
    if claims.exp < now {
        Err(ApiError::Auth(AuthError::TokenExpired))
    } else {
        Ok(claims)
    }
}

/// Decodes `token` with `secret` at the current time.
pub fn decode_token(token: &str, secret: &str) -> (r: Result<Claims, ApiError>)
    ensures
        exists|now: i64| decoded_as(r, token_claims(token@, secret@, now)),
{
    let now = now_timestamp();
    decode_token_at(token, secret, now)
}

/// A token that carries the payload of `c` under `secret` decodes, while `c`
/// has not expired, to `c` itself.
pub proof fn law_token_round_trip(c: ClaimsView, secret: Seq<char>, token: Seq<char>, now: i64)
    requires
        verified_payload(token, secret) == Some(claims_json(c)),
        now <= c.exp,
    ensures
        token_claims(token, secret, now) == Ok::<ClaimsView, AuthError>(c),
{
    crate::claims::lemma_payload_claims_of_json(c);
}

/// A token whose signature holds but whose claims have expired decodes to
/// `TokenExpired`.
pub proof fn law_expired_token(c: ClaimsView, secret: Seq<char>, token: Seq<char>, now: i64)
    requires
        verified_payload(token, secret) == Some(claims_json(c)),
        c.exp < now,
    ensures
        token_claims(token, secret, now) == Err::<ClaimsView, AuthError>(AuthError::TokenExpired),
{
    crate::claims::lemma_payload_claims_of_json(c);
}

} // verus!
