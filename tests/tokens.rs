use flatline::claims::{claims_from_payload, claims_payload, Claims};
use flatline::error::{ApiError, AuthError};
use flatline::jwt::{decode_token, decode_token_at, generate_token};

const ACCESS_SECONDS: i64 = 15 * 60;
const REFRESH_SECONDS: i64 = 30 * 24 * 60 * 60;

fn now() -> i64 {
    chrono::Utc::now().timestamp()
}

fn sample(exp: i64, iat: i64) -> Claims {
    Claims {
        sub: uuid::Uuid::new_v4().as_u128(),
        exp,
        iat,
        jti: uuid::Uuid::new_v4().as_u128(),
        username: "test_user".to_owned(),
        roles: "user,admin".to_owned(),
        admin: true,
    }
}

#[test]
fn generate_jwt_token() {
    let now = now();
    let claims = sample(now + ACCESS_SECONDS, now);

    let token = generate_token(&claims, "test_secret");
    assert!(token.is_ok());
}

#[test]
fn decode_jwt_token_correct() {
    let now = now();
    let claims = sample(now + REFRESH_SECONDS, now);

    let token = generate_token(&claims, "another_test_secret");
    assert!(token.is_ok());

    let result = decode_token(&token.unwrap(), "another_test_secret");
    assert!(result.is_ok());
    assert_eq!(claims, result.unwrap());
}

#[test]
fn decode_invalid_jwt_token_failed() {
    let token = "invalid_token";
    let result = decode_token(&token, "bad_jwt_secret");
    assert!(result.is_err());
    assert!(matches!(result, Err(ApiError::Auth(AuthError::TokenInvalid))));
}

#[test]
fn decode_expired_jwt_token_failed() {
    let now = now();
    let claims = sample(now - REFRESH_SECONDS, now);

    let token = generate_token(&claims, "test_secret");
    assert!(token.is_ok());

    let result = decode_token(&token.unwrap(), "test_secret");
    assert!(result.is_err());
    assert!(matches!(result, Err(ApiError::Auth(AuthError::TokenExpired))));
}

#[test]
fn wrong_secret_is_invalid_never_ok() {
    let now = now();
    let claims = sample(now + ACCESS_SECONDS, now);
    let token = generate_token(&claims, "right_secret").unwrap();
    for secret in ["wrong_secret", "right_secreT", "", "right_secret "] {
        assert_eq!(
            decode_token(&token, secret),
            Err(ApiError::Auth(AuthError::TokenInvalid))
        );
    }
}

#[test]
fn expired_even_with_valid_signature_and_expiry_boundary() {
    let claims = sample(1_000, 900);
    let token = generate_token(&claims, "k").unwrap();
    assert_eq!(decode_token_at(&token, "k", 999), Ok(claims.clone()));
    assert_eq!(decode_token_at(&token, "k", 1_000), Ok(claims.clone()));
    assert_eq!(
        decode_token_at(&token, "k", 1_001),
        Err(ApiError::Auth(AuthError::TokenExpired))
    );
    assert_eq!(
        decode_token_at(&token, "other", 1_001),
        Err(ApiError::Auth(AuthError::TokenInvalid))
    );
}

#[test]
fn tampered_token_is_invalid() {
    let claims = sample(10_000, 1);
    let token = generate_token(&claims, "k").unwrap();
    let mut parts: Vec<&str> = token.split('.').collect();
    let other = generate_token(&sample(10_000, 1), "k").unwrap();
    let other_parts: Vec<&str> = other.split('.').collect();
    parts[1] = other_parts[1];
    let forged = parts.join(".");
    assert_eq!(
        decode_token_at(&forged, "k", 5),
        Err(ApiError::Auth(AuthError::TokenInvalid))
    );
}

#[test]
fn payload_text_is_exact() {
    let claims = Claims {
        sub: 0x0123_4567_89ab_cdef_0011_2233_4455_6677,
        exp: 1_700_000_900,
        iat: -5,
        jti: 1,
        username: "a\"b\\c\nd".to_owned(),
        roles: "user".to_owned(),
        admin: false,
    };
    assert_eq!(
        claims_payload(&claims),
        "{\"sub\":\"01234567-89ab-cdef-0011-223344556677\",\"exp\":1700000900,\"iat\":-5,\
         \"jti\":\"00000000-0000-0000-0000-000000000001\",\"username\":\"a\\\"b\\\\c\\u000ad\",\
         \"roles\":\"user\",\"admin\":false}"
    );
}

#[test]
fn payload_round_trip_with_odd_strings() {
    for name in ["", "ünïcödé ✓", "tab\there", "\u{1}\u{1f}", "quote\"back\\slash"] {
        let mut claims = sample(i64::MAX, i64::MIN);
        claims.username = name.to_owned();
        claims.roles = format!("{},admin", name);
        let text = claims_payload(&claims);
        assert_eq!(claims_from_payload(&text), Some(claims.clone()));
        let token = generate_token(&claims, "s").unwrap();
        assert_eq!(decode_token_at(&token, "s", 0), Ok(claims));
    }
}

#[test]
fn non_canonical_payload_is_rejected() {
    let claims = sample(5, 1);
    let text = claims_payload(&claims);
    assert_eq!(claims_from_payload(&format!(" {}", text)), None);
    assert_eq!(claims_from_payload(&text.replace(":", ": ")), None);
    assert_eq!(claims_from_payload(&text.replace("\"exp\":5", "\"exp\":05")), None);
    assert_eq!(claims_from_payload(&text.to_uppercase()), None);
    assert_eq!(claims_from_payload(&text[..text.len() - 1]), None);
    assert_eq!(claims_from_payload("{}"), None);
}
