use flatline::auth::{
    create_user, create_user_at, login, login_at, logout, logout_at, pairs_from_user_at, refresh, refresh_at,
    revoke_oldest_token, sweep_expired, AuthPayload,
};
use flatline::claims::Claims;
use flatline::config::Config;
use flatline::database::{Database, MockDatabase};
use flatline::error::{ApiError, AuthError};
use flatline::guard::{authenticate, authenticate_at, bearer_token, check_blacklist, require_admin, BlacklistAnswer};
use flatline::hasher::verify_hash;
use flatline::jwt::{decode_token, decode_token_at, generate_token};
use flatline::user::{RefreshToken, Role, User};

fn payload(username: &str, password: &str) -> AuthPayload {
    AuthPayload { username: username.to_string(), password: password.to_string() }
}

fn config(limit: usize) -> Config {
    let mut c = Config::default();
    c.user_session_limit = limit;
    c
}

#[test]
fn register_login_logout_scenario() {
    let mut db = MockDatabase::new();
    let cfg = config(5);

    let alice = create_user(&mut db, payload("alice", "pw1"), &[Role::User]);
    assert!(alice.is_ok());
    let alice = alice.unwrap();
    assert!(verify_hash(&alice.password_hash, "pw1"));

    assert_eq!(
        create_user(&mut db, payload("alice", "pw2"), &[Role::User]),
        Err(ApiError::Auth(AuthError::UsernameAlreadyTaken))
    );
    assert_eq!(db.find_all().unwrap().len(), 1);

    assert_eq!(
        login(&mut db, &cfg, payload("alice", "wrong")),
        Err(ApiError::Auth(AuthError::InvalidCredentials))
    );
    assert_eq!(
        login(&mut db, &cfg, payload("nobody", "pw1")),
        Err(ApiError::Auth(AuthError::InvalidCredentials))
    );

    let (access, refresh_token, evicted) = login(&mut db, &cfg, payload("alice", "pw1")).unwrap();
    assert_eq!(evicted, None);
    assert_eq!(db.find_by_sub(alice.id).unwrap().len(), 1);

    let access_claims = decode_token(&access, &cfg.jwt_access_secret).unwrap();
    assert_eq!(access_claims.sub, alice.id);
    assert_eq!(access_claims.username, "alice");
    assert!(!access_claims.admin);
    let refresh_claims = decode_token(&refresh_token, &cfg.jwt_refresh_secret).unwrap();
    assert_ne!(access_claims.jti, refresh_claims.jti);

    let stored = db.find_by_jti(refresh_claims.jti).unwrap().unwrap();
    assert!(verify_hash(&stored.token_hash, &refresh_token));
    assert_ne!(stored.token_hash, refresh_token);

    assert_eq!(logout(&mut db, &cfg, &refresh_token), Ok(Some(refresh_claims.jti)));
    assert_eq!(db.find_by_sub(alice.id).unwrap().len(), 0);
}

#[test]
fn session_limit_evicts_first_login() {
    let mut db = MockDatabase::new();
    let cfg = config(2);
    let bob = create_user(&mut db, payload("bob", "secret"), &[Role::User]).unwrap();

    let mut pairs = Vec::new();
    let mut evictions = Vec::new();
    for _ in 0..3 {
        let (a, r, e) = login(&mut db, &cfg, payload("bob", "secret")).unwrap();
        pairs.push((a, r));
        evictions.push(e);
    }
    assert_ne!(pairs[0], pairs[1]);
    assert_ne!(pairs[1], pairs[2]);
    assert_ne!(pairs[0], pairs[2]);

    let first = decode_token(&pairs[0].1, &cfg.jwt_refresh_secret).unwrap();
    assert_eq!(evictions[0], None);
    assert_eq!(evictions[1], None);
    assert_eq!(evictions[2].as_ref().map(|t| t.jti), Some(first.jti));

    let rows = db.find_by_sub(bob.id).unwrap();
    assert_eq!(rows.len(), 2);
    assert!(rows.iter().all(|t| t.jti != first.jti));
    assert_eq!(db.find_by_jti(first.jti).unwrap(), None);
}

#[test]
fn revoke_oldest_picks_smallest_issue_time() {
    let mut db = MockDatabase::new();
    for (jti, iat) in [(1u128, 30i64), (2, 10), (3, 20)] {
        db.create_token(RefreshToken::new(jti, 7, 1_000, iat, String::new())).unwrap();
    }
    db.create_token(RefreshToken::new(4, 8, 1_000, 0, String::new())).unwrap();
    assert_eq!(revoke_oldest_token(&mut db, 7, 4, 0).unwrap(), None);
    assert_eq!(revoke_oldest_token(&mut db, 7, 3, 0).unwrap().map(|t| t.jti), Some(2));
    assert_eq!(db.find_by_sub(7).unwrap().len(), 2);
    assert_eq!(db.find_by_sub(8).unwrap().len(), 1);
    assert_eq!(revoke_oldest_token(&mut db, 9, 0, 0).unwrap(), None);
}

#[test]
fn revoke_oldest_counts_only_live_sessions() {
    let mut db = MockDatabase::new();
    db.create_token(RefreshToken::new(1, 7, 50, 1, String::new())).unwrap();
    db.create_token(RefreshToken::new(2, 7, 500, 5, String::new())).unwrap();
    db.create_token(RefreshToken::new(3, 7, 500, 3, String::new())).unwrap();
    // at time 100 the first record has expired: two live sessions remain
    assert_eq!(revoke_oldest_token(&mut db, 7, 3, 100).unwrap(), None);
    assert_eq!(revoke_oldest_token(&mut db, 7, 2, 100).unwrap().map(|t| t.jti), Some(3));
    assert_eq!(db.find_by_jti(1).unwrap().map(|t| t.jti), Some(1));
}

#[test]
fn logout_of_unknown_session_is_none() {
    let mut db = MockDatabase::new();
    let cfg = config(5);
    create_user(&mut db, payload("carol", "pw"), &[Role::User]).unwrap();
    let (_, refresh_token, _) = login(&mut db, &cfg, payload("carol", "pw")).unwrap();
    let jti = decode_token(&refresh_token, &cfg.jwt_refresh_secret).unwrap().jti;
    assert_eq!(logout(&mut db, &cfg, &refresh_token), Ok(Some(jti)));
    assert_eq!(logout(&mut db, &cfg, &refresh_token), Ok(None));
}

#[test]
fn logout_with_bad_or_expired_token_fails() {
    let mut db = MockDatabase::new();
    let cfg = config(5);
    assert_eq!(
        logout(&mut db, &cfg, "garbage"),
        Err(ApiError::Auth(AuthError::TokenInvalid))
    );
    let claims = Claims::new(1, 100, 50, 2, "u".to_string(), "user".to_string(), false);
    let token = generate_token(&claims, &cfg.jwt_refresh_secret).unwrap();
    assert_eq!(
        logout_at(&mut db, &cfg, &token, 101),
        Err(ApiError::Auth(AuthError::TokenExpired))
    );
    assert_eq!(logout_at(&mut db, &cfg, &token, 100), Ok(None));
}

#[test]
fn refresh_mints_access_token_for_stored_session() {
    let mut db = MockDatabase::new();
    let cfg = config(5);
    let dave = create_user(&mut db, payload("dave", "pw"), &[Role::User, Role::Admin]).unwrap();
    let (_, refresh_token, _) = login(&mut db, &cfg, payload("dave", "pw")).unwrap();

    let access = refresh(&db, &cfg, &refresh_token).unwrap();
    let claims = decode_token(&access, &cfg.jwt_access_secret).unwrap();
    assert_eq!(claims.sub, dave.id);
    assert!(claims.admin);
    assert_eq!(claims.roles, "user,admin");

    let now = chrono::Utc::now().timestamp();
    let minted = refresh_at(&db, &cfg, &refresh_token, now, 77).unwrap();
    let minted_claims = decode_token_at(&minted, &cfg.jwt_access_secret, now).unwrap();
    assert_eq!(minted_claims.jti, 77);
    assert_eq!(minted_claims.iat, now);
    assert_eq!(minted_claims.exp, now + cfg.jwt_access_expiration);

    logout(&mut db, &cfg, &refresh_token).unwrap();
    assert_eq!(
        refresh(&db, &cfg, &refresh_token),
        Err(ApiError::Auth(AuthError::TokenInvalid))
    );
    assert_eq!(
        refresh(&db, &cfg, &access),
        Err(ApiError::Auth(AuthError::TokenInvalid))
    );
}

#[test]
fn pairs_carry_user_claims_and_expiry() {
    let user = User::new("erin", "h", &[Role::User]);
    let (access, refresh_token, record) =
        pairs_from_user_at(&user, 1_000, 60, 600, "a", "r", 11, 12).unwrap();
    let a = decode_token_at(&access, "a", 1_000).unwrap();
    let r = decode_token_at(&refresh_token, "r", 1_000).unwrap();
    assert_eq!((a.sub, a.exp, a.iat, a.admin), (user.id, 1_060, 1_000, false));
    assert_eq!((r.exp, r.iat), (1_600, 1_000));
    assert_eq!((record.jti, record.sub, record.exp, record.iat), (r.jti, user.id, 1_600, 1_000));
    assert_eq!((a.jti, r.jti), (11, 12));
    assert!(verify_hash(&record.token_hash, &refresh_token));
    assert!(matches!(
        pairs_from_user_at(&user, i64::MAX, 1, 1, "a", "r", 1, 2),
        Err(ApiError::Internal(_))
    ));
}

#[test]
fn sweep_removes_expired_sessions() {
    let mut db = MockDatabase::new();
    db.create_token(RefreshToken::new(1, 1, 10, 0, String::new())).unwrap();
    db.create_token(RefreshToken::new(2, 1, 30, 0, String::new())).unwrap();
    assert_eq!(sweep_expired(&mut db, 20), Ok(1));
    assert_eq!(db.find_by_sub(1).unwrap().len(), 1);
}

#[test]
fn guard_checks_bearer_header() {
    let cfg = config(5);
    let claims = Claims::new(5, 2_000, 1_000, 6, "f".to_string(), "user".to_string(), false);
    let token = generate_token(&claims, &cfg.jwt_access_secret).unwrap();
    let header = format!("Bearer {}", token);

    assert_eq!(bearer_token(Some(&header)), Ok(token.clone()));
    assert_eq!(bearer_token(Some("Basic abc")), Err(ApiError::Auth(AuthError::Unauthorized)));
    assert_eq!(bearer_token(Some(&token)), Err(ApiError::Auth(AuthError::Unauthorized)));
    assert_eq!(bearer_token(None), Err(ApiError::Auth(AuthError::Unauthorized)));
    assert_eq!(bearer_token(Some("Bearer ")), Ok(String::new()));

    assert_eq!(authenticate_at(Some(&header), &cfg.jwt_access_secret, 1_500), Ok(claims.clone()));
    assert_eq!(
        authenticate_at(Some(&header), &cfg.jwt_access_secret, 2_001),
        Err(ApiError::Auth(AuthError::TokenExpired))
    );
    assert_eq!(
        authenticate_at(Some(&header), &cfg.jwt_refresh_secret, 1_500),
        Err(ApiError::Auth(AuthError::TokenInvalid))
    );
    assert_eq!(
        authenticate(None, &cfg.jwt_access_secret),
        Err(ApiError::Auth(AuthError::Unauthorized))
    );
}

#[test]
fn blacklist_and_admin_checks() {
    let claims = Claims::new(5, 2_000, 1_000, 6, "f".to_string(), "user".to_string(), false);
    assert_eq!(check_blacklist(claims.clone(), BlacklistAnswer::NotConfigured), Ok(claims.clone()));
    assert_eq!(check_blacklist(claims.clone(), BlacklistAnswer::NotListed), Ok(claims.clone()));
    assert_eq!(
        check_blacklist(claims.clone(), BlacklistAnswer::Listed),
        Err(ApiError::Auth(AuthError::Unauthorized))
    );
    assert_eq!(
        check_blacklist(claims.clone(), BlacklistAnswer::Unavailable),
        Err(ApiError::Auth(AuthError::Unauthorized))
    );
    assert_eq!(require_admin(&claims), Err(ApiError::Auth(AuthError::Forbidden)));
    let admin = Claims::new(5, 2_000, 1_000, 6, "g".to_string(), "user,admin".to_string(), true);
    assert_eq!(require_admin(&admin), Ok(()));
    assert!(admin.has_role(Role::Admin));
    assert!(!claims.has_role(Role::Admin));
}

#[test]
fn error_status_codes() {
    assert_eq!(AuthError::InvalidCredentials.status_code(), 401);
    assert_eq!(AuthError::Unauthorized.status_code(), 401);
    assert_eq!(AuthError::Forbidden.status_code(), 403);
    assert_eq!(AuthError::TokenInvalid.status_code(), 401);
    assert_eq!(AuthError::TokenExpired.status_code(), 401);
    assert_eq!(AuthError::UsernameAlreadyTaken.status_code(), 409);
    assert_eq!(ApiError::BadRequest(String::new()).status_code(), 400);
    assert_eq!(ApiError::NotFound(String::new()).status_code(), 404);
    assert_eq!(ApiError::Internal(String::new()).status_code(), 500);
    assert!(!ApiError::Internal(String::new()).is_public());
    assert!(ApiError::Auth(AuthError::Forbidden).is_public());
}

#[test]
fn login_at_names_tokens_and_record() {
    let mut db = MockDatabase::new();
    let cfg = config(1);
    let gina = create_user(&mut db, payload("gina", "pw"), &[Role::User]).unwrap();
    let (a, r, ev) = login_at(&mut db, &cfg, payload("gina", "pw"), 5_000, 21, 22).unwrap();
    assert_eq!(ev, None);
    let ca = decode_token_at(&a, &cfg.jwt_access_secret, 5_000).unwrap();
    let cr = decode_token_at(&r, &cfg.jwt_refresh_secret, 5_000).unwrap();
    assert_eq!((ca.jti, ca.iat, ca.exp), (21, 5_000, 5_000 + cfg.jwt_access_expiration));
    assert_eq!((cr.jti, cr.iat, cr.exp), (22, 5_000, 5_000 + cfg.jwt_refresh_expiration));
    let row = db.find_by_jti(22).unwrap().unwrap();
    assert_eq!((row.sub, row.iat, row.exp), (gina.id, 5_000, cr.exp));
    assert!(verify_hash(&row.token_hash, &r));

    // a second login at the limit of one evicts the first session
    let (_, _, ev) = login_at(&mut db, &cfg, payload("gina", "pw"), 5_001, 23, 24).unwrap();
    assert_eq!(ev.map(|t| t.jti), Some(22));
    assert_eq!(db.find_by_sub(gina.id).unwrap().len(), 1);
    // a reused token id is refused by the store
    assert!(matches!(
        login_at(&mut db, &config(5), payload("gina", "pw"), 5_002, 25, 24),
        Err(ApiError::Internal(_))
    ));
}

#[test]
fn create_user_at_uses_given_id_and_time() {
    let mut db = MockDatabase::new();
    let u = create_user_at(&mut db, payload("hank", "pw"), &[Role::User, Role::Admin], 42, 1_234).unwrap();
    assert_eq!((u.id, u.created_at, u.updated_at), (42, 1_234, 1_234));
    assert_eq!(u.roles, "user,admin");
    assert!(verify_hash(&u.password_hash, "pw"));
    assert_eq!(
        create_user_at(&mut db, payload("hank", "other"), &[Role::User], 43, 1_235),
        Err(ApiError::Auth(AuthError::UsernameAlreadyTaken))
    );
    assert!(matches!(
        create_user_at(&mut db, payload("ivy", "pw"), &[Role::User], 42, 1_236),
        Err(ApiError::Internal(_))
    ));
    assert_eq!(db.find_all().unwrap().len(), 1);
}
