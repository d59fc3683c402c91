use vstd::prelude::*;
use vstd::set_lib::lemma_len_subset;
use crate::claims::{claims_json, Claims, ClaimsView};
use crate::config::Config;
use crate::database::{name_taken, sessions_of, live_sessions, Database};
use crate::error::{ApiError, AuthError};
use crate::hasher::{argon2_accepts, hash_string, verify_hash, MAX_SECRET_BYTES};
use crate::ids::new_id;
use crate::jwt::{decode_token_at, generate_token, now_timestamp, signed_token, token_claims, verified_payload};
use vstd::utf8::encode_utf8;
use crate::user::{roles_of, roles_text, RefreshToken, RefreshTokenView, Role, User, UserView};

verus! {

/// The credentials that a client sends to register or to log in.
#[derive(Debug, Clone, PartialEq, Eq)]
pub struct AuthPayload {
    pub username: String,
    pub password: String,
}

/// The refresh token that a client sends to log out or to refresh.
#[derive(Debug, Clone, PartialEq, Eq)]
pub struct RefreshPayload {
    pub refresh_token: String,
}

/// The claims that a token issued to `u` carries.
pub open spec fn user_claims(u: UserView, exp: i64, iat: i64, jti: u128) -> ClaimsView {
    ClaimsView {
        sub: u.id,
        exp,
        iat,
        jti,
        username: u.username,
        roles: u.roles,
        admin: roles_of(u.roles).contains(Role::Admin),
    }
}

/// `token` is signed with `secret` and carries `c`.
pub open spec fn signs(token: Seq<char>, secret: Seq<char>, c: ClaimsView) -> bool {
    verified_payload(token, secret) == Some(claims_json(c))
}

/// The token that signing the claims of `u` with `secret` gives.
pub open spec fn user_token(u: UserView, exp: i64, iat: i64, jti: u128, secret: Seq<char>) -> Seq<char> {
    signed_token(claims_json(user_claims(u, exp, iat, jti)), secret)
}

/// Whether a token is short enough for Argon2 to hash it.
pub open spec fn hashable(t: Seq<char>) -> bool {
    (encode_utf8(t).len() as usize) <= MAX_SECRET_BYTES
}

pub open spec fn view_of(t: Option<RefreshToken>) -> Option<RefreshTokenView> {
    match t {
        Some(x) => Some(x@),
        None => None,
    }
}

/// The ids of the records of subject `sub` that have not expired at `now`.
pub open spec fn live_of(s: Map<u128, RefreshTokenView>, sub: u128, now: i64) -> Set<u128> {
    s.dom().filter(|j: u128| s[j].sub == sub && s[j].exp >= now)
}

/// `t` is the live record of subject `sub` in `s` that was issued first.
pub open spec fn oldest_of(s: Map<u128, RefreshTokenView>, sub: u128, now: i64, t: RefreshTokenView) -> bool {
    &&& s.contains_key(t.jti)
    &&& s[t.jti] == t
    &&& t.sub == sub
    &&& t.exp >= now
    &&& forall|j: u128| #[trigger] live_of(s, sub, now).contains(j) ==> t.iat <= s[j].iat
}

/// The eviction step of a login at `now`: with `limit` or more live sessions,
/// the oldest live one of `sub` is removed from `s0`, leaving `s1`; with
/// fewer, nothing changes.
pub open spec fn evicted_as(
    s0: Map<u128, RefreshTokenView>,
    sub: u128,
    limit: usize,
    now: i64,
    evicted: Option<RefreshTokenView>,
    s1: Map<u128, RefreshTokenView>,
) -> bool {
    match evicted {
        None => s1 == s0 && (live_of(s0, sub, now).len() < limit || live_of(s0, sub, now).len() == 0),
        Some(t) => live_of(s0, sub, now).len() >= limit && oldest_of(s0, sub, now, t) && s1 == s0.remove(
            t.jti,
        ),
    }
}

/// What is left of `s0` once `evicted` is removed.
pub open spec fn after_eviction(s0: Map<u128, RefreshTokenView>, evicted: Option<RefreshTokenView>) -> Map<u128, RefreshTokenView> {
    match evicted {
        Some(t) => s0.remove(t.jti),
        None => s0,
    }
}

/// Whether a token pair for `u` can be issued at `now`: both expiries fit and
/// the refresh token, with id `rjti`, can be hashed.
pub open spec fn pair_fits(u: UserView, now: i64, access_ttl: i64, refresh_ttl: i64, refresh_secret: Seq<char>, rjti: u128) -> bool {
    &&& i64::MIN <= now + access_ttl <= i64::MAX
    &&& i64::MIN <= now + refresh_ttl <= i64::MAX
    &&& hashable(user_token(u, (now + refresh_ttl) as i64, now, rjti, refresh_secret))
}

/// An access token with id `ajti` and a refresh token with id `rjti` for `u`,
/// issued at `now`, and the record of the refresh token.
pub open spec fn issued_pair(
    u: UserView,
    now: i64,
    access_ttl: i64,
    refresh_ttl: i64,
    access_secret: Seq<char>,
    refresh_secret: Seq<char>,
    ajti: u128,
    rjti: u128,
    access: Seq<char>,
    refresh: Seq<char>,
    rec: RefreshTokenView,
) -> bool {
    &&& access == user_token(u, (now + access_ttl) as i64, now, ajti, access_secret)
    &&& signs(access, access_secret, user_claims(u, (now + access_ttl) as i64, now, ajti))
    &&& refresh == user_token(u, (now + refresh_ttl) as i64, now, rjti, refresh_secret)
    &&& signs(refresh, refresh_secret, user_claims(u, (now + refresh_ttl) as i64, now, rjti))
    &&& rec.jti == rjti
    &&& rec.sub == u.id
    &&& rec.exp == now + refresh_ttl
    &&& rec.iat == now
    &&& argon2_accepts(rec.token_hash, refresh)
}

/// What issuing a pair may give: a pair exactly when one fits.
pub open spec fn pair_outcome(
    u: UserView,
    now: i64,
    access_ttl: i64,
    refresh_ttl: i64,
    access_secret: Seq<char>,
    refresh_secret: Seq<char>,
    ajti: u128,
    rjti: u128,
    r: Result<(String, String, RefreshToken), ApiError>,
) -> bool {
    match r {
        Ok((a, t, rec)) => pair_fits(u, now, access_ttl, refresh_ttl, refresh_secret, rjti) && issued_pair(
            u,
            now,
            access_ttl,
            refresh_ttl,
            access_secret,
            refresh_secret,
            ajti,
            rjti,
            a@,
            t@,
            rec@,
        ),
        Err(e) => e is Internal && !pair_fits(u, now, access_ttl, refresh_ttl, refresh_secret, rjti),
    }
}

/// Some user named `name` has a password hash that `password` matches.
pub open spec fn credentials_match(users: Map<u128, UserView>, name: Seq<char>, password: Seq<char>) -> bool {
    exists|id: u128|
        users.contains_key(id) && #[trigger] users[id].username == name && argon2_accepts(
            users[id].password_hash,
            password,
        )
}

impl Claims {
    /// The claims of a token with id `jti` issued to `user`.
    pub fn for_user(user: &User, exp: i64, iat: i64, jti: u128) -> (r: Claims)
        ensures
            r@ == user_claims(user@, exp, iat, jti),
    {
        Claims {
            sub: user.id,
            exp,
            iat,
            jti,
            username: user.username.clone(),
            roles: user.roles.clone(),
            admin: user.has_role(Role::Admin),
        }
    }

    /// Fresh claims for a token issued to `user`, with a new token id.
    pub fn from_user(user: &User, exp: i64, iat: i64) -> (r: Claims)
        ensures
            r@ == user_claims(user@, exp, iat, r.jti),
    {
        Claims::for_user(user, exp, iat, new_id())
    }
}

/// Makes room for a new session of `sub` at time `now`: with `limit` or more
/// live sessions stored, removes the live one issued first and hands it back.
pub fn revoke_oldest_token<D: Database>(db: &mut D, sub: u128, limit: usize, now: i64) -> (r: Result<
    Option<RefreshToken>,
    ApiError,
>)
    requires
        old(db).well_formed(),
    ensures
        final(db).well_formed(),
        final(db).users() == old(db).users(),
        final(db).reliable() == old(db).reliable(),
        old(db).reliable() ==> r is Ok,
        r matches Ok(ev) ==> evicted_as(old(db).sessions(), sub, limit, now, view_of(ev), final(db).sessions()),
        r matches Err(e) ==> e is Internal && final(db).sessions() == old(db).sessions(),
{
    let tokens = match db.find_by_sub(sub) {
        Ok(t) => t,
        Err(e) => return Err(e),
    };
    let ghost s0 = db.sessions();
    let mut live: Vec<RefreshToken> = Vec::new();
    let ghost mut js: Seq<u128> = Seq::empty();
    let mut i: usize = 0;
    while i < tokens.len()
        invariant
            s0 == db.sessions(),
            i <= tokens@.len(),
            forall|k: int| 0 <= k < tokens@.len() ==> s0.contains_key(#[trigger] tokens@[k].jti)
                && s0[tokens@[k].jti] == tokens@[k]@ && tokens@[k].sub == sub,
            forall|a: int, b: int| 0 <= a < tokens@.len() && 0 <= b < tokens@.len() && a != b ==> tokens@[a].jti != tokens@[b].jti,
            live@.len() == js.len(),
            js.no_duplicates(),
            forall|k: int| 0 <= k < live@.len() ==> js[k] == (#[trigger] live@[k]).jti && s0.contains_key(live@[k].jti)
                && s0[live@[k].jti] == live@[k]@ && live@[k].sub == sub && live@[k].exp >= now,
            forall|k: int| 0 <= k < i && (#[trigger] tokens@[k]).exp >= now ==> js.contains(tokens@[k].jti),
            forall|k: int| 0 <= k < js.len() ==> exists|m: int| 0 <= m < i && tokens@[m].jti == #[trigger] js[k],
        decreases tokens@.len() - i,
    {
        if tokens[i].exp >= now {
            let ghost old_js = js;
            let ghost old_live = live@;
            proof {
                assert forall|k: int| 0 <= k < old_js.len() implies old_js[k] != tokens@[i as int].jti by {
                    let m = choose|m: int| 0 <= m < i && tokens@[m].jti == old_js[k];
                }
            }
            live.push(tokens[i].duplicate());
            proof {
                js = js.push(tokens@[i as int].jti);
                assert forall|k: int| 0 <= k < live@.len() implies js[k] == (#[trigger] live@[k]).jti
                    && s0.contains_key(live@[k].jti) && s0[live@[k].jti] == live@[k]@ && live@[k].sub == sub
                    && live@[k].exp >= now by {
                    if k < old_live.len() {
                        assert(live@[k] == old_live[k]);
                    }
                }
                assert forall|k: int| 0 <= k < js.len() implies exists|m: int| 0 <= m < i + 1 && tokens@[m].jti == #[trigger] js[k] by {
                    if k < old_js.len() {
                        let m = choose|m: int| 0 <= m < i && tokens@[m].jti == old_js[k];
                        assert(tokens@[m].jti == js[k]);
                    } else {
                        assert(tokens@[i as int].jti == js[k]);
                    }
                }
                assert forall|k: int| 0 <= k < i + 1 && (#[trigger] tokens@[k]).exp >= now implies js.contains(tokens@[k].jti) by {
                    if k < i {
                        assert(old_js.contains(tokens@[k].jti));
                        let x = choose|x: int| 0 <= x < old_js.len() && old_js[x] == tokens@[k].jti;
                        assert(js[x] == old_js[x]);
                    } else {
                        assert(js[old_js.len() as int] == tokens@[k].jti);
                    }
                }
            }
        }
        i += 1;
    }
    proof {
        assert forall|j: u128| #[trigger] js.to_set().contains(j) <==> live_of(s0, sub, now).contains(j) by {
            if js.to_set().contains(j) {
                let k = choose|k: int| 0 <= k < js.len() && js[k] == j;
                assert(live@[k].jti == j);
            }
            if live_of(s0, sub, now).contains(j) {
                assert(sessions_of(s0, sub).contains(j));
                let m = choose|m: int| 0 <= m < tokens@.len() && tokens@[m].jti == j;
                assert(tokens@[m].exp >= now);
            }
        }
        assert(js.to_set() =~= live_of(s0, sub, now));
        js.unique_seq_to_set();
    }
    if live.len() < limit || live.len() == 0 {
        return Ok(None);
    }
    let mut best: usize = 0;
    let mut i: usize = 1;
    while i < live.len()
        invariant
            0 < live@.len(),
            best < live@.len(),
            1 <= i <= live@.len(),
            forall|k: int| 0 <= k < i ==> live@[best as int].iat <= #[trigger] live@[k].iat,
        decreases live@.len() - i,
    {
        if live[i].iat < live[best].iat {
            best = i;
        }
        i += 1;
    }
    proof {
        assert forall|j: u128| #[trigger] live_of(s0, sub, now).contains(j) implies live@[best as int].iat
            <= s0[j].iat by {
            assert(js.to_set().contains(j));
            let k = choose|k: int| 0 <= k < js.len() && js[k] == j;
            assert(live@[k].jti == j);
        }
    }
    let jti = live[best].jti;
    match db.delete_by_jti(jti) {
        Ok(Some(t)) => Ok(Some(t)),
        Ok(None) => Err(ApiError::Internal(String::from_str("session vanished while revoking"))),
        Err(e) => Err(e),
    }
}

/// Adds `ttl` seconds to `now`, if the sum fits.
fn expiry(now: i64, ttl: i64) -> (r: Option<i64>)
    ensures
        r matches Some(e) ==> e == now + ttl,
        r is None ==> !(i64::MIN <= now + ttl <= i64::MAX),
{
    now.checked_add(ttl)
}

/// Issues, for `user` at time `now`, an access token with id `ajti`, a refresh
/// token with id `rjti`, and the record of the refresh token, which holds a
/// hash of its text.
pub fn pairs_from_user_at(
    user: &User,
    now: i64,
    aexp: i64,
    rexp: i64,
    asecret: &str,
    rsecret: &str,
    ajti: u128,
    rjti: u128,
) -> (r: Result<(String, String, RefreshToken), ApiError>)
    ensures
        pair_outcome(user@, now, aexp, rexp, asecret@, rsecret@, ajti, rjti, r),
{
    let access_exp = match expiry(now, aexp) {
        Some(e) => e,
        None => return Err(ApiError::Internal(String::from_str("access token expiry out of range"))),
    };
    let refresh_exp = match expiry(now, rexp) {
        Some(e) => e,
        None => return Err(ApiError::Internal(String::from_str("refresh token expiry out of range"))),
    };
    let access_claims = Claims::for_user(user, access_exp, now, ajti);
    let refresh_claims = Claims::for_user(user, refresh_exp, now, rjti);
    let access_token = generate_token(&access_claims, asecret)?;
    let refresh_token = generate_token(&refresh_claims, rsecret)?;
    if refresh_token.as_str().len() > MAX_SECRET_BYTES {
        return Err(ApiError::Internal(String::from_str("refresh token too long to hash")));
    }
    let token_hash = hash_string(refresh_token.as_str());
    let record = RefreshToken::new(
        refresh_claims.jti,
        refresh_claims.sub,
        refresh_claims.exp,
        refresh_claims.iat,
        token_hash,
    );
    Ok((access_token, refresh_token, record))
}

/// Issues an access and a refresh token for `user` now, with fresh ids.
pub fn pairs_from_user(
    user: &User,
    aexp: i64,
    rexp: i64,
    asecret: &str,
    rsecret: &str,
) -> (r: Result<(String, String, RefreshToken), ApiError>)
    ensures
        exists|now: i64, ajti: u128, rjti: u128| #[trigger] pair_outcome(user@, now, aexp, rexp, asecret@, rsecret@, ajti, rjti, r),
{
    let now = now_timestamp();
    pairs_from_user_at(user, now, aexp, rexp, asecret, rsecret, new_id(), new_id())
}

/// Whether a login by `name` at `now` can store its refresh token with id
/// `rjti`: the id is free and the pair fits for the user of that name.
pub open spec fn login_fits(users: Map<u128, UserView>, s0: Map<u128, RefreshTokenView>, config: &Config, name: Seq<char>, now: i64, rjti: u128) -> bool {
    &&& !s0.contains_key(rjti)
    &&& forall|id: u128| users.contains_key(id) && #[trigger] users[id].username == name ==> pair_fits(
        users[id],
        now,
        config.jwt_access_expiration,
        config.jwt_refresh_expiration,
        config.jwt_refresh_secret@,
        rjti,
    )
}

/// One way a login at `now` can have gone: user `u`, matched by the
/// password, got the tokens `access` (id `ajti`) and `refresh` (id `rjti`);
/// the eviction step left `after_eviction(s0, evicted)`, to which the record
/// `rec` was added.
pub open spec fn login_step(
    users: Map<u128, UserView>,
    s0: Map<u128, RefreshTokenView>,
    s2: Map<u128, RefreshTokenView>,
    config: &Config,
    name: Seq<char>,
    password: Seq<char>,
    now: i64,
    ajti: u128,
    rjti: u128,
    access: Seq<char>,
    refresh: Seq<char>,
    evicted: Option<RefreshTokenView>,
    u: UserView,
    rec: RefreshTokenView,
) -> bool {
    &&& users.contains_key(u.id)
    &&& users[u.id] == u
    &&& u.username == name
    &&& argon2_accepts(u.password_hash, password)
    &&& evicted_as(s0, u.id, config.user_session_limit, now, evicted, after_eviction(s0, evicted))
    &&& issued_pair(
        u,
        now,
        config.jwt_access_expiration,
        config.jwt_refresh_expiration,
        config.jwt_access_secret@,
        config.jwt_refresh_secret@,
        ajti,
        rjti,
        access,
        refresh,
        rec,
    )
    &&& !after_eviction(s0, evicted).contains_key(rec.jti)
    &&& s2 == after_eviction(s0, evicted).insert(rec.jti, rec)
}

/// `s2` is `s0`, or `s0` less one of its records: at most the eviction step
/// of a login happened.
pub open spec fn at_most_evicted(s0: Map<u128, RefreshTokenView>, s2: Map<u128, RefreshTokenView>) -> bool {
    s2 == s0 || exists|j: u128| s0.contains_key(j) && #[trigger] s0.remove(j) == s2
}

/// Some user logged in as `login_step` describes.
pub open spec fn logged_in(
    users: Map<u128, UserView>,
    s0: Map<u128, RefreshTokenView>,
    s2: Map<u128, RefreshTokenView>,
    config: &Config,
    name: Seq<char>,
    password: Seq<char>,
    now: i64,
    ajti: u128,
    rjti: u128,
    access: Seq<char>,
    refresh: Seq<char>,
    evicted: Option<RefreshTokenView>,
) -> bool {
    exists|u: UserView, rec: RefreshTokenView|
        #[trigger] login_step(users, s0, s2, config, name, password, now, ajti, rjti, access, refresh, evicted, u, rec)
}

/// What a login at `now` may give and leave of the sessions: on success a
/// `login_step`; `InvalidCredentials`, with the sessions untouched, exactly
/// when no user of that name matches the password; an internal error only
/// where the store may fail or the pair does not fit.
pub open spec fn login_outcome(
    users: Map<u128, UserView>,
    s0: Map<u128, RefreshTokenView>,
    s2: Map<u128, RefreshTokenView>,
    reliable: bool,
    config: &Config,
    name: Seq<char>,
    password: Seq<char>,
    now: i64,
    ajti: u128,
    rjti: u128,
    r: Result<(String, String, Option<RefreshToken>), ApiError>,
) -> bool {
    match r {
        Ok((a, t, ev)) => logged_in(users, s0, s2, config, name, password, now, ajti, rjti, a@, t@, view_of(ev)),
        Err(ApiError::Auth(e)) => e == AuthError::InvalidCredentials && s2 == s0 && !credentials_match(
            users,
            name,
            password,
        ),
        Err(e) => e is Internal && at_most_evicted(s0, s2) && (!reliable || (credentials_match(
            users,
            name,
            password,
        ) && !login_fits(users, s0, config, name, now, rjti))),
    }
}

/// Logs a user in at time `now`, naming the new tokens `ajti` and `rjti`:
/// checks the credentials, evicts the oldest live session when the user holds
/// `user_session_limit` or more, stores the new refresh token's record and
/// returns both tokens with the evicted record, if any.
///
/// An unknown name and a wrong password fail alike, with `InvalidCredentials`.
pub fn login_at<D: Database>(
    db: &mut D,
    config: &Config,
    payload: AuthPayload,
    now: i64,
    ajti: u128,
    rjti: u128,
) -> (r: Result<(String, String, Option<RefreshToken>), ApiError>)
    requires
        old(db).well_formed(),
    ensures
        final(db).well_formed(),
        final(db).users() == old(db).users(),
        final(db).reliable() == old(db).reliable(),
        login_outcome(
            old(db).users(),
            old(db).sessions(),
            final(db).sessions(),
            old(db).reliable(),
            config,
            payload.username@,
            payload.password@,
            now,
            ajti,
            rjti,
            r,
        ),
{
    let ghost users = db.users();
    let ghost name = payload.username@;
    let ghost password = payload.password@;
    let user = match db.find_by_username(payload.username.as_str()) {
        Ok(Some(u)) => u,
        Ok(None) => {
            proof {
                if credentials_match(users, name, password) {
                    let id = choose|id: u128| users.contains_key(id) && #[trigger] users[id].username == name
                        && argon2_accepts(users[id].password_hash, password);
                    assert(name_taken(users, name));
                }
            }
            return Err(ApiError::Auth(AuthError::InvalidCredentials));
        },
        Err(e) => return Err(e),
    };
    if !verify_hash(user.password_hash.as_str(), payload.password.as_str()) {
        proof {
            if credentials_match(users, name, password) {
                let id = choose|id: u128| users.contains_key(id) && #[trigger] users[id].username == name
                    && argon2_accepts(users[id].password_hash, password);
                assert(id == user.id);
            }
        }
        return Err(ApiError::Auth(AuthError::InvalidCredentials));
    }
    proof {
        assert(users[user.id].username == name);
    }
    let ghost s0 = db.sessions();
    let deleted = revoke_oldest_token(db, user.id, config.user_session_limit, now)?;
    let ghost s1 = db.sessions();
    let (access_token, refresh_token, record) = match pairs_from_user_at(
        &user,
        now,
        config.jwt_access_expiration,
        config.jwt_refresh_expiration,
        config.jwt_access_secret.as_str(),
        config.jwt_refresh_secret.as_str(),
        ajti,
        rjti,
    ) {
        Ok(x) => x,
        Err(e) => {
            proof {
                if let Some(t) = view_of(deleted) {
                    assert(s0.remove(t.jti) == s1);
                }
            }
            return Err(e);
        },
    };
    let ghost rec = record@;
    match db.create_token(record) {
        Ok(_) => {},
        Err(e) => {
            proof {
                if old(db).reliable() {
                    assert(s1.contains_key(rjti));
                    assert(s0.contains_key(rjti));
                }
                if let Some(t) = view_of(deleted) {
                    assert(s0.remove(t.jti) == s1);
                }
            }
            return Err(e);
        },
    }
    proof {
        let u = user@;
        assert(s1 == after_eviction(s0, view_of(deleted)));
        assert(login_step(
            users,
            s0,
            db.sessions(),
            config,
            name,
            password,
            now,
            ajti,
            rjti,
            access_token@,
            refresh_token@,
            view_of(deleted),
            u,
            rec,
        ));
        assert(s0 == old(db).sessions());
        assert(users == old(db).users());
        assert(logged_in(users, s0, db.sessions(), config, name, password, now, ajti, rjti, access_token@, refresh_token@, view_of(deleted)));
    }
    Ok((access_token, refresh_token, deleted))
}

/// Logs a user in now, with fresh token ids.
pub fn login<D: Database>(db: &mut D, config: &Config, payload: AuthPayload) -> (r: Result<
    (String, String, Option<RefreshToken>),
    ApiError,
>)
    requires
        old(db).well_formed(),
    ensures
        final(db).well_formed(),
        final(db).users() == old(db).users(),
        final(db).reliable() == old(db).reliable(),
        exists|now: i64, ajti: u128, rjti: u128| #[trigger] login_outcome(
            old(db).users(),
            old(db).sessions(),
            final(db).sessions(),
            old(db).reliable(),
            config,
            payload.username@,
            payload.password@,
            now,
            ajti,
            rjti,
            r,
        ),
{
    let now = now_timestamp();
    let ajti = new_id();
    let rjti = new_id();
    login_at(db, config, payload, now, ajti, rjti)
}

/// What logging out with `token` at time `now` may give, and leave of the
/// sessions `s0` as `s1`: the decoding error; or, for decoded claims, the
/// removed record's id, `None` when no record was stored, or a failure of an
/// unreliable store.
pub open spec fn logout_outcome(
    s0: Map<u128, RefreshTokenView>,
    s1: Map<u128, RefreshTokenView>,
    reliable: bool,
    config: &Config,
    token: Seq<char>,
    now: i64,
    r: Result<Option<u128>, ApiError>,
) -> bool {
    match token_claims(token, config.jwt_refresh_secret@, now) {
        Err(e) => r == Err::<Option<u128>, ApiError>(ApiError::Auth(e)) && s1 == s0,
        Ok(c) => match r {
            Ok(Some(j)) => j == c.jti && s0.contains_key(j) && s1 == s0.remove(j),
            Ok(None) => !s0.contains_key(c.jti) && s1 == s0,
            Err(e) => e is Internal && s1 == s0 && !reliable,
        },
    }
}

/// Logs a session out at time `now`: decodes the refresh token and removes its
/// record. Gives the record's id, or `None` when no record was stored, so that
/// logging out twice is harmless.
pub fn logout_at<D: Database>(db: &mut D, config: &Config, refresh_token: &str, now: i64) -> (r: Result<
    Option<u128>,
    ApiError,
>)
    requires
        old(db).well_formed(),
    ensures
        final(db).well_formed(),
        final(db).users() == old(db).users(),
        final(db).reliable() == old(db).reliable(),
        logout_outcome(old(db).sessions(), final(db).sessions(), old(db).reliable(), config, refresh_token@, now, r),
{
    let claims = decode_token_at(refresh_token, config.jwt_refresh_secret.as_str(), now)?;
    match db.delete_by_jti(claims.jti) {
        Ok(Some(t)) => Ok(Some(t.jti)),
        Ok(None) => Ok(None),
        Err(e) => Err(e),
    }
}

/// Logs a session out at the current time.
pub fn logout<D: Database>(db: &mut D, config: &Config, refresh_token: &str) -> (r: Result<
    Option<u128>,
    ApiError,
>)
    requires
        old(db).well_formed(),
    ensures
        final(db).well_formed(),
        final(db).users() == old(db).users(),
        final(db).reliable() == old(db).reliable(),
        exists|now: i64| #[trigger] logout_outcome(old(db).sessions(), final(db).sessions(), old(db).reliable(), config, refresh_token@, now, r),
{
    let now = now_timestamp();
    logout_at(db, config, refresh_token, now)
}

/// What refreshing with `token` at time `now` may give, minting the access
/// token with id `jti`: the decoding error; `TokenInvalid` when no record of
/// the refresh token is stored; or an access token for the same subject and
/// roles, issued at `now` and living the access lifetime.
pub open spec fn refresh_outcome(
    sessions: Map<u128, RefreshTokenView>,
    reliable: bool,
    config: &Config,
    token: Seq<char>,
    now: i64,
    jti: u128,
    r: Result<String, ApiError>,
) -> bool {
    match token_claims(token, config.jwt_refresh_secret@, now) {
        Err(e) => r == Err::<String, ApiError>(ApiError::Auth(e)),
        Ok(c) => {
            let minted = ClaimsView { jti, exp: (now + config.jwt_access_expiration) as i64, iat: now, ..c };
            let fits = i64::MIN <= now + config.jwt_access_expiration <= i64::MAX;
            match r {
                Ok(a) => sessions.contains_key(c.jti) && fits && a@ == signed_token(
                    claims_json(minted),
                    config.jwt_access_secret@,
                ) && signs(a@, config.jwt_access_secret@, minted),
                Err(ApiError::Auth(e)) => e == AuthError::TokenInvalid && !sessions.contains_key(c.jti),
                Err(e) => e is Internal && (!reliable || (sessions.contains_key(c.jti) && !fits)),
            }
        },
    }
}

/// Mints a new access token at time `now`, with id `jti`, from a refresh token
/// whose record is still stored. The refresh token itself is left as it is.
pub fn refresh_at<D: Database>(db: &D, config: &Config, refresh_token: &str, now: i64, jti: u128) -> (r: Result<
    String,
    ApiError,
>)
    requires
        db.well_formed(),
    ensures
        refresh_outcome(db.sessions(), db.reliable(), config, refresh_token@, now, jti, r),
{
    let claims = decode_token_at(refresh_token, config.jwt_refresh_secret.as_str(), now)?;
    match db.find_by_jti(claims.jti) {
        Ok(Some(_)) => {},
        Ok(None) => return Err(ApiError::Auth(AuthError::TokenInvalid)),
        Err(e) => return Err(e),
    }
    let exp = match expiry(now, config.jwt_access_expiration) {
        Some(e) => e,
        None => return Err(ApiError::Internal(String::from_str("access token expiry out of range"))),
    };
    let access_claims = Claims::new(
        claims.sub,
        exp,
        now,
        jti,
        claims.username,
        claims.roles,
        claims.admin,
    );
    generate_token(&access_claims, config.jwt_access_secret.as_str())
}

/// Mints a new access token now, with a fresh id.
pub fn refresh<D: Database>(db: &D, config: &Config, refresh_token: &str) -> (r: Result<String, ApiError>)
    requires
        db.well_formed(),
    ensures
        exists|now: i64, jti: u128| #[trigger] refresh_outcome(db.sessions(), db.reliable(), config, refresh_token@, now, jti, r),
{
    let now = now_timestamp();
    let jti = new_id();
    refresh_at(db, config, refresh_token, now, jti)
}

/// Whether a password is longer than Argon2 can hash.
pub open spec fn too_long(password: Seq<char>) -> bool {
    (encode_utf8(password).len() as usize) > MAX_SECRET_BYTES
}

/// What registering `name` with `password` and `roles` may give, with the new
/// account's id `id` and creation time `now`, and leave of the users `users0`
/// as `users1`: the account; `UsernameAlreadyTaken` exactly for a taken name;
/// `BadRequest` exactly for a free name with a password too long to hash; an
/// internal error only from an unreliable store or an id already in use.
pub open spec fn register_outcome(
    users0: Map<u128, UserView>,
    users1: Map<u128, UserView>,
    reliable: bool,
    name: Seq<char>,
    password: Seq<char>,
    roles: Seq<Role>,
    id: u128,
    now: i64,
    r: Result<User, ApiError>,
) -> bool {
    match r {
        Ok(u) => !name_taken(users0, name) && !too_long(password) && u.id == id && u@.username == name
            && u@.roles == roles_text(roles) && u@.created_at == now && u@.updated_at == now
            && argon2_accepts(u@.password_hash, password) && !users0.contains_key(id) && users1
            == users0.insert(id, u@),
        Err(ApiError::Auth(e)) => e == AuthError::UsernameAlreadyTaken && name_taken(users0, name)
            && users1 == users0,
        Err(ApiError::BadRequest(_)) => !name_taken(users0, name) && too_long(password) && users1 == users0,
        Err(e) => e is Internal && users1 == users0 && (!reliable || (!name_taken(users0, name)
            && !too_long(password) && users0.contains_key(id))),
    }
}

/// Registers a user named `payload.username`, holding `roles`, with a hash of
/// the password, under id `id` and creation time `now`.
pub fn create_user_at<D: Database>(
    db: &mut D,
    payload: AuthPayload,
    roles: &[Role],
    id: u128,
    now: i64,
) -> (r: Result<User, ApiError>)
    requires
        old(db).well_formed(),
    ensures
        final(db).well_formed(),
        final(db).sessions() == old(db).sessions(),
        final(db).reliable() == old(db).reliable(),
        register_outcome(
            old(db).users(),
            final(db).users(),
            old(db).reliable(),
            payload.username@,
            payload.password@,
            roles@,
            id,
            now,
            r,
        ),
{
    match db.find_by_username(payload.username.as_str()) {
        Ok(Some(_)) => return Err(ApiError::Auth(AuthError::UsernameAlreadyTaken)),
        Ok(None) => {},
        Err(e) => return Err(e),
    }
    if payload.password.as_str().len() > MAX_SECRET_BYTES {
        return Err(ApiError::BadRequest(String::from_str("password too long")));
    }
    let hash = hash_string(payload.password.as_str());
    let new_user = User::with_id(id, payload.username.as_str(), hash.as_str(), roles, now);
    db.create_user(new_user)
}

/// Registers a user named `payload.username`, holding `roles`, with a hash of
/// the password, a fresh id and the current time. A taken name fails with
/// `UsernameAlreadyTaken`; on an empty reliable store a password that Argon2
/// can hash always registers.
pub fn create_user<D: Database>(db: &mut D, payload: AuthPayload, roles: &[Role]) -> (r: Result<User, ApiError>)
    requires
        old(db).well_formed(),
    ensures
        final(db).well_formed(),
        final(db).sessions() == old(db).sessions(),
        final(db).reliable() == old(db).reliable(),
        exists|id: u128, now: i64| #[trigger] register_outcome(
            old(db).users(),
            final(db).users(),
            old(db).reliable(),
            payload.username@,
            payload.password@,
            roles@,
            id,
            now,
            r,
        ),
        old(db).reliable() && old(db).users().dom().len() == 0 && !too_long(payload.password@) ==> r is Ok,
{
    proof {
        db.lemma_finite();
        if old(db).users().dom().len() == 0 {
            old(db).users().dom().lemma_len0_is_empty();
        }
    }
    let id = new_id();
    let now = now_timestamp();
    create_user_at(db, payload, roles, id, now)
}

/// Removes the refresh-token records that have expired at `now`; says how many.
pub fn sweep_expired<D: Database>(db: &mut D, now: i64) -> (r: Result<u64, ApiError>)
    requires
        old(db).well_formed(),
    ensures
        final(db).well_formed(),
        final(db).users() == old(db).users(),
        final(db).reliable() == old(db).reliable(),
        old(db).reliable() ==> r is Ok,
        r matches Ok(n) ==> final(db).sessions() == live_sessions(old(db).sessions(), now) && n == old(
            db,
        ).sessions().dom().len() - final(db).sessions().dom().len(),
        r is Err ==> final(db).sessions() == old(db).sessions(),
{
    db.delete_expired(now)
}

/// How many live sessions a login leaves its user: one more than before,
/// unless the user already held `user_session_limit` or more, in which case the
/// oldest was evicted and the count stays. In particular a user holding
/// exactly the limit loses their oldest session and still holds the limit.
pub proof fn law_session_limit(
    users: Map<u128, UserView>,
    s0: Map<u128, RefreshTokenView>,
    s2: Map<u128, RefreshTokenView>,
    config: &Config,
    name: Seq<char>,
    password: Seq<char>,
    now: i64,
    ajti: u128,
    rjti: u128,
    access: Seq<char>,
    refresh: Seq<char>,
    evicted: Option<RefreshTokenView>,
    u: UserView,
    rec: RefreshTokenView,
)
    requires
        login_step(users, s0, s2, config, name, password, now, ajti, rjti, access, refresh, evicted, u, rec),
        s0.dom().finite(),
        config.jwt_refresh_expiration >= 0,
    ensures
        live_of(s2, u.id, now).len() == if live_of(s0, u.id, now).len() >= config.user_session_limit
            && live_of(s0, u.id, now).len() > 0 {
            live_of(s0, u.id, now).len()
        } else {
            live_of(s0, u.id, now).len() + 1
        },
        live_of(s0, u.id, now).len() == config.user_session_limit && config.user_session_limit > 0 ==> (
        evicted matches Some(t) && oldest_of(s0, u.id, now, t) && live_of(s2, u.id, now).len()
            == config.user_session_limit),
{
    let sub = u.id;
    let c0 = live_of(s0, sub, now);
    let s1 = after_eviction(s0, evicted);
    lemma_len_subset(c0, s0.dom());
    match evicted {
        Some(t) => {
            assert(c0.contains(t.jti));
            assert(live_of(s1, sub, now) =~= c0.remove(t.jti));
        },
        None => {
            assert(live_of(s1, sub, now) =~= c0);
        },
    }
    let c1 = live_of(s1, sub, now);
    assert(!c1.contains(rec.jti));
    assert(live_of(s2, sub, now) =~= c1.insert(rec.jti));
}

} // verus!
