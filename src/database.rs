use vstd::prelude::*;
use crate::error::ApiError;
use crate::user::{RefreshToken, RefreshTokenView, User, UserView};

verus! {

/// A stored row with a 128-bit key.
pub trait Keyed: View {
    spec fn key(&self) -> u128;
}

impl Keyed for User {
    open spec fn key(&self) -> u128 {
        self.id
    }
}

impl Keyed for RefreshToken {
    open spec fn key(&self) -> u128 {
        self.jti
    }
}

pub open spec fn keys_unique<T: Keyed>(s: Seq<T>) -> bool {
    forall|i: int, j: int| 0 <= i < s.len() && 0 <= j < s.len() && i != j ==> s[i].key() != s[j].key()
}

pub open spec fn has_key<T: Keyed>(s: Seq<T>, k: u128) -> bool {
    exists|i: int| 0 <= i < s.len() && s[i].key() == k
}

/// The rows of `s` as a map from key to row.
pub open spec fn rows_map<T: Keyed>(s: Seq<T>) -> Map<u128, T::V> {
    Map::new(
        |k: u128| has_key(s, k),
        |k: u128| s[choose|i: int| 0 <= i < s.len() && s[i].key() == k]@,
    )
}

pub proof fn lemma_rows_index<T: Keyed>(s: Seq<T>, i: int)
    requires
        keys_unique(s),
        0 <= i < s.len(),
    ensures
        rows_map(s).contains_key(s[i].key()),
        rows_map(s)[s[i].key()] == s[i]@,
{
    let k = s[i].key();
    assert(has_key(s, k));
    let j = choose|j: int| 0 <= j < s.len() && s[j].key() == k;
    assert(i == j);
}

pub proof fn lemma_rows_push<T: Keyed>(s: Seq<T>, x: T)
    requires
        keys_unique(s),
        !has_key(s, x.key()),
    ensures
        keys_unique(s.push(x)),
        rows_map(s.push(x)) == rows_map(s).insert(x.key(), x@),
{
    let t = s.push(x);
    assert forall|i: int, j: int| 0 <= i < t.len() && 0 <= j < t.len() && i != j implies t[i].key()
        != t[j].key() by {
        if i < s.len() && j < s.len() {
            assert(t[i] == s[i] && t[j] == s[j]);
        } else if i < s.len() {
            assert(t[i] == s[i]);
        } else if j < s.len() {
            assert(t[j] == s[j]);
        }
    }
    assert forall|k: u128| has_key(t, k) <==> has_key(s, k) || k == x.key() by {
        if has_key(s, k) {
            let i = choose|i: int| 0 <= i < s.len() && s[i].key() == k;
            assert(t[i] == s[i]);
        }
        if k == x.key() {
            assert(t[s.len() as int] == x);
        }
        if has_key(t, k) {
            let i = choose|i: int| 0 <= i < t.len() && t[i].key() == k;
            if i < s.len() {
                assert(t[i] == s[i]);
            }
        }
    }
    assert forall|k: u128| #[trigger] rows_map(t).contains_key(k) implies rows_map(t)[k] == rows_map(
        s,
    ).insert(x.key(), x@)[k] by {
        if k == x.key() {
            lemma_rows_index(t, s.len() as int);
        } else {
            let i = choose|i: int| 0 <= i < s.len() && s[i].key() == k;
            lemma_rows_index(s, i);
            assert(t[i] == s[i]);
            lemma_rows_index(t, i);
        }
    }
    assert(rows_map(t) =~= rows_map(s).insert(x.key(), x@));
}

pub proof fn lemma_rows_remove<T: Keyed>(s: Seq<T>, i: int)
    requires
        keys_unique(s),
        0 <= i < s.len(),
    ensures
        keys_unique(s.remove(i)),
        rows_map(s.remove(i)) == rows_map(s).remove(s[i].key()),
{
    let t = s.remove(i);
    let gone = s[i].key();
    assert forall|a: int, b: int| 0 <= a < t.len() && 0 <= b < t.len() && a != b implies t[a].key()
        != t[b].key() by {
        let sa = if a < i { a } else { a + 1 };
        let sb = if b < i { b } else { b + 1 };
        assert(t[a] == s[sa] && t[b] == s[sb]);
    }
    assert forall|k: u128| has_key(t, k) <==> has_key(s, k) && k != gone by {
        if has_key(t, k) {
            let a = choose|a: int| 0 <= a < t.len() && t[a].key() == k;
            let sa = if a < i { a } else { a + 1 };
            assert(t[a] == s[sa]);
        }
        if has_key(s, k) && k != gone {
            let a = choose|a: int| 0 <= a < s.len() && s[a].key() == k;
            let ta = if a < i { a } else { a - 1 };
            assert(t[ta] == s[a]);
        }
    }
    assert forall|k: u128| #[trigger] rows_map(t).contains_key(k) implies rows_map(t)[k] == rows_map(
        s,
    ).remove(gone)[k] by {
        let a = choose|a: int| 0 <= a < t.len() && t[a].key() == k;
        let sa = if a < i { a } else { a + 1 };
        assert(t[a] == s[sa]);
        lemma_rows_index(t, a);
        lemma_rows_index(s, sa);
    }
    assert(rows_map(t) =~= rows_map(s).remove(gone));
}

pub proof fn lemma_rows_size<T: Keyed>(s: Seq<T>)
    requires
        keys_unique(s),
    ensures
        rows_map(s).dom().finite(),
        rows_map(s).dom().len() == s.len(),
    decreases s.len(),
{
    if s.len() == 0 {
        assert(rows_map(s).dom() =~= Set::<u128>::empty());
    } else {
        let p = s.drop_last();
        assert(p.push(s.last()) =~= s);
        assert forall|a: int, b: int| 0 <= a < p.len() && 0 <= b < p.len() && a != b implies p[a].key()
            != p[b].key() by {
            assert(p[a] == s[a] && p[b] == s[b]);
        }
        lemma_rows_size(p);
        if has_key(p, s.last().key()) {
            let a = choose|a: int| 0 <= a < p.len() && p[a].key() == s.last().key();
            assert(p[a] == s[a]);
        }
        lemma_rows_push(p, s.last());
        assert(rows_map(s).dom() =~= rows_map(p).dom().insert(s.last().key()));
    }
}

/// No two users of `s` share a name.
pub open spec fn names_unique(s: Seq<User>) -> bool {
    forall|i: int, j: int| 0 <= i < s.len() && 0 <= j < s.len() && i != j ==> s[i].username@ != s[j].username@
}

/// The keys of the refresh tokens of subject `sub`.
pub open spec fn sessions_of(m: Map<u128, RefreshTokenView>, sub: u128) -> Set<u128> {
    m.dom().filter(|j: u128| m[j].sub == sub)
}

/// The refresh tokens that have not expired at `now` (whose `exp` has not passed).
pub open spec fn live_sessions(m: Map<u128, RefreshTokenView>, now: i64) -> Map<u128, RefreshTokenView> {
    m.restrict(m.dom().filter(|j: u128| m[j].exp >= now))
}

/// Whether some stored user has the name `name`.
pub open spec fn name_taken(m: Map<u128, UserView>, name: Seq<char>) -> bool {
    exists|id: u128| m.contains_key(id) && #[trigger] m[id].username == name
}

/// The user store and the session (refresh-token) store.
///
/// A store keeps users by id and refresh-token records by token id. Every
/// method that fails leaves the store as it was.
pub trait Database {
    spec fn well_formed(&self) -> bool;

    /// Whether the store's calls always reach it: it holds its data itself
    /// rather than behind a connection that may fail.
    spec fn reliable(&self) -> bool;

    /// The users, by id.
    spec fn users(&self) -> Map<u128, UserView>;

    /// A store holds finitely many users and records.
    proof fn lemma_finite(&self)
        requires
            self.well_formed(),
        ensures
            self.users().dom().finite(),
            self.sessions().dom().finite(),
    ;

    /// The refresh-token records, by token id.
    spec fn sessions(&self) -> Map<u128, RefreshTokenView>;

    fn find_by_username(&self, username: &str) -> (r: Result<Option<User>, ApiError>)
        requires
            self.well_formed(),
        ensures
            self.reliable() ==> r is Ok,
            r matches Ok(Some(u)) ==> self.users().contains_key(u.id) && self.users()[u.id] == u@
                && u@.username == username@ && forall|id: u128|
                self.users().contains_key(id) && #[trigger] self.users()[id].username == username@ ==> id
                == u.id,
            r matches Ok(None) ==> !name_taken(self.users(), username@),
            r matches Err(e) ==> e is Internal,
    ;

    fn find_by_id(&self, id: u128) -> (r: Result<Option<User>, ApiError>)
        requires
            self.well_formed(),
        ensures
            self.reliable() ==> r is Ok,
            r matches Ok(Some(u)) ==> u.id == id && self.users().contains_key(id) && self.users()[id]
                == u@,
            r matches Ok(None) ==> !self.users().contains_key(id),
            r matches Err(e) ==> e is Internal,
    ;

    fn find_all(&self) -> (r: Result<Vec<User>, ApiError>)
        requires
            self.well_formed(),
        ensures
            self.reliable() ==> r is Ok,
            r matches Ok(v) ==> v@.len() == self.users().dom().len() && forall|i: int|
                0 <= i < v@.len() ==> self.users().contains_key(#[trigger] v@[i].id) && self.users()[v@[i].id]
                    == v@[i]@,
            r matches Err(e) ==> e is Internal,
    ;

    /// Stores a new user; fails if its id or its name is taken.
    fn create_user(&mut self, user: User) -> (r: Result<User, ApiError>)
        requires
            old(self).well_formed(),
        ensures
            old(self).reliable() && !old(self).users().contains_key(user.id) && !name_taken(old(self).users(), user@.username) ==> r is Ok,
            final(self).reliable() == old(self).reliable(),
            final(self).well_formed(),
            final(self).sessions() == old(self).sessions(),
            r matches Ok(u) ==> u@ == user@ && !old(self).users().contains_key(user.id) && !name_taken(
                old(self).users(),
                user@.username,
            ) && final(self).users() == old(self).users().insert(user.id, user@),
            r is Err ==> final(self).users() == old(self).users(),
            r matches Err(e) ==> e is Internal,
    ;

    /// Removes every user and says how many there were.
    fn delete_all_users(&mut self) -> (r: Result<u64, ApiError>)
        requires
            old(self).well_formed(),
        ensures
            old(self).reliable() ==> r is Ok,
            final(self).reliable() == old(self).reliable(),
            final(self).well_formed(),
            final(self).sessions() == old(self).sessions(),
            r matches Ok(n) ==> n == old(self).users().dom().len() && final(self).users()
                == Map::<u128, UserView>::empty(),
            r is Err ==> final(self).users() == old(self).users(),
            r matches Err(e) ==> e is Internal,
    ;

    /// Stores a refresh-token record; fails if its id is taken.
    fn create_token(&mut self, token: RefreshToken) -> (r: Result<RefreshToken, ApiError>)
        requires
            old(self).well_formed(),
        ensures
            old(self).reliable() && !old(self).sessions().contains_key(token.jti) ==> r is Ok,
            final(self).reliable() == old(self).reliable(),
            final(self).well_formed(),
            final(self).users() == old(self).users(),
            r matches Ok(t) ==> t@ == token@ && !old(self).sessions().contains_key(token.jti)
                && final(self).sessions() == old(self).sessions().insert(token.jti, token@),
            r is Err ==> final(self).sessions() == old(self).sessions(),
            r matches Err(e) ==> e is Internal,
    ;

    /// The refresh-token records of subject `sub`, each once.
    fn find_by_sub(&self, sub: u128) -> (r: Result<Vec<RefreshToken>, ApiError>)
        requires
            self.well_formed(),
        ensures
            self.reliable() ==> r is Ok,
            r matches Ok(v) ==> v@.len() == sessions_of(self.sessions(), sub).len() && (forall|i: int|
                0 <= i < v@.len() ==> self.sessions().contains_key(#[trigger] v@[i].jti)
                    && self.sessions()[v@[i].jti] == v@[i]@ && v@[i].sub == sub) && (forall|j: u128|
                #[trigger] sessions_of(self.sessions(), sub).contains(j) ==> exists|i: int|
                    0 <= i < v@.len() && v@[i].jti == j) && (forall|i: int, k: int|
                0 <= i < v@.len() && 0 <= k < v@.len() && i != k ==> v@[i].jti != v@[k].jti),
            r matches Err(e) ==> e is Internal,
    ;

    fn find_by_jti(&self, jti: u128) -> (r: Result<Option<RefreshToken>, ApiError>)
        requires
            self.well_formed(),
        ensures
            self.reliable() ==> r is Ok,
            r matches Ok(Some(t)) ==> t.jti == jti && self.sessions().contains_key(jti)
                && self.sessions()[jti] == t@,
            r matches Ok(None) ==> !self.sessions().contains_key(jti),
            r matches Err(e) ==> e is Internal,
    ;

    /// Removes the record with id `jti` and hands it back, if there was one.
    fn delete_by_jti(&mut self, jti: u128) -> (r: Result<Option<RefreshToken>, ApiError>)
        requires
            old(self).well_formed(),
        ensures
            old(self).reliable() ==> r is Ok,
            final(self).reliable() == old(self).reliable(),
            final(self).well_formed(),
            final(self).users() == old(self).users(),
            r matches Ok(Some(t)) ==> t.jti == jti && old(self).sessions().contains_key(jti) && old(
                self,
            ).sessions()[jti] == t@ && final(self).sessions() == old(self).sessions().remove(jti),
            r matches Ok(None) ==> !old(self).sessions().contains_key(jti) && final(self).sessions()
                == old(self).sessions(),
            r is Err ==> final(self).sessions() == old(self).sessions(),
            r matches Err(e) ==> e is Internal,
    ;

    /// Removes the records that have expired at `now` and says how many.
    fn delete_expired(&mut self, now: i64) -> (r: Result<u64, ApiError>)
        requires
            old(self).well_formed(),
        ensures
            old(self).reliable() ==> r is Ok,
            final(self).reliable() == old(self).reliable(),
            final(self).well_formed(),
            final(self).users() == old(self).users(),
            r matches Ok(n) ==> final(self).sessions() == live_sessions(old(self).sessions(), now)
                && n == old(self).sessions().dom().len() - final(self).sessions().dom().len(),
            r is Err ==> final(self).sessions() == old(self).sessions(),
            r matches Err(e) ==> e is Internal,
    ;
}

/// A store held in memory.
pub struct MockDatabase {
    users: Vec<User>,
    tokens: Vec<RefreshToken>,
}

impl MockDatabase {
    /// An empty store.
    pub fn new() -> (r: MockDatabase)
        ensures
            r.well_formed(),
            r.reliable(),
            r.users() == Map::<u128, UserView>::empty(),
            r.sessions() == Map::<u128, RefreshTokenView>::empty(),
    {
        let r = MockDatabase { users: Vec::new(), tokens: Vec::new() };
        assert(r.users() =~= Map::<u128, UserView>::empty());
        assert(r.sessions() =~= Map::<u128, RefreshTokenView>::empty());
        r
    }

    /// Where a row with key `k` stands, if any.
    fn position_of_token(&self, k: u128) -> (r: Option<usize>)
        ensures
            r matches Some(i) ==> i < self.tokens@.len() && self.tokens@[i as int].jti == k,
            r is None ==> !has_key(self.tokens@, k),
    {
        let mut i: usize = 0;
        while i < self.tokens.len()
            invariant
                i <= self.tokens@.len(),
                forall|j: int| 0 <= j < i ==> self.tokens@[j].jti != k,
            decreases self.tokens@.len() - i,
        {
            if self.tokens[i].jti == k {
                return Some(i);
            }
            i += 1;
        }
        None
    }

    fn position_of_user(&self, k: u128) -> (r: Option<usize>)
        ensures
            r matches Some(i) ==> i < self.users@.len() && self.users@[i as int].id == k,
            r is None ==> !has_key(self.users@, k),
    {
        let mut i: usize = 0;
        while i < self.users.len()
            invariant
                i <= self.users@.len(),
                forall|j: int| 0 <= j < i ==> self.users@[j].id != k,
            decreases self.users@.len() - i,
        {
            if self.users[i].id == k {
                return Some(i);
            }
            i += 1;
        }
        None
    }
}

impl Database for MockDatabase {
    closed spec fn well_formed(&self) -> bool {
        keys_unique(self.users@) && keys_unique(self.tokens@) && names_unique(self.users@)
    }

    closed spec fn reliable(&self) -> bool {
        true
    }

    proof fn lemma_finite(&self) {
        lemma_rows_size(self.users@);
        lemma_rows_size(self.tokens@);
    }

    closed spec fn users(&self) -> Map<u128, UserView> {
        rows_map(self.users@)
    }

    closed spec fn sessions(&self) -> Map<u128, RefreshTokenView> {
        rows_map(self.tokens@)
    }

    fn find_by_username(&self, username: &str) -> (r: Result<Option<User>, ApiError>) {
        let mut i: usize = 0;
        while i < self.users.len()
            invariant
                keys_unique(self.users@),
                names_unique(self.users@),
                i <= self.users@.len(),
                forall|j: int| 0 <= j < i ==> self.users@[j].username@ != username@,
            decreases self.users@.len() - i,
        {
            if crate::user::same_text(self.users[i].username.as_str(), username) {
                proof {
                    lemma_rows_index(self.users@, i as int);
                    assert forall|id: u128|
                        self.users().contains_key(id) && #[trigger] self.users()[id].username == username@
                        implies id == self.users@[i as int].id by {
                        let k = choose|k: int| 0 <= k < self.users@.len() && self.users@[k].id == id;
                        lemma_rows_index(self.users@, k);
                        assert(names_unique(self.users@));
                        if k != i {
                            assert(self.users@[k].username@ != self.users@[i as int].username@);
                        }
                    }
                }
                return Ok(Some(self.users[i].duplicate()));
            }
            i += 1;
        }
        proof {
            assert forall|id: u128| #[trigger] self.users().contains_key(id) implies self.users()[id].username
                != username@ by {
                let j = choose|j: int| 0 <= j < self.users@.len() && self.users@[j].id == id;
                lemma_rows_index(self.users@, j);
            }
        }
        Ok(None)
    }

    fn find_by_id(&self, id: u128) -> (r: Result<Option<User>, ApiError>) {
        match self.position_of_user(id) {
            Some(i) => {
                proof {
                    lemma_rows_index(self.users@, i as int);
                }
                Ok(Some(self.users[i].duplicate()))
            },
            None => Ok(None),
        }
    }

    fn find_all(&self) -> (r: Result<Vec<User>, ApiError>) {
        let mut out: Vec<User> = Vec::new();
        let mut i: usize = 0;
        while i < self.users.len()
            invariant
                self.well_formed(),
                i <= self.users@.len(),
                out@.len() == i,
                forall|j: int| 0 <= j < i ==> (#[trigger] out@[j])@ == self.users@[j]@ && out@[j].id
                    == self.users@[j].id,
            decreases self.users@.len() - i,
        {
            out.push(self.users[i].duplicate());
            i += 1;
        }
        proof {
            lemma_rows_size(self.users@);
            assert forall|j: int| 0 <= j < out@.len() implies self.users().contains_key(#[trigger] out@[j].id)
                && self.users()[out@[j].id] == out@[j]@ by {
                lemma_rows_index(self.users@, j);
            }
        }
        Ok(out)
    }

    fn create_user(&mut self, user: User) -> (r: Result<User, ApiError>) {
        if self.position_of_user(user.id).is_some() {
            return Err(ApiError::Internal(String::from_str("user id already exists")));
        }
        let found = self.find_by_username(user.username.as_str());
        match found {
            Ok(None) => {},
            Ok(Some(_)) => {
                return Err(ApiError::Internal(String::from_str("username already exists")));
            },
            Err(e) => {
                return Err(e);
            },
        }
        proof {
            lemma_rows_push(self.users@, user);
            assert forall|k: int| 0 <= k < self.users@.len() implies self.users@[k].username@
                != user.username@ by {
                lemma_rows_index(self.users@, k);
                if self.users@[k].username@ == user.username@ {
                    assert(self.users()[self.users@[k].id].username == user@.username);
                    assert(name_taken(self.users(), user@.username));
                }
            }
        }
        let copy = user.duplicate();
        let ghost before = self.users@;
        self.users.push(user);
        proof {
            assert forall|a: int, b: int| 0 <= a < self.users@.len() && 0 <= b < self.users@.len() && a != b
                implies self.users@[a].username@ != self.users@[b].username@ by {
                if a < before.len() && b < before.len() {
                    assert(self.users@[a] == before[a] && self.users@[b] == before[b]);
                } else if a < before.len() {
                    assert(self.users@[a] == before[a]);
                } else {
                    assert(self.users@[b] == before[b]);
                }
            }
        }
        Ok(copy)
    }

    fn delete_all_users(&mut self) -> (r: Result<u64, ApiError>) {
        proof {
            lemma_rows_size(self.users@);
        }
        let n = self.users.len();
        self.users = Vec::new();
        assert(self.users() =~= Map::<u128, UserView>::empty());
        Ok(n as u64)
    }

    fn create_token(&mut self, token: RefreshToken) -> (r: Result<RefreshToken, ApiError>) {
        if self.position_of_token(token.jti).is_some() {
            return Err(ApiError::Internal(String::from_str("token id already exists")));
        }
        proof {
            lemma_rows_push(self.tokens@, token);
        }
        let copy = token.duplicate();
        self.tokens.push(token);
        Ok(copy)
    }

    fn find_by_sub(&self, sub: u128) -> (r: Result<Vec<RefreshToken>, ApiError>) {
        let mut out: Vec<RefreshToken> = Vec::new();
        let mut i: usize = 0;
        let ghost mut seen: Set<u128> = Set::empty();
        while i < self.tokens.len()
            invariant
                self.well_formed(),
                i <= self.tokens@.len(),
                seen.finite(),
                out@.len() == seen.len(),
                seen == sessions_of(rows_map(self.tokens@.take(i as int)), sub),
                forall|j: int| 0 <= j < out@.len() ==> self.sessions().contains_key(#[trigger] out@[j].jti)
                    && self.sessions()[out@[j].jti] == out@[j]@ && out@[j].sub == sub,
                forall|k: u128| #[trigger] seen.contains(k) ==> exists|j: int| 0 <= j < out@.len() && out@[j].jti == k,
                forall|j: int| 0 <= j < out@.len() ==> seen.contains(#[trigger] out@[j].jti),
                forall|a: int, b: int| 0 <= a < out@.len() && 0 <= b < out@.len() && a != b ==> out@[a].jti != out@[b].jti,
            decreases self.tokens@.len() - i,
        {
            let ghost pre = self.tokens@.take(i as int);
            let ghost x = self.tokens@[i as int];
            proof {
                assert(self.tokens@.take(i + 1) =~= pre.push(x));
                assert forall|a: int, b: int| 0 <= a < pre.len() && 0 <= b < pre.len() && a != b implies pre[a].key()
                    != pre[b].key() by {
                    assert(pre[a] == self.tokens@[a] && pre[b] == self.tokens@[b]);
                }
                if has_key(pre, x.jti) {
                    let a = choose|a: int| 0 <= a < pre.len() && pre[a].key() == x.jti;
                    assert(pre[a] == self.tokens@[a]);
                }
                lemma_rows_push(pre, x);
                lemma_rows_index(self.tokens@, i as int);
                assert(!rows_map(pre).contains_key(x.jti));
            }
            if self.tokens[i].sub == sub {
                proof {
                    assert(sessions_of(rows_map(pre.push(x)), sub) =~= seen.insert(x.jti));
                }
                let ghost old_out = out@;
                out.push(self.tokens[i].duplicate());
                proof {
                    assert(!seen.contains(x.jti));
                    assert forall|j: int| 0 <= j < old_out.len() implies out@[j] == old_out[j] by {}
                    seen = seen.insert(x.jti);
                    assert forall|k: u128| #[trigger] seen.contains(k) implies exists|j: int| 0 <= j < out@.len() && out@[j].jti == k by {
                        if k == x.jti {
                            assert(out@[old_out.len() as int].jti == k);
                        } else {
                            let j = choose|j: int| 0 <= j < old_out.len() && old_out[j].jti == k;
                            assert(out@[j] == old_out[j]);
                        }
                    }
                }
            } else {
                proof {
                    assert(sessions_of(rows_map(pre.push(x)), sub) =~= seen);
                }
            }
            i += 1;
        }
        assert(self.tokens@.take(i as int) =~= self.tokens@);
        Ok(out)
    }

    fn find_by_jti(&self, jti: u128) -> (r: Result<Option<RefreshToken>, ApiError>) {
        match self.position_of_token(jti) {
            Some(i) => {
                proof {
                    lemma_rows_index(self.tokens@, i as int);
                }
                Ok(Some(self.tokens[i].duplicate()))
            },
            None => Ok(None),
        }
    }

    fn delete_by_jti(&mut self, jti: u128) -> (r: Result<Option<RefreshToken>, ApiError>) {
        match self.position_of_token(jti) {
            Some(i) => {
                proof {
                    lemma_rows_index(self.tokens@, i as int);
                    lemma_rows_remove(self.tokens@, i as int);
                }
                let t = self.tokens.remove(i);
                Ok(Some(t))
            },
            None => Ok(None),
        }
    }

    fn delete_expired(&mut self, now: i64) -> (r: Result<u64, ApiError>) {
        let mut kept: Vec<RefreshToken> = Vec::new();
        let mut i: usize = 0;
        let ghost all = self.tokens@;
        while i < self.tokens.len()
            invariant
                self.tokens@ == all,
                keys_unique(all),
                i <= all.len(),
                keys_unique(kept@),
                kept@.len() <= i,
                forall|k: u128| has_key(kept@, k) ==> has_key(all.take(i as int), k),
                rows_map(kept@) == live_sessions(rows_map(all.take(i as int)), now),
            decreases all.len() - i,
        {
            let ghost pre = all.take(i as int);
            let ghost x = all[i as int];
            proof {
                assert(all.take(i + 1) =~= pre.push(x));
                assert forall|a: int, b: int| 0 <= a < pre.len() && 0 <= b < pre.len() && a != b implies pre[a].key()
                    != pre[b].key() by {
                    assert(pre[a] == all[a] && pre[b] == all[b]);
                }
                if has_key(pre, x.jti) {
                    let a = choose|a: int| 0 <= a < pre.len() && pre[a].key() == x.jti;
                    assert(pre[a] == all[a]);
                }
                lemma_rows_push(pre, x);
                assert forall|k: u128| has_key(pre, k) implies has_key(pre.push(x), k) by {
                    let a = choose|a: int| 0 <= a < pre.len() && pre[a].key() == k;
                    assert(pre.push(x)[a] == pre[a]);
                }
                assert(has_key(pre.push(x), x.jti)) by {
                    assert(pre.push(x)[pre.len() as int] == x);
                }
            }
            if self.tokens[i].exp >= now {
                let d = self.tokens[i].duplicate();
                proof {
                    lemma_rows_push(kept@, d);
                    assert(live_sessions(rows_map(pre.push(x)), now) =~= rows_map(kept@).insert(
                        x.jti,
                        x@,
                    ));
                }
                let ghost old_kept = kept@;
                kept.push(d);
                proof {
                    assert(kept@ =~= old_kept.push(d));
                    assert forall|k: u128| has_key(kept@, k) implies has_key(pre.push(x), k) by {
                        let a = choose|a: int| 0 <= a < kept@.len() && kept@[a].key() == k;
                        if a < old_kept.len() {
                            assert(kept@[a] == old_kept[a]);
                            assert(has_key(old_kept, k));
                            assert(has_key(pre, k));
                        } else {
                            assert(kept@[a] == d);
                            assert(k == x.jti);
                        }
                    }
                }
            } else {
                proof {
                    assert(live_sessions(rows_map(pre.push(x)), now) =~= rows_map(kept@));
                }
            }
            i += 1;
        }
        proof {
            assert(all.take(i as int) =~= all);
            lemma_rows_size(all);
            lemma_rows_size(kept@);
        }
        let removed = self.tokens.len() - kept.len();
        self.tokens = kept;
        Ok(removed as u64)
    }
}

} // verus!
