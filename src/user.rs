use vstd::prelude::*;
use crate::error::ApiError;
use crate::ids::new_id;
use crate::jwt::now_timestamp;
use crate::text::{append_text, chars_of, text_of};

verus! {

/// A role that a user may hold.
#[derive(Debug, Clone, Copy, PartialEq, Eq, Structural)]
pub enum Role {
    User,
    Admin,
}

/// The name of a role, as it stands in a role string.
pub open spec fn role_text(r: Role) -> Seq<char> {
    match r {
        Role::User => "user"@,
        Role::Admin => "admin"@,
    }
}

/// The names of `rs`, joined by commas.
pub open spec fn roles_text(rs: Seq<Role>) -> Seq<char>
    decreases rs.len(),
{
    if rs.len() == 0 {
        Seq::empty()
    } else if rs.len() == 1 {
        role_text(rs[0])
    } else {
        roles_text(rs.drop_last()) + seq![','] + role_text(rs.last())
    }
}

/// White space as `char::is_whitespace` has it (the Unicode `White_Space` property).
pub open spec fn is_space(c: char) -> bool {
    ('\t' <= c && c <= '\r') || c == ' ' || c == '\u{85}' || c == '\u{A0}' || c == '\u{1680}' || (
    '\u{2000}' <= c && c <= '\u{200A}') || c == '\u{2028}' || c == '\u{2029}' || c == '\u{202F}'
        || c == '\u{205F}' || c == '\u{3000}'
}

/// The index of the first character of `s[from..to]` that is no white space, or `to`.
pub open spec fn first_solid(s: Seq<char>, from: int, to: int) -> int
    decreases to - from,
{
    if from < to && is_space(s[from]) {
        first_solid(s, from + 1, to)
    } else {
        from
    }
}

/// One past the last character of `s[from..to]` that is no white space, or `from`.
pub open spec fn last_solid(s: Seq<char>, from: int, to: int) -> int
    decreases to - from,
{
    if from < to && is_space(s[to - 1]) {
        last_solid(s, from, to - 1)
    } else {
        to
    }
}

/// `s` without leading and trailing white space, as `str::trim` gives it.
pub open spec fn trimmed(s: Seq<char>) -> Seq<char> {
    let a = first_solid(s, 0, s.len() as int);
    s.subrange(a, last_solid(s, a, s.len() as int))
}

/// The pieces of `s` between commas, as `str::split(',')` gives them.
pub open spec fn comma_pieces(s: Seq<char>) -> Seq<Seq<char>>
    decreases s.len(),
{
    if s.len() == 0 {
        seq![Seq::empty()]
    } else {
        let rest = comma_pieces(s.drop_last());
        if s.last() == ',' {
            rest.push(Seq::empty())
        } else {
            rest.update(rest.len() - 1, rest.last().push(s.last()))
        }
    }
}

/// The role that a piece of a role string names, once trimmed.
pub open spec fn piece_role(piece: Seq<char>) -> Option<Role> {
    if trimmed(piece) == "user"@ {
        Some(Role::User)
    } else if trimmed(piece) == "admin"@ {
        Some(Role::Admin)
    } else {
        None
    }
}

/// The roles that the pieces name, in order; pieces that name none are skipped.
pub open spec fn roles_named(pieces: Seq<Seq<char>>) -> Seq<Role>
    decreases pieces.len(),
{
    if pieces.len() == 0 {
        Seq::empty()
    } else {
        let rest = roles_named(pieces.drop_last());
        match piece_role(pieces.last()) {
            Some(r) => rest.push(r),
            None => rest,
        }
    }
}

/// The roles that a role string names.
pub open spec fn roles_of(s: Seq<char>) -> Seq<Role> {
    roles_named(comma_pieces(s))
}

/// Whether `a` and `b` hold the same characters.
pub fn same_text(a: &str, b: &str) -> (r: bool)
    ensures
        r == (a@ == b@),
{
    let x = String::from_str(a);
    let y = String::from_str(b);
    x == y
}

/// Whether the character is white space in the sense of `char::is_whitespace`.
pub fn is_space_char(c: char) -> (r: bool)
    ensures
        r == is_space(c),
{
    ('\t' <= c && c <= '\r') || c == ' ' || c == '\u{85}' || c == '\u{A0}' || c == '\u{1680}' || (
    '\u{2000}' <= c && c <= '\u{200A}') || c == '\u{2028}' || c == '\u{2029}' || c == '\u{202F}'
        || c == '\u{205F}' || c == '\u{3000}'
}

/// `p[from..to]` without leading and trailing white space.
fn trim_range(p: &Vec<char>, from: usize, to: usize) -> (r: String)
    requires
        from <= to <= p@.len(),
    ensures
        r@ == trimmed(p@.subrange(from as int, to as int)),
{
    let ghost s = p@.subrange(from as int, to as int);
    let mut a: usize = from;
    while a < to && is_space_char(p[a])
        invariant
            from <= a <= to <= p@.len(),
            s == p@.subrange(from as int, to as int),
            first_solid(s, a - from, s.len() as int) == first_solid(s, 0, s.len() as int),
        decreases to - a,
    {
        assert(s[a - from] == p@[a as int]);
        a += 1;
    }
    proof {
        if a < to {
            assert(s[a - from] == p@[a as int]);
        }
    }
    let ghost fa = a - from;
    assert(first_solid(s, fa, s.len() as int) == fa);
    let mut b: usize = to;
    while b > a && is_space_char(p[b - 1])
        invariant
            from <= a <= b <= to <= p@.len(),
            s == p@.subrange(from as int, to as int),
            fa == a - from,
            last_solid(s, fa, b - from) == last_solid(s, fa, s.len() as int),
        decreases b - a,
    {
        assert(s[b - 1 - from] == p@[b - 1]);
        b -= 1;
    }
    proof {
        if b > a {
            assert(s[b - 1 - from] == p@[b - 1]);
        }
    }
    assert(last_solid(s, fa, b - from) == b - from);
    let r = text_of(p, a, b);
    assert(r@ =~= s.subrange(fa, b - from));
    r
}

/// The role that the piece `p[from..to]` names.
fn role_of_piece(p: &Vec<char>, from: usize, to: usize) -> (r: Option<Role>)
    requires
        from <= to <= p@.len(),
    ensures
        r == piece_role(p@.subrange(from as int, to as int)),
{
    let t = trim_range(p, from, to);
    if same_text(t.as_str(), "user") {
        Some(Role::User)
    } else if same_text(t.as_str(), "admin") {
        Some(Role::Admin)
    } else {
        None
    }
}

impl Role {
    /// The name of the role.
    pub fn as_str(&self) -> (r: &'static str)
        ensures
            r@ == role_text(*self),
    {
        match self {
            Role::User => "user",
            Role::Admin => "admin",
        }
    }

    /// The name of the role, as an owned string.
    pub fn to_string(&self) -> (r: String)
        ensures
            r@ == role_text(*self),
    {
        String::from_str(self.as_str())
    }

    /// The role named `s`; any other text is a bad request.
    pub fn parse(s: &str) -> (r: Result<Role, ApiError>)
        ensures
            s@ == "user"@ ==> r == Ok::<Role, ApiError>(Role::User),
            s@ == "admin"@ ==> r == Ok::<Role, ApiError>(Role::Admin),
            s@ != "user"@ && s@ != "admin"@ ==> r matches Err(ApiError::BadRequest(_)),
    {
        proof {
            reveal_strlit("user");
            reveal_strlit("admin");
            assert("user"@.len() != "admin"@.len());
        }
        if same_text(s, "user") {
            Ok(Role::User)
        } else if same_text(s, "admin") {
            Ok(Role::Admin)
        } else {
            let mut msg = String::from_str("role (");
            append_text(&mut msg, s);
            append_text(&mut msg, ") not recognized");
            Err(ApiError::BadRequest(msg))
        }
    }

    /// The names of `roles`, joined by commas.
    pub fn from_vec(roles: &[Role]) -> (r: String)
        ensures
            r@ == roles_text(roles@),
    {
        let mut out = String::new();
        let mut i: usize = 0;
        while i < roles.len()
            invariant
                i <= roles@.len(),
                out@ == roles_text(roles@.take(i as int)),
            decreases roles@.len() - i,
        {
            let ghost before = roles@.take(i as int);
            if i > 0 {
                append_text(&mut out, ",");
            }
            append_text(&mut out, roles[i].as_str());
            proof {
                reveal_strlit(",");
                let now = roles@.take(i + 1);
                assert(now.drop_last() =~= before);
                assert(now.last() == roles@[i as int]);
                if i == 0 {
                    assert(before =~= Seq::<Role>::empty());
                    assert(out@ =~= role_text(roles@[0]));
                } else {
                    assert(out@ =~= roles_text(before) + seq![','] + role_text(roles@[i as int]));
                }
            }
            i += 1;
        }
        assert(roles@.take(i as int) =~= roles@);
        out
    }

    /// The roles that a comma-separated role string names: each piece is
    /// trimmed, and pieces that name no role are skipped.
    pub fn to_vec(roles: &str) -> (r: Vec<Role>)
        ensures
            r@ == roles_of(roles@),
    {
        let p = chars_of(roles);
        let mut out: Vec<Role> = Vec::new();
        let mut start: usize = 0;
        let mut i: usize = 0;
        let ghost mut done: Seq<Seq<char>> = Seq::empty();
        assert(p@.take(0) =~= Seq::<char>::empty());
        assert(done.push(p@.subrange(0, 0)) =~= seq![Seq::<char>::empty()]);
        while i < p.len()
            invariant
                p@ == roles@,
                start <= i <= p@.len(),
                comma_pieces(p@.take(i as int)) == done.push(p@.subrange(start as int, i as int)),
                out@ == roles_named(done),
            decreases p@.len() - i,
        {
            let ghost prefix = p@.take(i as int);
            let ghost next = p@.take(i + 1);
            assert(next.drop_last() =~= prefix);
            assert(next.last() == p@[i as int]);
            if p[i] == ',' {
                let role = role_of_piece(&p, start, i);
                proof {
                    let piece = p@.subrange(start as int, i as int);
                    let old_done = done;
                    done = done.push(piece);
                    assert(done.drop_last() =~= old_done);
                    assert(comma_pieces(next) == comma_pieces(prefix).push(Seq::<char>::empty()));
                    assert(p@.subrange(i + 1, i + 1) =~= Seq::<char>::empty());
                    assert(comma_pieces(next) =~= done.push(p@.subrange(i + 1, i + 1)));
                }
                match role {
                    Some(r) => out.push(r),
                    None => {},
                }
                start = i + 1;
            } else {
                proof {
                    let ps = done.push(p@.subrange(start as int, i as int));
                    assert(comma_pieces(next) == ps.update(ps.len() - 1, ps.last().push(p@[i as int])));
                    assert(p@.subrange(start as int, i as int).push(p@[i as int]) =~= p@.subrange(
                        start as int,
                        i + 1,
                    ));
                    assert(ps.update(ps.len() - 1, ps.last().push(p@[i as int])) =~= done.push(
                        p@.subrange(start as int, i + 1),
                    ));
                }
            }
            i += 1;
        }
        let role = role_of_piece(&p, start, i);
        proof {
            let piece = p@.subrange(start as int, i as int);
            let all = done.push(piece);
            assert(all.drop_last() =~= done);
            assert(p@.take(i as int) =~= p@);
        }
        match role {
            Some(r) => out.push(r),
            None => {},
        }
        out
    }
}

/// A stored user account.
#[derive(Debug, Clone, PartialEq, Eq)]
pub struct User {
    pub id: u128,
    pub username: String,
    pub password_hash: String,
    /// The user's roles, joined by commas.
    pub roles: String,
    /// Creation time, in seconds since the Unix epoch.
    pub created_at: i64,
    /// Time of the last change, in seconds since the Unix epoch.
    pub updated_at: i64,
}

pub struct UserView {
    pub id: u128,
    pub username: Seq<char>,
    pub password_hash: Seq<char>,
    pub roles: Seq<char>,
    pub created_at: i64,
    pub updated_at: i64,
}

impl View for User {
    type V = UserView;

    open spec fn view(&self) -> UserView {
        UserView {
            id: self.id,
            username: self.username@,
            password_hash: self.password_hash@,
            roles: self.roles@,
            created_at: self.created_at,
            updated_at: self.updated_at,
        }
    }
}

impl User {
    /// A new account with id `id`, created at `now`.
    pub fn with_id(id: u128, username: &str, password_hash: &str, roles: &[Role], now: i64) -> (r: User)
        ensures
            r@ == (UserView {
                id,
                username: username@,
                password_hash: password_hash@,
                roles: roles_text(roles@),
                created_at: now,
                updated_at: now,
            }),
    {
        User {
            id,
            username: String::from_str(username),
            password_hash: String::from_str(password_hash),
            roles: Role::from_vec(roles),
            created_at: now,
            updated_at: now,
        }
    }

    /// A new account with a fresh id, created now.
    pub fn new(username: &str, password_hash: &str, roles: &[Role]) -> (r: User)
        ensures
            r@.username == username@,
            r@.password_hash == password_hash@,
            r@.roles == roles_text(roles@),
            r@.created_at == r@.updated_at,
    {
        User::with_id(new_id(), username, password_hash, roles, now_timestamp())
    }

    /// A copy of the account.
    pub fn duplicate(&self) -> (r: User)
        ensures
            r@ == self@,
    {
        User {
            id: self.id,
            username: self.username.clone(),
            password_hash: self.password_hash.clone(),
            roles: self.roles.clone(),
            created_at: self.created_at,
            updated_at: self.updated_at,
        }
    }

    /// Whether the user's role string names `role`.
    pub fn has_role(&self, role: Role) -> (r: bool)
        ensures
            r == roles_of(self.roles@).contains(role),
    {
        let roles = Role::to_vec(self.roles.as_str());
        let mut i: usize = 0;
        while i < roles.len()
            invariant
                i <= roles@.len(),
                roles@ == roles_of(self.roles@),
                forall|j: int| 0 <= j < i ==> roles@[j] != role,
            decreases roles@.len() - i,
        {
            if roles[i] == role {
                return true;
            }
            i += 1;
        }
        false
    }
}

/// What of a user may be shown to clients: everything but the password hash.
#[derive(Debug, Clone, PartialEq, Eq)]
pub struct UserDto {
    pub id: u128,
    pub username: String,
    pub roles: String,
    pub created_at: i64,
    pub updated_at: i64,
}

impl UserDto {
    pub fn from_user(user: &User) -> (r: UserDto)
        ensures
            r.id == user.id,
            r.username@ == user.username@,
            r.roles@ == user.roles@,
            r.created_at == user.created_at,
            r.updated_at == user.updated_at,
    {
        UserDto {
            id: user.id,
            username: String::from_str(user.username.as_str()),
            roles: String::from_str(user.roles.as_str()),
            created_at: user.created_at,
            updated_at: user.updated_at,
        }
    }
}

/// The stored record of an issued refresh token.
#[derive(Debug, Clone, PartialEq, Eq)]
pub struct RefreshToken {
    pub jti: u128,
    pub sub: u128,
    pub exp: i64,
    pub iat: i64,
    /// A one-way hash of the token's text.
    pub token_hash: String,
}

pub struct RefreshTokenView {
    pub jti: u128,
    pub sub: u128,
    pub exp: i64,
    pub iat: i64,
    pub token_hash: Seq<char>,
}

impl View for RefreshToken {
    type V = RefreshTokenView;

    open spec fn view(&self) -> RefreshTokenView {
        RefreshTokenView {
            jti: self.jti,
            sub: self.sub,
            exp: self.exp,
            iat: self.iat,
            token_hash: self.token_hash@,
        }
    }
}

impl RefreshToken {
    /// A copy of the record.
    pub fn duplicate(&self) -> (r: RefreshToken)
        ensures
            r@ == self@,
    {
        RefreshToken {
            jti: self.jti,
            sub: self.sub,
            exp: self.exp,
            iat: self.iat,
            token_hash: self.token_hash.clone(),
        }
    }

    pub fn new(jti: u128, sub: u128, exp: i64, iat: i64, token_hash: String) -> (r: RefreshToken)
        ensures
            r@ == (RefreshTokenView { jti, sub, exp, iat, token_hash: token_hash@ }),
    {
        RefreshToken { jti, sub, exp, iat, token_hash }
    }
}

} // verus!
