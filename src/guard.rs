use vstd::prelude::*;
use crate::claims::{Claims, ClaimsView};
use crate::error::{ApiError, AuthError};
use crate::jwt::{decode_token_at, decoded_as, now_timestamp, token_claims};
use crate::text::chars_of;
use crate::user::{roles_of, Role};

verus! {

/// The token that an `Authorization` header value carries after `Bearer `.
pub open spec fn bearer_of(header: Seq<char>) -> Option<Seq<char>> {
    if header.len() >= 7 && header.take(7) == "Bearer "@ {
        Some(header.skip(7))
    } else {
        None
    }
}

pub open spec fn header_view(header: Option<&str>) -> Option<Seq<char>> {
    match header {
        Some(h) => Some(h@),
        None => None,
    }
}

/// What checking a request's `Authorization` header gives at time `now`.
pub open spec fn request_claims(header: Option<Seq<char>>, secret: Seq<char>, now: i64) -> Result<
    ClaimsView,
    AuthError,
> {
    match header {
        Some(h) => match bearer_of(h) {
            Some(t) => token_claims(t, secret, now),
            None => Err(AuthError::Unauthorized),
        },
        None => Err(AuthError::Unauthorized),
    }
}

/// The bearer token of an `Authorization` header value; a missing header or
/// one without the `Bearer ` prefix is `Unauthorized`.
pub fn bearer_token(header: Option<&str>) -> (r: Result<String, ApiError>)
    ensures
        match header {
            Some(h) => match bearer_of(h@) {
                Some(t) => r matches Ok(s) && s@ == t,
                None => r == Err::<String, ApiError>(ApiError::Auth(AuthError::Unauthorized)),
            },
            None => r == Err::<String, ApiError>(ApiError::Auth(AuthError::Unauthorized)),
        },
{
    let h = match header {
        Some(h) => h,
        None => return Err(ApiError::Auth(AuthError::Unauthorized)),
    };
    let p = chars_of(h);
    match crate::text::expect_lit(&p, 0, "Bearer ") {
        Some(k) => {
            proof {
                reveal_strlit("Bearer ");
                assert(p@.subrange(0, 7) =~= p@.take(7));
            }
            let t = crate::text::text_of(&p, k, p.len());
            assert(t@ =~= h@.skip(7));
            Ok(t)
        },
        None => {
            proof {
                reveal_strlit("Bearer ");
                assert(p@.subrange(0, 7) =~= p@.take(7));
            }
            Err(ApiError::Auth(AuthError::Unauthorized))
        },
    }
}

/// Checks the bearer token of a request at time `now`: the claims it carries,
/// `Unauthorized` without one, and the decoding error otherwise.
pub fn authenticate_at(header: Option<&str>, secret: &str, now: i64) -> (r: Result<Claims, ApiError>)
    ensures
        decoded_as(r, request_claims(header_view(header), secret@, now)),
{
    let token = bearer_token(header)?;
    decode_token_at(token.as_str(), secret, now)
}

/// Checks the bearer token of a request at the current time.
pub fn authenticate(header: Option<&str>, secret: &str) -> (r: Result<Claims, ApiError>)
    ensures
        exists|now: i64| decoded_as(r, #[trigger] request_claims(header_view(header), secret@, now)),
{
    let now = now_timestamp();
    authenticate_at(header, secret, now)
}

/// What the token blacklist said of a token id.
#[derive(Debug, Clone, Copy, PartialEq, Eq, Structural)]
pub enum BlacklistAnswer {
    /// No blacklist is configured.
    NotConfigured,
    Listed,
    NotListed,
    /// The blacklist could not be asked in time.
    Unavailable,
}

/// Lets authenticated claims through unless the blacklist lists the token or
/// cannot be asked; both of those are `Unauthorized`.
pub fn check_blacklist(claims: Claims, answer: BlacklistAnswer) -> (r: Result<Claims, ApiError>)
    ensures
        answer == BlacklistAnswer::NotConfigured || answer == BlacklistAnswer::NotListed ==> (r matches Ok(
            c,
        ) && c@ == claims@),
        answer == BlacklistAnswer::Listed || answer == BlacklistAnswer::Unavailable ==> r == Err::<
            Claims,
            ApiError,
        >(ApiError::Auth(AuthError::Unauthorized)),
{
    match answer {
        BlacklistAnswer::NotConfigured | BlacklistAnswer::NotListed => Ok(claims),
        BlacklistAnswer::Listed | BlacklistAnswer::Unavailable => Err(
            ApiError::Auth(AuthError::Unauthorized),
        ),
    }
}

impl Claims {
    /// Whether the claims' role string names `role`.
    pub fn has_role(&self, role: Role) -> (r: bool)
        ensures
            r == roles_of(self.roles@).contains(role),
    {
        let roles = Role::to_vec(self.roles.as_str());
        let mut i: usize = 0;
        while i < roles.len()
            invariant
                i <= roles@.len(),
                roles@ == roles_of(self.roles@),
                forall|j: int| 0 <= j < i ==> roles@[j] != role,
            decreases roles@.len() - i,
        {
            if roles[i] == role {
                return true;
            }
            i += 1;
        }
        false
    }
}

/// Lets administrators through; anyone else is `Forbidden`.
pub fn require_admin(claims: &Claims) -> (r: Result<(), ApiError>)
    ensures
        claims.admin ==> r is Ok,
        !claims.admin ==> r == Err::<(), ApiError>(ApiError::Auth(AuthError::Forbidden)),
{
    if claims.admin {
        Ok(())
    } else {
        Err(ApiError::Auth(AuthError::Forbidden))
    }
}

} // verus!
