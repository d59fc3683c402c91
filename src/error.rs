use vstd::prelude::*;

verus! {

/// Failures that the authentication core reports to its callers.
#[derive(Debug, Clone, Copy, PartialEq, Eq, Structural)]
pub enum AuthError {
    InvalidCredentials,
    Unauthorized,
    Forbidden,
    TokenInvalid,
    TokenExpired,
    UsernameAlreadyTaken,
}

/// The HTTP status code that stands for an authentication failure.
pub open spec fn auth_status(e: AuthError) -> u16 {
    match e {
        AuthError::InvalidCredentials => 401,
        AuthError::Unauthorized => 401,
        AuthError::Forbidden => 403,
        AuthError::TokenInvalid => 401,
        AuthError::TokenExpired => 401,
        AuthError::UsernameAlreadyTaken => 409,
    }
}

impl AuthError {
    /// The HTTP status code for this failure.
    pub fn status_code(&self) -> (r: u16)
        ensures
            r == auth_status(*self),
    {
        match self {
            AuthError::InvalidCredentials => 401,
            AuthError::Unauthorized => 401,
            AuthError::Forbidden => 403,
            AuthError::TokenInvalid => 401,
            AuthError::TokenExpired => 401,
            AuthError::UsernameAlreadyTaken => 409,
        }
    }
}

/// Errors that the library reports to the handlers that call it.
#[derive(Debug, Clone, PartialEq, Eq)]
pub enum ApiError {
    BadRequest(String),
    NotFound(String),
    Auth(AuthError),
    /// A failure of a store or of an outside service, with a description for logs.
    Internal(String),
}

/// The HTTP status code that stands for an error.
pub open spec fn api_status(e: ApiError) -> u16 {
    match e {
        ApiError::BadRequest(_) => 400,
        ApiError::NotFound(_) => 404,
        ApiError::Auth(a) => auth_status(a),
        ApiError::Internal(_) => 500,
    }
}

impl ApiError {
    /// The HTTP status code for this error.
    pub fn status_code(&self) -> (r: u16)
        ensures
            r == api_status(*self),
    {
        match self {
            ApiError::BadRequest(_) => 400,
            ApiError::NotFound(_) => 404,
            ApiError::Auth(a) => a.status_code(),
            ApiError::Internal(_) => 500,
        }
    }

    /// Whether the error may be described to the client; internal failures are
    /// only logged.
    pub fn is_public(&self) -> (r: bool)
        ensures
            r == !(*self is Internal),
    {
        !matches!(self, ApiError::Internal(_))
    }
}

} // verus!
