use vstd::prelude::*;
use crate::error::ApiError;
use crate::text::append_text;
use crate::user::same_text;

verus! {

/// The version of the HTTP API that a request names in its path.
#[derive(Debug, Clone, Copy, PartialEq, Eq, Structural)]
pub enum ApiVersion {
    V1,
    V2,
}

pub open spec fn version_text(v: ApiVersion) -> Seq<char> {
    match v {
        ApiVersion::V1 => "v1"@,
        ApiVersion::V2 => "v2"@,
    }
}

impl ApiVersion {
    /// The version named `s`; any other name is a bad request.
    pub fn parse(s: &str) -> (r: Result<ApiVersion, ApiError>)
        ensures
            s@ == "v1"@ ==> r == Ok::<ApiVersion, ApiError>(ApiVersion::V1),
            s@ == "v2"@ ==> r == Ok::<ApiVersion, ApiError>(ApiVersion::V2),
            s@ != "v1"@ && s@ != "v2"@ ==> r matches Err(ApiError::BadRequest(_)),
    {
        proof {
            reveal_strlit("v1");
            reveal_strlit("v2");
            assert("v1"@[1] != "v2"@[1]);
        }
        if same_text(s, "v1") {
            Ok(ApiVersion::V1)
        } else if same_text(s, "v2") {
            Ok(ApiVersion::V2)
        } else {
            let mut msg = String::from_str("version (");
            append_text(&mut msg, s);
            append_text(&mut msg, ") not supported");
            Err(ApiError::BadRequest(msg))
        }
    }

    /// The name of the version.
    pub fn as_str(&self) -> (r: &'static str)
        ensures
            r@ == version_text(*self),
    {
        match self {
            ApiVersion::V1 => "v1",
            ApiVersion::V2 => "v2",
        }
    }

    /// The name of the version, as an owned string.
    pub fn to_string(&self) -> (r: String)
        ensures
            r@ == version_text(*self),
    {
        String::from_str(self.as_str())
    }
}

} // verus!
