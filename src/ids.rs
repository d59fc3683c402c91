use vstd::prelude::*;
use crate::text::{lemma_uuid_text_len, text_of, uuid_text};

verus! {

/// Relies on `uuid::Uuid::new_v4`: a fresh random identifier. Nothing is
/// promised of its value.
#[verifier::external_body]
pub(crate) fn new_id() -> (r: u128) {
    uuid::Uuid::new_v4().as_u128()
}

/// Relies on `uuid::Uuid::hyphenated` and its `Display`: the lower-case
/// hyphenated text of the identifier.
#[verifier::external_body]
pub(crate) fn id_text(v: u128) -> (r: String)
    ensures
        r@ == uuid_text(v),
{
    uuid::Uuid::from_u128(v).hyphenated().to_string()
}

/// Relies on `uuid::Uuid::try_parse`: the hyphenated text of an identifier
/// parses back to it.
#[verifier::external_body]
fn parse_id(s: &str) -> (r: Option<u128>)
    ensures
        forall|v: u128| #[trigger] uuid_text(v) == s@ ==> r == Some(v),
{
    uuid::Uuid::try_parse(s).ok().map(|u| u.as_u128())
}

/// Reads the hyphenated text of an identifier at position `k` of `p`.
pub fn scan_id(p: &Vec<char>, k: usize) -> (r: Option<(u128, usize)>)
    requires
        k <= p@.len(),
    ensures
        r matches Some((v, j)) ==> j == k + 36 && j <= p@.len() && p@.subrange(k as int, j as int)
            == uuid_text(v),
        forall|v: u128|
            #![trigger uuid_text(v)]
            k + 36 <= p@.len() && p@.subrange(k as int, k + 36) == uuid_text(v) ==> r == Some(
                (v, (k + 36) as usize),
            ),
{
    if p.len() - k < 36 {
        return None;
    }
    let t = text_of(p, k, k + 36);
    match parse_id(t.as_str()) {
        Some(v) => {
            let back = id_text(v);
            proof {
                lemma_uuid_text_len(v);
            }
            if back == t {
                Some((v, k + 36))
            } else {
                None
            }
        },
        None => None,
    }
}

} // verus!
