use vstd::prelude::*;

verus! {

/// The longest password, in bytes, that Argon2 accepts.
pub const MAX_SECRET_BYTES: usize = 0xFFFF_FFFF;

/// Whether `hash`, a PHC string, is an Argon2 hash of `plain`.
pub uninterp spec fn argon2_accepts(hash: Seq<char>, plain: Seq<char>) -> bool;

/// Relies on `argon2::Argon2::default().hash_password` with a salt drawn from
/// `OsRng`, written as a PHC string: whatever the salt, `verify_password` with
/// the same password accepts it. `hash_password` fails only for a password
/// longer than `MAX_PWD_LEN` bytes, which `requires` leaves out.
#[verifier::external_body]
fn argon2_hash(plain: &str) -> (r: String)
    requires
        plain.len() <= MAX_SECRET_BYTES,
    ensures
        argon2_accepts(r@, plain@),
{
    let salt = argon2::password_hash::SaltString::generate(&mut argon2::password_hash::rand_core::OsRng);
    let hasher = argon2::Argon2::default();
    argon2::PasswordHasher::hash_password(&hasher, plain.as_bytes(), &salt).unwrap().to_string()
}

/// Relies on `argon2::PasswordHash::new` and `Argon2::default().verify_password`:
/// `true` iff the stored hash parses and the password matches it.
#[verifier::external_body]
fn argon2_verify(hash: &str, plain: &str) -> (r: bool)
    ensures
        r == argon2_accepts(hash@, plain@),
{
    let hasher = argon2::Argon2::default();
    match argon2::PasswordHash::new(hash) {
        Ok(parsed) => argon2::PasswordVerifier::verify_password(&hasher, plain.as_bytes(), &parsed).is_ok(),
        Err(_) => false,
    }
}

/// A salted, self-describing Argon2 hash of `plain`, which `verify_hash`
/// accepts for `plain`.
pub fn hash_string(plain: &str) -> (r: String)
    requires
        plain.len() <= MAX_SECRET_BYTES,
    ensures
        argon2_accepts(r@, plain@),
{
    argon2_hash(plain)
}

/// Whether `plain` matches the stored `hash`; a malformed hash matches nothing.
pub fn verify_hash(hash: &str, plain: &str) -> (r: bool)
    ensures
        r == argon2_accepts(hash@, plain@),
{
    argon2_verify(hash, plain)
}

} // verus!
