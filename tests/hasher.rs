use flatline::hasher::{hash_string, verify_hash};

#[test]
fn verify_hash_correct() {
    let password = "test_password";
    let hash = hash_string(password);

    assert!(verify_hash(&hash, password));
}

#[test]
fn verify_hash_failed() {
    let password = "test_password";
    let hash = hash_string(password);

    assert!(!verify_hash(&hash, "wrong_password"));
}

#[test]
fn hashes_are_salted_and_self_describing() {
    let a = hash_string("pw");
    let b = hash_string("pw");
    assert_ne!(a, b);
    assert_ne!(a, "pw");
    assert!(a.starts_with("$argon2"));
    assert!(verify_hash(&b, "pw"));
}

#[test]
fn malformed_hash_matches_nothing() {
    assert!(!verify_hash("not a hash", "not a hash"));
    assert!(!verify_hash("", ""));
}
