use flatline::error::ApiError;
use flatline::user::{Role, User};

#[test]
fn role_string_from_vec() {
    let roles = vec![Role::User, Role::Admin];
    let role_string = Role::from_vec(&roles);

    assert_eq!("user,admin", role_string);
}

#[test]
fn roles_from_string() {
    let role_string = "user,admin";
    let roles = Role::to_vec(role_string);

    assert_eq!(vec![Role::User, Role::Admin], roles);
}

#[test]
fn user_has_role() {
    let user = User::new("test_user", "test_hash", &[Role::User]);

    assert!(user.has_role(Role::User));
    assert!(!user.has_role(Role::Admin));
}

#[test]
fn role_string_of_no_roles_is_empty() {
    assert_eq!("", Role::from_vec(&[]));
    assert_eq!("admin", Role::from_vec(&[Role::Admin]));
}

#[test]
fn roles_from_string_trims_and_skips() {
    assert_eq!(vec![Role::Admin, Role::User], Role::to_vec(" admin ,, nobody,\tuser "));
    assert_eq!(Vec::<Role>::new(), Role::to_vec(""));
    assert_eq!(Vec::<Role>::new(), Role::to_vec("superuser"));
}

#[test]
fn role_membership_is_by_name_not_substring() {
    let mut user = User::new("u", "h", &[Role::User]);
    user.roles = "superuser,administrator".to_string();
    assert!(!user.has_role(Role::User));
    assert!(!user.has_role(Role::Admin));
}

#[test]
fn role_parse_and_names() {
    assert_eq!(Role::parse("user"), Ok(Role::User));
    assert_eq!(Role::parse("admin"), Ok(Role::Admin));
    assert_eq!(
        Role::parse("root"),
        Err(ApiError::BadRequest("role (root) not recognized".to_string()))
    );
    assert_eq!(Role::Admin.to_string(), "admin");
    assert_eq!(Role::User.as_str(), "user");
}

#[test]
fn new_user_keeps_fields() {
    let user = User::new("alice", "hash", &[Role::User, Role::Admin]);
    assert_eq!(user.username, "alice");
    assert_eq!(user.password_hash, "hash");
    assert_eq!(user.roles, "user,admin");
    assert_eq!(user.created_at, user.updated_at);
    let other = User::new("alice", "hash", &[Role::User]);
    assert_ne!(user.id, other.id);
}
