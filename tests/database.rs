use flatline::database::{Database, MockDatabase};
use flatline::user::{RefreshToken, Role, User};

#[test]
fn create_user() {
    let mut db = MockDatabase::new();
    let user_res = db.create_user(User::new("test_user", "test_password", &[Role::User]));
    assert!(user_res.is_ok());

    let user = user_res.unwrap();
    assert_eq!(user.username, "test_user");
    assert_eq!(user.password_hash, "test_password");
}

#[test]
fn create_user_username_exists() {
    let mut db = MockDatabase::new();
    let _ = db.create_user(User::new("test_user", "test_password", &[Role::User]));
    let another_user_res =
        db.create_user(User::new("test_user", "another_test_password", &[Role::User]));

    assert!(another_user_res.is_err());
}

#[test]
fn find_all_users_non_found() {
    let db = MockDatabase::new();
    let users_res = db.find_all();
    assert!(users_res.is_ok());
    assert!(users_res.unwrap().is_empty());
}

#[test]
fn find_all_users() {
    let mut db = MockDatabase::new();
    let users_ctr = 10;

    for i in 0..users_ctr {
        let user_res = db.create_user(User::new(
            &format!("test_user_{}", i),
            &format!("test_password_{}", i),
            &[Role::User],
        ));
        assert!(user_res.is_ok());
    }

    let users_res = db.find_all();
    assert!(users_res.is_ok());

    let mut users = users_res.unwrap();
    assert_eq!(users.len(), users_ctr);

    users.sort_by(|a, b| a.username.cmp(&b.username));
    for (i, user) in users.iter().enumerate() {
        assert_eq!(user.username, format!("test_user_{}", i));
    }
}

#[test]
fn find_user_by_id_not_found() {
    let db = MockDatabase::new();
    let user_res = db.find_by_id(uuid::Uuid::new_v4().as_u128());
    assert!(user_res.is_ok());
    assert!(user_res.unwrap().is_none());
}

#[test]
fn find_user_by_id() {
    let mut db = MockDatabase::new();
    let user_create_res = db.create_user(User::new("test_user", "test_password", &[Role::User]));
    assert!(user_create_res.is_ok());

    let user_create = user_create_res.unwrap();
    let user_res = db.find_by_id(user_create.id);
    assert!(user_res.is_ok());

    let user_opt = user_res.unwrap();
    assert!(user_opt.is_some());

    let user = user_opt.unwrap();
    assert_eq!(user.id, user_create.id);
    assert_eq!(user.username, user_create.username);
}

#[test]
fn delete_all_users() {
    let mut db = MockDatabase::new();
    let users_ctr = 10;

    for i in 0..users_ctr {
        let user_res = db.create_user(User::new(
            &format!("test_user_{}", i),
            &format!("test_password_{}", i),
            &[Role::User],
        ));
        assert!(user_res.is_ok());
    }

    let deleted_count_res = db.delete_all_users();
    assert!(deleted_count_res.is_ok());
    assert_eq!(deleted_count_res.unwrap(), users_ctr as u64);
    assert!(db.find_all().unwrap().is_empty());
}

#[test]
fn find_by_username_finds_the_named_user() {
    let mut db = MockDatabase::new();
    let bob = db.create_user(User::new("bob", "h", &[Role::User])).unwrap();
    assert_eq!(db.find_by_username("bob").unwrap(), Some(bob));
    assert_eq!(db.find_by_username("Bob").unwrap(), None);
}

fn record(jti: u128, sub: u128, exp: i64, iat: i64) -> RefreshToken {
    RefreshToken::new(jti, sub, exp, iat, format!("hash{}", jti))
}

#[test]
fn token_records_by_subject_and_id() {
    let mut db = MockDatabase::new();
    db.create_token(record(1, 10, 100, 1)).unwrap();
    db.create_token(record(2, 10, 100, 2)).unwrap();
    db.create_token(record(3, 20, 100, 3)).unwrap();
    assert!(db.create_token(record(3, 30, 100, 3)).is_err());

    let mut mine: Vec<u128> = db.find_by_sub(10).unwrap().iter().map(|t| t.jti).collect();
    mine.sort();
    assert_eq!(mine, vec![1, 2]);
    assert!(db.find_by_sub(99).unwrap().is_empty());

    assert_eq!(db.find_by_jti(3).unwrap().map(|t| t.sub), Some(20));
    assert_eq!(db.delete_by_jti(3).unwrap().map(|t| t.jti), Some(3));
    assert_eq!(db.delete_by_jti(3).unwrap(), None);
    assert_eq!(db.find_by_jti(3).unwrap(), None);
}

#[test]
fn delete_expired_removes_only_expired_records() {
    let mut db = MockDatabase::new();
    db.create_token(record(1, 10, 50, 1)).unwrap();
    db.create_token(record(2, 10, 100, 2)).unwrap();
    db.create_token(record(3, 20, 101, 3)).unwrap();
    assert_eq!(db.delete_expired(100).unwrap(), 1);
    assert_eq!(db.find_by_jti(2).unwrap().map(|t| t.jti), Some(2));
    assert_eq!(db.find_by_jti(3).unwrap().map(|t| t.jti), Some(3));
    assert_eq!(db.find_by_jti(1).unwrap(), None);
    assert_eq!(db.delete_expired(101).unwrap(), 1);
    assert_eq!(db.delete_expired(101).unwrap(), 0);
}
