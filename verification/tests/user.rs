use uattestation::clock::ClockReading;
use uattestation::user::{
    chrono_now, default_role, success_message, user_key, users_key_prefix, Timestamp, User, UserError,
};

fn user(id: i32) -> User {
    User {
        id,
        username: "anonymous".to_string(),
        email: "anonymous@quick.org".to_string(),
        password: "@meduo".to_string(),
        role: "0".to_string(),
        is_deleted: false,
        created_at: Timestamp { secs: 0, nanos: 0 },
        deleted_at: None,
        login_session: "SESSION-1000100".to_string(),
    }
}

#[test]
fn keys_lie_under_the_prefix() {
    assert_eq!(users_key_prefix(), "/users");
    assert_eq!(user_key("10000"), "/users/10000");
    assert!(user_key("anonymous").starts_with(&users_key_prefix()));
}

#[test]
fn lookups() {
    match User::find_by_id(1, Some(user(100001))) {
        Ok(u) => assert_eq!(u.id, 100001),
        Err(_) => panic!("expected the user"),
    }
    assert!(matches!(User::find_by_id(0, None), Err(UserError::CanNotFindUser)));
    assert!(matches!(User::find_by_id(0, Some(user(1))), Err(UserError::CanNotFindUser)));
}

#[test]
fn deletions() {
    assert!(User::delete(1).is_ok());
    assert!(matches!(User::delete(0), Err(UserError::DeleteUserError)));
}

#[test]
fn sessions() {
    assert!(User::is_valid_login_session(&Ok(user(1))));
    assert!(!User::is_valid_login_session(&Err(UserError::CanNotFindUser)));
}

#[test]
fn defaults() {
    assert_eq!(default_role(), "default");
    let now = chrono_now().unwrap();
    assert_eq!(now.nanos, 0);
    assert!(now.secs > 1_600_000_000);
}

#[test]
fn timestamps_of_readings() {
    let t = uattestation::user::timestamp_of(ClockReading { seconds: 1234, nanos: Some(1_234_000_000_567) });
    assert_eq!(t.secs, 1234);
    assert_eq!(t.nanos, 0);
}

#[test]
fn messages() {
    assert_eq!(UserError::CanNotFindUser.message(), "Can not find user");
    assert_eq!(UserError::DeleteUserError.message(), "Can not delete user");
    assert_eq!(success_message(), "ok");
}
