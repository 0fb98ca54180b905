use msghub::errors::{LoginError, RegisterError};
use msghub::ids::{UserId, UserMessageId};
use msghub::records::{ClientMessage, LoginRequest, RegisterRequest};
use msghub::storage::Storage;

fn register_req(email: &str, pass: &str) -> RegisterRequest {
    RegisterRequest {
        email: String::from(email),
        password_hash: String::from(pass),
        pubkey: String::from("pk"),
    }
}

#[test]
fn register_then_login_yields_same_uid() {
    let mut store = Storage::new();
    let uid = store.try_register(register_req("a@x", "h1")).expect("fresh email registers");
    let back = store
        .try_login(&LoginRequest { email: String::from("a@x"), password_hash: String::from("h1") })
        .expect("same credentials authenticate");
    assert_eq!(uid, back);
}

#[test]
fn duplicate_registration_is_refused() {
    let mut store = Storage::new();
    store.try_register(register_req("a@x", "h1")).unwrap();
    let second = store.try_register(register_req("a@x", "other"));
    assert_eq!(second, Err(RegisterError::UserAlreadyExists));
}

#[test]
fn login_with_unknown_email_is_invalid_email() {
    let store = Storage::new();
    let r = store.try_login(&LoginRequest {
        email: String::from("nobody@x"),
        password_hash: String::from("h"),
    });
    assert_eq!(r, Err(LoginError::InvalidEmail));
}

#[test]
fn login_with_wrong_password_is_invalid_password() {
    let mut store = Storage::new();
    store.try_register(register_req("a@x", "right")).unwrap();
    let r = store.try_login(&LoginRequest {
        email: String::from("a@x"),
        password_hash: String::from("wrong"),
    });
    assert_eq!(r, Err(LoginError::InvalidPassword));
}

#[test]
fn uids_are_assigned_in_order() {
    let mut store = Storage::new();
    let a = store.try_register(register_req("a@x", "h")).unwrap();
    let b = store.try_register(register_req("b@x", "h")).unwrap();
    assert_eq!(a, UserId(1));
    assert_eq!(b, UserId(2));
}

#[test]
fn message_persists_with_echo() {
    let mut store = Storage::new();
    let echo = store
        .new_message_u(UserId(1), UserId(2), ClientMessage(String::from("hi")), 123)
        .expect("message persists");
    assert_eq!(echo.umid, UserMessageId(1));
    assert_eq!(echo.from, UserId(1));
    assert_eq!(echo.to, UserId(2));
    assert_eq!(echo.time_posted, 123);
    assert_eq!(echo.content.0, "hi");
}

#[test]
fn unread_returns_only_unread_in_order() {
    let mut store = Storage::new();
    let first = store
        .new_message_u(UserId(1), UserId(2), ClientMessage(String::from("one")), 1)
        .unwrap();
    store.new_message_u(UserId(1), UserId(3), ClientMessage(String::from("other")), 2).unwrap();
    store.new_message_u(UserId(1), UserId(2), ClientMessage(String::from("two")), 3).unwrap();
    store.flag_u_read(first.umid).unwrap();
    let unread = store.get_user_user_unread(UserId(1), UserId(2)).unwrap();
    assert_eq!(unread.len(), 1);
    assert_eq!(unread[0].content.0, "two");
}

#[test]
fn friendship_is_recorded_both_ways() {
    let mut store = Storage::new();
    assert_eq!(store.are_friends(UserId(1), Some(UserId(2))), Some(false));
    store.add_friend(UserId(1), UserId(2)).unwrap();
    assert_eq!(store.are_friends(UserId(1), Some(UserId(2))), Some(true));
    assert_eq!(store.are_friends(UserId(2), Some(UserId(1))), Some(true));
    assert_eq!(store.are_friends(UserId(1), None), Some(false));
}

#[test]
fn profile_fetch_masks_for_owner_and_stranger() {
    let mut store = Storage::new();
    let uid = store.try_register(register_req("a@x", "h1")).unwrap();
    let own = store.get_user_data(uid, Some(uid)).expect("own profile");
    assert!(own.hashed_pass.is_some());
    assert_eq!(own.email.as_deref(), Some("a@x"));
    // the default visibility is FriendsOnly: a stranger keeps the lists but
    // loses the email and the password hash
    let stranger = store.get_user_data(uid, Some(UserId(999))).expect("public view");
    assert!(stranger.hashed_pass.is_none());
    assert!(stranger.email.is_none());
    assert!(stranger.friends.is_some());
}

#[test]
fn profile_fetch_unknown_user_is_none() {
    let store = Storage::new();
    assert!(store.get_user_data(UserId(5), None).is_none());
}

#[test]
fn group_paths_are_stubs() {
    let mut store = Storage::new();
    assert!(store.get_group_data(msghub::ids::GroupId(1)).is_none());
    assert!(store.get_user_group_unread(UserId(1), msghub::ids::GroupId(1)).is_none());
    assert!(store.flag_g_read(msghub::ids::GroupMessageId(1)).is_none());
    assert!(store.remove_friend(UserId(1), UserId(2)).is_none());
    let gm = store.new_message_g(UserId(1), msghub::ids::GroupId(1), ClientMessage(String::from("g")));
    assert!(gm.is_some());
}
