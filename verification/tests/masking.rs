use msghub::records::{
    PublicUserRecord, UserMaskLevel, UserRecord, UserStatus, UserVisibility,
};
use msghub::records::{ClientMessage, HashedPassword, Pubkey};
use msghub::ids::UserId;

fn sample_record(visibility: UserVisibility) -> UserRecord {
    UserRecord {
        uid: UserId(7),
        email: String::from("a@example.com"),
        pubkey: Pubkey(String::from("pk")),
        hashed_pass: HashedPassword(String::from("hash")),
        alias: Some(String::from("al")),
        friends: vec![UserId(1), UserId(2)],
        groups: vec![],
        motd: None,
        status: UserStatus::Online,
        visibility,
    }
}

#[test]
fn owner_on_private_profile_sees_everything() {
    let rec = sample_record(UserVisibility::Private);
    let lvl = msghub::records::select_mask_level(UserId(7), Some(UserId(7)), false, rec.visibility);
    assert!(matches!(lvl, UserMaskLevel::SelfUse));
    let p: PublicUserRecord = rec.mask(lvl);
    assert!(p.hashed_pass.is_some());
    assert!(p.email.is_some());
    assert!(p.friends.is_some());
    assert!(p.groups.is_some());
}

#[test]
fn anonymous_on_private_profile_sees_nothing_sensitive() {
    let rec = sample_record(UserVisibility::Private);
    let lvl = msghub::records::select_mask_level(UserId(7), None, false, rec.visibility);
    assert!(matches!(lvl, UserMaskLevel::HidePassEmailMembership));
    let p = rec.mask(lvl);
    assert!(p.hashed_pass.is_none());
    assert!(p.email.is_none());
    assert!(p.friends.is_none());
    assert!(p.groups.is_none());
}

#[test]
fn friend_on_friendsonly_profile_keeps_email_and_lists() {
    let rec = sample_record(UserVisibility::FriendsOnly);
    let lvl = msghub::records::select_mask_level(UserId(7), Some(UserId(2)), true, rec.visibility);
    assert!(matches!(lvl, UserMaskLevel::HidePass));
    let p = rec.mask(lvl);
    assert!(p.hashed_pass.is_none());
    assert_eq!(p.email.as_deref(), Some("a@example.com"));
    assert_eq!(p.friends.as_ref().map(|f| f.len()), Some(2));
    assert!(p.groups.is_some());
}

#[test]
fn stranger_on_public_profile_loses_pass_and_email_only() {
    let rec = sample_record(UserVisibility::Public);
    let lvl = msghub::records::select_mask_level(UserId(7), Some(UserId(3)), false, rec.visibility);
    assert!(matches!(lvl, UserMaskLevel::HidePassEmail));
    let p = rec.mask(lvl);
    assert!(p.hashed_pass.is_none());
    assert!(p.email.is_none());
    assert!(p.friends.is_some());
    assert!(p.groups.is_some());
}

#[test]
fn online_flag_follows_status_and_mask() {
    let mut rec = sample_record(UserVisibility::Public);
    rec.status = UserStatus::Invisible;
    let p = rec.clone().mask(UserMaskLevel::SelfUse);
    assert!(p.online);
    let p2 = rec.mask(UserMaskLevel::HidePassEmail);
    assert!(!p2.online);
}

#[test]
fn message_content_display() {
    let c = ClientMessage(String::from("hello"));
    let c2 = c.clone();
    assert_eq!(c2.0, "hello");
}
