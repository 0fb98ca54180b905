use msghub::codec::parse_u32_list;
use msghub::ids::{GroupId, UserId, UserMessageId};
use msghub::records::{
    parse_user_status, parse_user_visibility, FromSqlTup, PublicUserMessage, SqlUserMessage,
    SqlUserRecord, UserRecord, UserStatus, UserVisibility,
};

fn sample_row() -> SqlUserRecord {
    (
        3,
        String::from("a@x"),
        String::from("pk"),
        String::from("hash"),
        None,
        String::from("[1,2]"),
        String::from("[]"),
        Some(String::from("hi")),
        String::from("\"Offline\""),
        String::from("\"FriendsOnly\""),
    )
}

#[test]
fn number_lists_parse_canonically() {
    assert_eq!(parse_u32_list("[]"), Some(vec![]));
    assert_eq!(parse_u32_list("[7]"), Some(vec![7]));
    assert_eq!(parse_u32_list("[1,2,3]"), Some(vec![1, 2, 3]));
    assert_eq!(parse_u32_list("[4294967295]"), Some(vec![u32::MAX]));
    assert!(parse_u32_list("").is_none());
    assert!(parse_u32_list("[").is_none());
    assert!(parse_u32_list("[1,]").is_none());
    assert!(parse_u32_list("[1, 2]").is_none());
    assert!(parse_u32_list("[1,2]x").is_none());
    assert!(parse_u32_list("[4294967296]").is_none());
}

#[test]
fn variant_columns_parse_their_quoted_names() {
    assert_eq!(parse_user_status("\"Online\""), Some(UserStatus::Online));
    assert_eq!(parse_user_status("\"Offline\""), Some(UserStatus::Offline));
    assert_eq!(parse_user_status("\"Invisible\""), Some(UserStatus::Invisible));
    assert_eq!(parse_user_status("Online"), None);
    assert_eq!(parse_user_visibility("\"Private\""), Some(UserVisibility::Private));
    assert_eq!(parse_user_visibility("\"FriendsOnly\""), Some(UserVisibility::FriendsOnly));
    assert_eq!(parse_user_visibility("\"Public\""), Some(UserVisibility::Public));
    assert_eq!(parse_user_visibility("\"Secret\""), None);
}

#[test]
fn account_rows_convert_to_records() {
    let rec = UserRecord::from_sql_tup(sample_row()).expect("canonical row converts");
    assert_eq!(rec.uid, UserId(3));
    assert_eq!(rec.email, "a@x");
    assert_eq!(rec.friends, vec![UserId(1), UserId(2)]);
    assert_eq!(rec.groups, Vec::<GroupId>::new());
    assert_eq!(rec.motd.as_deref(), Some("hi"));
    assert!(matches!(rec.status, UserStatus::Offline));
    assert!(matches!(rec.visibility, UserVisibility::FriendsOnly));
}

#[test]
fn bad_columns_refuse_the_row() {
    let mut row = sample_row();
    row.5 = String::from("[1;2]");
    assert!(UserRecord::from_sql_tup(row).is_none());
    let mut row = sample_row();
    row.8 = String::from("\"Zzz\"");
    assert!(UserRecord::from_sql_tup(row).is_none());
}

#[test]
fn message_rows_convert_to_echoes() {
    let row: SqlUserMessage = (9, 1, 2, String::from("hello"), 777, false);
    let m = PublicUserMessage::from_sql_tup(row).expect("message rows convert");
    assert_eq!(m.umid, UserMessageId(9));
    assert_eq!(m.from, UserId(1));
    assert_eq!(m.to, UserId(2));
    assert_eq!(m.content.0, "hello");
    assert_eq!(m.time_posted, 777);
}
