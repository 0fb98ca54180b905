use msghub::codec::{encode_clientbound, encode_serverbound, parse_serverbound};
use msghub::ids::{UserId, UserMessageId};
use msghub::msg::WsClientboundPayload;
use msghub::records::{ClientMessage, PublicUserMessage};

#[test]
fn serverbound_encoding_is_canonical() {
    let s = encode_serverbound(5, "hi");
    assert_eq!(s, "{\"NewUserMessage\":{\"to\":5,\"content\":\"hi\"}}");
}

#[test]
fn serverbound_encoding_escapes_quotes_and_backslashes() {
    let s = encode_serverbound(1, "a\"b\\c");
    assert_eq!(s, "{\"NewUserMessage\":{\"to\":1,\"content\":\"a\\\"b\\\\c\"}}");
}

#[test]
fn serverbound_round_trip() {
    let text = encode_serverbound(4242, "quote \" and slash \\ and plain");
    let parsed = parse_serverbound(&text).expect("canonical encoding must parse");
    assert_eq!(parsed.0, 4242);
    assert_eq!(parsed.1, "quote \" and slash \\ and plain");
}

#[test]
fn serverbound_round_trip_empty_content() {
    let text = encode_serverbound(0, "");
    let parsed = parse_serverbound(&text).expect("canonical encoding must parse");
    assert_eq!(parsed.0, 0);
    assert_eq!(parsed.1, "");
}

#[test]
fn serverbound_round_trip_max_user() {
    let text = encode_serverbound(u32::MAX, "x");
    let parsed = parse_serverbound(&text).expect("canonical encoding must parse");
    assert_eq!(parsed.0, u32::MAX);
}

#[test]
fn parse_rejects_garbage() {
    assert!(parse_serverbound("").is_none());
    assert!(parse_serverbound("{}").is_none());
    assert!(parse_serverbound("{\"NewUserMessage\":{\"to\":,\"content\":\"x\"}}").is_none());
    assert!(parse_serverbound("{\"NewUserMessage\":{\"to\":1,\"content\":\"x\"}").is_none());
    assert!(parse_serverbound("{\"NewUserMessage\":{\"to\":1,\"content\":\"x\"}}z").is_none());
}

#[test]
fn parse_rejects_overflowing_destination() {
    let text = "{\"NewUserMessage\":{\"to\":4294967296,\"content\":\"x\"}}";
    assert!(parse_serverbound(text).is_none());
}

#[test]
fn parse_rejects_stray_backslash() {
    let text = "{\"NewUserMessage\":{\"to\":1,\"content\":\"a\\x\"}}";
    assert!(parse_serverbound(text).is_none());
}

fn sample_message() -> PublicUserMessage {
    PublicUserMessage {
        umid: UserMessageId(9),
        from: UserId(1),
        to: UserId(2),
        time_posted: 1700000000000,
        content: ClientMessage(String::from("hey")),
    }
}

#[test]
fn clientbound_new_message_encoding() {
    let s = encode_clientbound(&WsClientboundPayload::NewMessage(sample_message()));
    assert_eq!(
        s,
        "{\"NewMessage\":{\"umid\":9,\"from\":1,\"to\":2,\"time_posted\":1700000000000,\"content\":\"hey\"}}"
    );
}

#[test]
fn clientbound_message_sent_encoding() {
    let s = encode_clientbound(&WsClientboundPayload::MessageSent(UserMessageId(77)));
    assert_eq!(s, "{\"MessageSent\":77}");
}

#[test]
fn clientbound_batch_encoding() {
    let mut second = sample_message();
    second.umid = UserMessageId(10);
    let s = encode_clientbound(&WsClientboundPayload::NewMessages(vec![
        sample_message(),
        second,
    ]));
    assert_eq!(
        s,
        "{\"NewMessages\":[{\"umid\":9,\"from\":1,\"to\":2,\"time_posted\":1700000000000,\"content\":\"hey\"},{\"umid\":10,\"from\":1,\"to\":2,\"time_posted\":1700000000000,\"content\":\"hey\"}]}"
    );
}

#[test]
fn clientbound_empty_batch_encoding() {
    let s = encode_clientbound(&WsClientboundPayload::NewMessages(vec![]));
    assert_eq!(s, "{\"NewMessages\":[]}");
}
