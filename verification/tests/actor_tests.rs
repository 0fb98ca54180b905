use msghub::actor::{Core, CoreReply, CoreRequest};
use msghub::codec::encode_serverbound;
use msghub::errors::{LoginError, RegisterError};
use msghub::ids::{GroupId, UserId, UserMessageId};
use msghub::msg::{CoreToWs, WsToCore, WsServerboundTx};
use msghub::records::{ClientMessage, LoginRequest, RegisterRequest};
use msghub::storage::Storage;

fn register_req(email: &str, pass: &str) -> RegisterRequest {
    RegisterRequest {
        email: String::from(email),
        password_hash: String::from(pass),
        pubkey: String::from("pk"),
    }
}

#[test]
fn register_and_login_through_the_actor() {
    let mut store = Storage::new();
    let reply = Core::handle_corereqs(CoreRequest::Register(register_req("a@x", "h")), &mut store, 0);
    let uid = match reply {
        Some(CoreReply::Register(Ok(uid))) => uid,
        other => panic!("expected a registration reply, got {:?}", other),
    };
    let reply = Core::handle_corereqs(
        CoreRequest::Login(LoginRequest { email: String::from("a@x"), password_hash: String::from("h") }),
        &mut store,
        0,
    );
    match reply {
        Some(CoreReply::Login(Ok(back))) => assert_eq!(back, uid),
        other => panic!("expected a login reply, got {:?}", other),
    }
}

#[test]
fn failed_login_reports_the_typed_error() {
    let mut store = Storage::new();
    let reply = Core::handle_corereqs(
        CoreRequest::Login(LoginRequest { email: String::from("a@x"), password_hash: String::from("h") }),
        &mut store,
        0,
    );
    assert!(matches!(reply, Some(CoreReply::Login(Err(LoginError::InvalidEmail)))));
    Core::handle_corereqs(CoreRequest::Register(register_req("a@x", "right")), &mut store, 0);
    let reply = Core::handle_corereqs(
        CoreRequest::Login(LoginRequest {
            email: String::from("a@x"),
            password_hash: String::from("wrong"),
        }),
        &mut store,
        0,
    );
    assert!(matches!(reply, Some(CoreReply::Login(Err(LoginError::InvalidPassword)))));
}

#[test]
fn duplicate_registration_reports_the_typed_error() {
    let mut store = Storage::new();
    Core::handle_corereqs(CoreRequest::Register(register_req("a@x", "h")), &mut store, 0);
    let reply = Core::handle_corereqs(CoreRequest::Register(register_req("a@x", "h2")), &mut store, 0);
    assert!(matches!(
        reply,
        Some(CoreReply::Register(Err(RegisterError::UserAlreadyExists)))
    ));
}

#[test]
fn stubbed_requests_give_no_reply() {
    let mut store = Storage::new();
    assert!(Core::handle_corereqs(CoreRequest::GetGroupData(GroupId(1)), &mut store, 0).is_none());
    assert!(Core::handle_corereqs(
        CoreRequest::GetUserGroupUnread { s: UserId(1), g: GroupId(1) },
        &mut store,
        0
    )
    .is_none());
    assert!(Core::handle_corereqs(
        CoreRequest::GetUserLast { s: UserId(1), r: UserId(2), amt: 5 },
        &mut store,
        0
    )
    .is_none());
    assert!(Core::handle_corereqs(
        CoreRequest::GetGroupLast { s: UserId(1), g: GroupId(1), amt: 5 },
        &mut store,
        0
    )
    .is_none());
}

#[test]
fn direct_message_request_persists_and_echoes() {
    let mut store = Storage::new();
    let reply = Core::handle_corereqs(
        CoreRequest::NewUserMessage {
            u: UserId(1),
            d: UserId(2),
            c: ClientMessage(String::from("hi")),
        },
        &mut store,
        42,
    );
    match reply {
        Some(CoreReply::NewUserMessage(p)) => {
            assert_eq!(p.umid, UserMessageId(1));
            assert_eq!(p.from, UserId(1));
            assert_eq!(p.to, UserId(2));
            assert_eq!(p.time_posted, 42);
        }
        other => panic!("expected a message echo, got {:?}", other),
    }
}

#[test]
fn unread_request_wraps_a_batch() {
    let mut store = Storage::new();
    store.new_message_u(UserId(1), UserId(2), ClientMessage(String::from("a")), 1).unwrap();
    store.new_message_u(UserId(1), UserId(2), ClientMessage(String::from("b")), 2).unwrap();
    let reply = Core::handle_corereqs(
        CoreRequest::GetUserUserUnread { s: UserId(1), r: UserId(2) },
        &mut store,
        0,
    );
    match reply {
        Some(CoreReply::ClientboundTx(tx)) => {
            let text = tx.extract();
            assert!(text.starts_with("{\"NewMessages\":["));
        }
        other => panic!("expected a wrapped batch, got {:?}", other),
    }
}

#[test]
fn routed_client_message_persists_and_fans_out() {
    let mut store = Storage::new();
    let text = encode_serverbound(2, "hello there");
    let tx = WsServerboundTx::new(UserId(1), &text).expect("canonical text parses");
    let out = Core::handle_ws(WsToCore::Tx(tx), &mut store, 7);
    match out {
        Some(CoreToWs::SendDirect { dest, tx }) => {
            assert_eq!(dest, UserId(2));
            assert_eq!(tx.confirm_id(), Some(UserMessageId(1)));
        }
        other => panic!("expected an outbound envelope, got {:?}", other),
    }
    let unread = store.get_user_user_unread(UserId(1), UserId(2)).unwrap();
    assert_eq!(unread.len(), 1);
    assert_eq!(unread[0].content.0, "hello there");
    assert_eq!(unread[0].time_posted, 7);
}

#[test]
fn read_ack_flags_the_message_read() {
    let mut store = Storage::new();
    let echo = store
        .new_message_u(UserId(1), UserId(2), ClientMessage(String::from("x")), 0)
        .unwrap();
    let out = Core::handle_ws(WsToCore::ReadAck { from: UserId(2), umid: echo.umid }, &mut store, 0);
    assert!(out.is_none());
    let unread = store.get_user_user_unread(UserId(1), UserId(2)).unwrap();
    assert!(unread.is_empty());
}
