use msghub::codec::encode_serverbound;
use msghub::hub::{AdmitOutcome, Hub};
use msghub::ids::{ConnectionId, UserId};
use msghub::msg::{CoreToWs, WebToWs, WorkerToWs, WsClientboundPayload, WsClientboundTx, WsToCore, WsToWorker};
use msghub::records::{ClientMessage, PublicUserMessage};
use msghub::ids::UserMessageId;
use msghub::token::LoginToken;

fn token(text: &str) -> LoginToken {
    LoginToken { tk: String::from(text) }
}

fn hub_with_token(tk: &str, u: UserId) -> Hub {
    let mut hub = Hub::new();
    hub.register_token(u, token(tk));
    hub
}

fn fresh_message(umid: u64) -> WsClientboundTx {
    WsClientboundTx::new(WsClientboundPayload::NewMessage(PublicUserMessage {
        umid: UserMessageId(umid),
        from: UserId(1),
        to: UserId(2),
        time_posted: 5,
        content: ClientMessage(String::from("m")),
    }))
}

#[test]
fn missing_header_is_malformed() {
    let mut hub = Hub::new();
    assert_eq!(hub.try_admit(None), AdmitOutcome::RejectedMalformed);
    assert_eq!(hub.try_admit(Some(None)), AdmitOutcome::RejectedMalformed);
}

#[test]
fn never_issued_token_is_unauthorized_and_allocates_nothing() {
    let mut hub = hub_with_token("AAAAAAAAAAAAAAAAAAAAAAAAAAAAAAAAAAAAAAAA", UserId(1));
    let unknown = "BBBBBBBBBBBBBBBBBBBBBBBBBBBBBBBBBBBBBBBB";
    assert_eq!(hub.try_admit(Some(Some(unknown))), AdmitOutcome::RejectedUnauthorized);
    // the allocator did not advance: the next admission still gets
    // connection identifier zero
    let ok = hub.try_admit(Some(Some("AAAAAAAAAAAAAAAAAAAAAAAAAAAAAAAAAAAAAAAA")));
    assert_eq!(ok, AdmitOutcome::Admitted(UserId(1), ConnectionId(0)));
}

#[test]
fn admissions_get_increasing_identifiers() {
    let mut hub = hub_with_token("AAAAAAAAAAAAAAAAAAAAAAAAAAAAAAAAAAAAAAAA", UserId(1));
    let a = hub.try_admit(Some(Some("AAAAAAAAAAAAAAAAAAAAAAAAAAAAAAAAAAAAAAAA")));
    let b = hub.try_admit(Some(Some("AAAAAAAAAAAAAAAAAAAAAAAAAAAAAAAAAAAAAAAA")));
    assert_eq!(a, AdmitOutcome::Admitted(UserId(1), ConnectionId(0)));
    assert_eq!(b, AdmitOutcome::Admitted(UserId(1), ConnectionId(1)));
}

#[test]
fn offline_recipient_gets_no_outbound_entries() {
    let hub = Hub::new();
    let env = CoreToWs::SendDirect { dest: UserId(2), tx: fresh_message(1) };
    let entries = hub.route_outbound(&env);
    assert_eq!(entries.len(), 0);
}

#[test]
fn recipient_with_two_connections_gets_two_entries_same_message() {
    let mut hub = hub_with_token("AAAAAAAAAAAAAAAAAAAAAAAAAAAAAAAAAAAAAAAA", UserId(2));
    hub.try_admit(Some(Some("AAAAAAAAAAAAAAAAAAAAAAAAAAAAAAAAAAAAAAAA")));
    hub.try_admit(Some(Some("AAAAAAAAAAAAAAAAAAAAAAAAAAAAAAAAAAAAAAAA")));
    let env = CoreToWs::SendDirect { dest: UserId(2), tx: fresh_message(9) };
    let entries = hub.route_outbound(&env);
    assert_eq!(entries.len(), 2);
    assert_eq!(entries[0].0, ConnectionId(0));
    assert_eq!(entries[1].0, ConnectionId(1));
    for (_, instruction) in &entries {
        match instruction {
            WsToWorker::Tx(tx) => assert_eq!(tx.confirm_id(), Some(UserMessageId(9))),
            WsToWorker::Disconnect => panic!("fan-out must carry the payload"),
        }
    }
}

#[test]
fn disconnect_removes_only_that_connection() {
    let mut hub = hub_with_token("AAAAAAAAAAAAAAAAAAAAAAAAAAAAAAAAAAAAAAAA", UserId(2));
    hub.try_admit(Some(Some("AAAAAAAAAAAAAAAAAAAAAAAAAAAAAAAAAAAAAAAA")));
    hub.try_admit(Some(Some("AAAAAAAAAAAAAAAAAAAAAAAAAAAAAAAAAAAAAAAA")));
    let r = hub.handle_worker(WorkerToWs::Disconnected(ConnectionId(0)));
    assert!(r.is_none());
    let env = CoreToWs::SendDirect { dest: UserId(2), tx: fresh_message(1) };
    let entries = hub.route_outbound(&env);
    assert_eq!(entries.len(), 1);
    assert_eq!(entries[0].0, ConnectionId(1));
}

#[test]
fn forwarded_text_resolves_sender_and_parses() {
    let mut hub = hub_with_token("AAAAAAAAAAAAAAAAAAAAAAAAAAAAAAAAAAAAAAAA", UserId(3));
    hub.try_admit(Some(Some("AAAAAAAAAAAAAAAAAAAAAAAAAAAAAAAAAAAAAAAA")));
    let text = encode_serverbound(8, "hello");
    let r = hub.handle_worker(WorkerToWs::ForwardToCore(ConnectionId(0), text));
    match r {
        Some(WsToCore::Tx(tx)) => {
            let (sender, _payload) = tx.extract();
            assert_eq!(sender, UserId(3));
        }
        other => panic!("expected a forwarded transmission, got {:?}", other),
    }
}

#[test]
fn forwarded_text_from_unknown_connection_is_dropped() {
    let mut hub = Hub::new();
    let text = encode_serverbound(8, "hello");
    assert!(hub.handle_worker(WorkerToWs::ForwardToCore(ConnectionId(4), text)).is_none());
}

#[test]
fn unparseable_text_is_dropped() {
    let mut hub = hub_with_token("AAAAAAAAAAAAAAAAAAAAAAAAAAAAAAAAAAAAAAAA", UserId(3));
    hub.try_admit(Some(Some("AAAAAAAAAAAAAAAAAAAAAAAAAAAAAAAAAAAAAAAA")));
    let r = hub.handle_worker(WorkerToWs::ForwardToCore(ConnectionId(0), String::from("junk")));
    assert!(r.is_none());
}

#[test]
fn delivery_confirmation_becomes_read_ack() {
    let mut hub = hub_with_token("AAAAAAAAAAAAAAAAAAAAAAAAAAAAAAAAAAAAAAAA", UserId(3));
    hub.try_admit(Some(Some("AAAAAAAAAAAAAAAAAAAAAAAAAAAAAAAAAAAAAAAA")));
    let r = hub.handle_worker(WorkerToWs::ConfirmTransmittedUserMsg(
        ConnectionId(0),
        UserMessageId(12),
    ));
    match r {
        Some(WsToCore::ReadAck { from, umid }) => {
            assert_eq!(from, UserId(3));
            assert_eq!(umid, UserMessageId(12));
        }
        other => panic!("expected a read acknowledgment, got {:?}", other),
    }
}

#[test]
fn clear_session_disconnects_everything_and_drops_tokens() {
    let mut hub = hub_with_token("AAAAAAAAAAAAAAAAAAAAAAAAAAAAAAAAAAAAAAAA", UserId(2));
    hub.try_admit(Some(Some("AAAAAAAAAAAAAAAAAAAAAAAAAAAAAAAAAAAAAAAA")));
    hub.try_admit(Some(Some("AAAAAAAAAAAAAAAAAAAAAAAAAAAAAAAAAAAAAAAA")));
    let instructions = hub.handle_web(WebToWs::ClearTokens(UserId(2)));
    assert_eq!(instructions.len(), 2);
    assert!(matches!(instructions[0].1, WsToWorker::Disconnect));
    assert!(matches!(instructions[1].1, WsToWorker::Disconnect));
    // the token is gone and the fan-out set is empty
    assert_eq!(
        hub.try_admit(Some(Some("AAAAAAAAAAAAAAAAAAAAAAAAAAAAAAAAAAAAAAAA"))),
        AdmitOutcome::RejectedUnauthorized
    );
    let env = CoreToWs::SendDirect { dest: UserId(2), tx: fresh_message(1) };
    assert_eq!(hub.route_outbound(&env).len(), 0);
}

#[test]
fn add_token_via_web_instruction_admits() {
    let mut hub = Hub::new();
    let out = hub.handle_web(WebToWs::AddToken(
        UserId(9),
        token("CCCCCCCCCCCCCCCCCCCCCCCCCCCCCCCCCCCCCCCC"),
    ));
    assert!(out.is_empty());
    assert_eq!(
        hub.try_admit(Some(Some("CCCCCCCCCCCCCCCCCCCCCCCCCCCCCCCCCCCCCCCC"))),
        AdmitOutcome::Admitted(UserId(9), ConnectionId(0))
    );
}

#[test]
fn reregistering_a_token_rebinds_it() {
    let mut hub = hub_with_token("AAAAAAAAAAAAAAAAAAAAAAAAAAAAAAAAAAAAAAAA", UserId(1));
    hub.register_token(UserId(5), token("AAAAAAAAAAAAAAAAAAAAAAAAAAAAAAAAAAAAAAAA"));
    assert_eq!(
        hub.try_admit(Some(Some("AAAAAAAAAAAAAAAAAAAAAAAAAAAAAAAAAAAAAAAA"))),
        AdmitOutcome::Admitted(UserId(5), ConnectionId(0))
    );
}

#[test]
fn fanout_set_tracks_every_admit_and_disconnect() {
    let tk_a = "AAAAAAAAAAAAAAAAAAAAAAAAAAAAAAAAAAAAAAAA";
    let tk_b = "BBBBBBBBBBBBBBBBBBBBBBBBBBBBBBBBBBBBBBBB";
    let mut hub = hub_with_token(tk_a, UserId(1));
    hub.register_token(UserId(2), token(tk_b));
    // admissions: user 1 gets connections 0 and 2, user 2 gets 1 and 3
    assert_eq!(hub.try_admit(Some(Some(tk_a))), AdmitOutcome::Admitted(UserId(1), ConnectionId(0)));
    assert_eq!(hub.try_admit(Some(Some(tk_b))), AdmitOutcome::Admitted(UserId(2), ConnectionId(1)));
    assert_eq!(hub.try_admit(Some(Some(tk_a))), AdmitOutcome::Admitted(UserId(1), ConnectionId(2)));
    assert_eq!(hub.try_admit(Some(Some(tk_b))), AdmitOutcome::Admitted(UserId(2), ConnectionId(3)));
    // disconnects: 2 goes, then 1, then an unknown identifier is a no-op
    hub.handle_worker(WorkerToWs::Disconnected(ConnectionId(2)));
    hub.handle_worker(WorkerToWs::Disconnected(ConnectionId(1)));
    hub.handle_worker(WorkerToWs::Disconnected(ConnectionId(99)));
    let for_one = hub.route_outbound(&CoreToWs::SendDirect { dest: UserId(1), tx: fresh_message(1) });
    let for_two = hub.route_outbound(&CoreToWs::SendDirect { dest: UserId(2), tx: fresh_message(1) });
    assert_eq!(for_one.len(), 1);
    assert_eq!(for_one[0].0, ConnectionId(0));
    assert_eq!(for_two.len(), 1);
    assert_eq!(for_two[0].0, ConnectionId(3));
    // a later admission continues with the next identifier, never reusing one
    assert_eq!(hub.try_admit(Some(Some(tk_a))), AdmitOutcome::Admitted(UserId(1), ConnectionId(4)));
}

#[test]
fn multi_destination_fanout_covers_each_user() {
    let mut hub = hub_with_token("AAAAAAAAAAAAAAAAAAAAAAAAAAAAAAAAAAAAAAAA", UserId(1));
    hub.register_token(UserId(2), token("BBBBBBBBBBBBBBBBBBBBBBBBBBBBBBBBBBBBBBBB"));
    hub.try_admit(Some(Some("AAAAAAAAAAAAAAAAAAAAAAAAAAAAAAAAAAAAAAAA")));
    hub.try_admit(Some(Some("BBBBBBBBBBBBBBBBBBBBBBBBBBBBBBBBBBBBBBBB")));
    let env = CoreToWs::SendMultiple { dest: vec![UserId(1), UserId(2)], tx: fresh_message(3) };
    let entries = hub.route_outbound(&env);
    assert_eq!(entries.len(), 2);
    assert_eq!(entries[0].0, ConnectionId(0));
    assert_eq!(entries[1].0, ConnectionId(1));
}
