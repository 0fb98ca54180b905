use msghub::config::{Config, CoreConfig, NetConfig};
use msghub::ids::{ConnectionIdAllocator, UserId, UserMessageId};
use msghub::msg::{WsClientboundPayload, WsClientboundTx, WsToWorker};
use msghub::records::{ClientMessage, PublicUserMessage};
use msghub::shutdown::ShutdownCoordinator;
use msghub::token::{alphanumeric_len, LoginToken, LT_LEN};
use msghub::web::{SessionRegistry, Web};
use msghub::worker::{TransportEvent, WorkerAction, WorkerEvent, Ws};

#[test]
fn one_broadcast_leaves_all_running_two_stop_all() {
    let mut coordinator = ShutdownCoordinator::new();
    assert!(coordinator.core.is_running());
    assert!(coordinator.hub.is_running());
    assert!(coordinator.web.is_running());
    coordinator.broadcast();
    assert!(coordinator.core.is_running());
    assert!(coordinator.hub.is_running());
    assert!(coordinator.web.is_running());
    coordinator.broadcast();
    assert!(!coordinator.core.is_running());
    assert!(!coordinator.hub.is_running());
    assert!(!coordinator.web.is_running());
}

#[test]
fn each_subsystem_stops_exactly_on_its_second_observation() {
    let mut w = msghub::shutdown::StopWatcher::new();
    assert!(w.is_running());
    w.observe();
    assert!(w.is_running());
    w.observe();
    assert!(!w.is_running());
    w.observe();
    assert!(!w.is_running());
}

#[test]
fn allocator_counts_up_from_zero() {
    let mut cia = ConnectionIdAllocator::new();
    assert_eq!(cia.get().0, 0);
    assert_eq!(cia.get().0, 1);
    assert_eq!(cia.get().0, 2);
}

#[test]
fn minted_tokens_have_the_required_shape() {
    let lt = LoginToken::new();
    assert!(alphanumeric_len(&lt.tk, LT_LEN));
    let other = LoginToken::new();
    assert_eq!(lt.tk.len(), 40);
    assert_eq!(other.tk.len(), 40);
}

#[test]
fn token_parse_accepts_exactly_the_shape() {
    let good = "A1b2C3d4E5f6G7h8I9j0K1l2M3n4O5p6Q7r8S9t0";
    let lt = LoginToken::parse(good).expect("forty alphanumerics parse");
    assert_eq!(lt.tk, good);
    assert_eq!(LoginToken::parse("short"), Err(5));
    let with_space = "A1b2C3d4E5f6G7h8I9j0K1l2M3n4O5p6Q7r8S9t ";
    assert_eq!(LoginToken::parse(with_space), Err(40));
}

#[test]
fn alphanumeric_len_checks_both_length_and_charset() {
    assert!(alphanumeric_len("abc123", 6));
    assert!(!alphanumeric_len("abc123", 5));
    assert!(!alphanumeric_len("abc 23", 6));
    assert!(!alphanumeric_len("abc-23", 6));
}

#[test]
fn login_mints_and_registers_a_session() {
    let mut reg = SessionRegistry::new();
    let (lt, instruction) = Web::handle_login(&mut reg, UserId(4));
    assert_eq!(reg.lookup(&lt.tk), Some(UserId(4)));
    match instruction {
        msghub::msg::WebToWs::AddToken(u, t) => {
            assert_eq!(u, UserId(4));
            assert_eq!(t.tk, lt.tk);
        }
        other => panic!("expected a token registration, got {:?}", other),
    }
}

#[test]
fn userinfo_requests_carry_the_resolved_asker() {
    let mut reg = SessionRegistry::new();
    let (lt, _) = Web::handle_login(&mut reg, UserId(4));
    let r = Web::handle_userinfo(&reg, UserId(7), Some(&lt));
    match r {
        Ok(msghub::actor::CoreRequest::GetUserData { lookup, asker }) => {
            assert_eq!(lookup, UserId(7));
            assert_eq!(asker, Some(UserId(4)));
        }
        other => panic!("expected a profile request, got {:?}", other),
    }
    let anonymous = Web::handle_userinfo(&reg, UserId(7), None);
    match anonymous {
        Ok(msghub::actor::CoreRequest::GetUserData { lookup, asker }) => {
            assert_eq!(lookup, UserId(7));
            assert_eq!(asker, None);
        }
        other => panic!("expected a public profile request, got {:?}", other),
    }
    let bogus = LoginToken { tk: String::from("ZZZZZZZZZZZZZZZZZZZZZZZZZZZZZZZZZZZZZZZZ") };
    assert!(Web::handle_userinfo(&reg, UserId(7), Some(&bogus)).is_err());
}

#[test]
fn worker_transmits_and_owes_confirmation_for_fresh_messages() {
    let tx = WsClientboundTx::new(WsClientboundPayload::NewMessage(PublicUserMessage {
        umid: UserMessageId(3),
        from: UserId(1),
        to: UserId(2),
        time_posted: 0,
        content: ClientMessage(String::from("m")),
    }));
    let (actions, alive) = Ws::worker_step(WorkerEvent::FromHub(WsToWorker::Tx(tx)));
    assert!(alive);
    assert_eq!(actions.len(), 1);
    match &actions[0] {
        WorkerAction::Transmit { text, confirm } => {
            assert!(text.starts_with("{\"NewMessage\":"));
            assert_eq!(*confirm, Some(UserMessageId(3)));
        }
        other => panic!("expected a transmission, got {:?}", other),
    }
}

#[test]
fn worker_owes_no_confirmation_for_confirmations() {
    let tx = WsClientboundTx::new(WsClientboundPayload::MessageSent(UserMessageId(3)));
    let (actions, alive) = Ws::worker_step(WorkerEvent::FromHub(WsToWorker::Tx(tx)));
    assert!(alive);
    match &actions[0] {
        WorkerAction::Transmit { confirm, .. } => assert_eq!(*confirm, None),
        other => panic!("expected a transmission, got {:?}", other),
    }
}

#[test]
fn worker_closes_on_disconnect_and_on_transport_failure() {
    let (actions, alive) = Ws::worker_step(WorkerEvent::FromHub(WsToWorker::Disconnect));
    assert!(!alive);
    assert!(matches!(actions[0], WorkerAction::CloseAndReport));
    let (actions, alive) = Ws::worker_step(WorkerEvent::FromTransport(TransportEvent::ClosedOrError));
    assert!(!alive);
    assert!(matches!(actions[0], WorkerAction::CloseAndReport));
}

#[test]
fn worker_forwards_text_frames_verbatim() {
    let (actions, alive) =
        Ws::worker_step(WorkerEvent::FromTransport(TransportEvent::Text(String::from("frame"))));
    assert!(alive);
    match &actions[0] {
        WorkerAction::ForwardFrame(f) => assert_eq!(f, "frame"),
        other => panic!("expected a forwarded frame, got {:?}", other),
    }
}

#[test]
fn worker_ignores_binary_frames() {
    let (actions, alive) =
        Ws::worker_step(WorkerEvent::FromTransport(TransportEvent::Binary(vec![1, 2])));
    assert!(alive);
    assert!(actions.is_empty());
}

#[test]
fn config_slices_carry_their_addresses() {
    let c = Config {
        db_addr: String::from("db:3306"),
        api_addr: String::from("127.0.0.1:8080"),
        ws_addr: String::from("127.0.0.1:8081"),
    };
    let core = CoreConfig::of(&c);
    assert_eq!(core.db_addr, "db:3306");
    let net = NetConfig::of(&c);
    assert_eq!(net.api_addr, "127.0.0.1:8080");
    assert_eq!(net.ws_addr, "127.0.0.1:8081");
    assert!(net.enable_register);
}
