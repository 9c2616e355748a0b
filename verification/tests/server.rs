use meshly_core::config::GroupConfig;
use meshly_core::consume::{provider_from_reply, subscribe_request};
use meshly_core::control::{ControlSession, SessionAction};
use meshly_core::endpoint::{endpoint_text, EndpointId};
use meshly_core::identity::node_id;
use meshly_core::protocol::{
    Frame, Hello, HelloOk, Register, RegisterOk, Subscribe, SubscribeOk,
};
use meshly_core::ratelimit::new_handle;
use meshly_core::registry::{Group, RegisterError, ServerState};
use meshly_core::relay::{
    check_open, decide_open, end_stream, pick_initial_rate, start_stream, RelayRefusal,
};

const TEST_GROUP_NAME: &str = "test-group";
const TEST_GROUP_TOKEN: &str = "test-token";

fn some_id(seed: u8) -> EndpointId {
    node_id(&[seed; 32])
}

fn make_state() -> ServerState {
    let groups = vec![
        GroupConfig { name: TEST_GROUP_NAME.into(), group_token: TEST_GROUP_TOKEN.into() },
        GroupConfig { name: "other".into(), group_token: "other-token".into() },
    ];
    ServerState::new(&groups, &vec![(some_id(90), 777)])
}

fn hello(token: &str) -> Frame {
    Frame::Hello(Hello { group_token: token.into(), client_info: "test/0.1".into() })
}

fn reply(action: SessionAction) -> Frame {
    match action {
        SessionAction::Reply(f) => f,
        other => panic!("expected a reply, got {other:?}"),
    }
}

fn enter(state: &mut ServerState, client: EndpointId, now: u64) -> ControlSession {
    let mut session = ControlSession::new(client);
    let answer = reply(session.on_frame(state, &hello(TEST_GROUP_TOKEN), 0, now));
    assert!(matches!(answer, Frame::HelloOk(_)), "got {answer:?}");
    session
}

// The control plane ----------------------------------------------------------

#[test]
fn server_handles_hello_then_register() {
    let mut state = make_state();
    let client = some_id(1);
    let mut session = ControlSession::new(client);
    for random in [0, 5, u64::MAX] {
        let mut fresh = ControlSession::new(client);
        match reply(fresh.on_frame(&mut state, &hello(TEST_GROUP_TOKEN), random, 0)) {
            Frame::HelloOk(HelloOk { session_id }) => {
                assert_ne!(session_id, 0, "session_id should be non-zero");
            }
            other => panic!("expected HelloOk, got {other:?}"),
        }
        session = fresh;
    }
    let register = Frame::Register(Register { service: "ssh".into() });
    match reply(session.on_frame(&mut state, &register, 0, 0)) {
        Frame::RegisterOk(RegisterOk { service }) => assert_eq!(service, "ssh"),
        other => panic!("expected RegisterOk, got {other:?}"),
    }
    let provider_id = state
        .lookup_service(TEST_GROUP_NAME, "ssh")
        .expect("service ssh should be registered");
    assert_eq!(provider_id, client);
}

#[test]
fn server_rejects_hello_with_wrong_group_token() {
    let mut state = make_state();
    let mut session = ControlSession::new(some_id(1));
    match session.on_frame(&mut state, &hello("wrong-token"), 0, 0) {
        SessionAction::ReplyAndClose(Frame::ControlError { code, reason }) => {
            assert_eq!(code, 1, "AUTH/UNKNOWN_GROUP code = 1");
            assert!(reason.contains("unknown group"), "reason should explain: {reason}");
        }
        other => panic!("expected ControlError, got {other:?}"),
    }
    assert_eq!(state.session_count(), 0);
}

#[test]
fn server_returns_subscribe_ok_with_provider_node_id() {
    let mut state = make_state();
    let provider_id = some_id(2);
    enter(&mut state, provider_id, 0);
    let group = state.group(TEST_GROUP_NAME).unwrap();
    state.register_service(group, "web", provider_id).expect("register service web");

    let mut consumer = enter(&mut state, some_id(3), 0);
    let subscribe = Frame::Subscribe(Subscribe { service: "web".into() });
    match reply(consumer.on_frame(&mut state, &subscribe, 0, 0)) {
        Frame::SubscribeOk(SubscribeOk { service, provider_node_id: Some(id), relay_required }) => {
            assert_eq!(service, "web");
            assert_eq!(id, endpoint_text(&provider_id), "id mismatch");
            assert!(!relay_required, "relay_required should be false in v1");
        }
        other => panic!("expected SubscribeOk with provider id, got {other:?}"),
    }
}

#[test]
fn server_returns_subscribe_err_when_service_unknown() {
    let mut state = make_state();
    let mut session = enter(&mut state, some_id(1), 0);
    let subscribe = Frame::Subscribe(Subscribe { service: "no-such-service".into() });
    match reply(session.on_frame(&mut state, &subscribe, 0, 0)) {
        Frame::SubscribeOk(SubscribeOk { service, provider_node_id, relay_required: _ }) => {
            assert_eq!(service, "no-such-service");
            assert!(provider_node_id.is_none(), "got {provider_node_id:?}");
        }
        other => panic!("expected SubscribeOk with None provider, got {other:?}"),
    }
}

#[test]
fn server_reaps_expired_session_on_heartbeat_timeout() {
    let mut state = make_state();
    let group = state.group(TEST_GROUP_NAME).expect("group present");
    let fake_provider = some_id(4);
    let now = 1_000_000;
    state.touch_session(group, fake_provider, now - 120_000);
    state.register_service(group, "ssh", fake_provider).expect("register service");
    assert_eq!(state.session_count(), 1);
    assert!(state.lookup_service(TEST_GROUP_NAME, "ssh").is_some());

    state.sweep_dead_sessions(now, 60_000);

    assert_eq!(state.session_count(), 0, "session should be reaped after timeout");
    assert!(
        state.lookup_service(TEST_GROUP_NAME, "ssh").is_none(),
        "service should be reaped alongside session"
    );
}

#[test]
fn idle_sessions_without_services_are_reaped_too() {
    let mut state = make_state();
    let (a, b) = (some_id(5), some_id(6));
    state.touch_session(0, a, 0);
    state.touch_session(1, b, 0);
    state.touch_session(1, a, 950);
    state.sweep_dead_sessions(1000, 100);
    assert_eq!(state.session_count(), 1);
    assert_eq!(state.group_at(1).session_count(), 1);
    // A session is dropped when its heartbeat is older than the timeout, not at it.
    state.sweep_dead_sessions(1050, 100);
    assert_eq!(state.session_count(), 1);
    state.sweep_dead_sessions(1051, 100);
    assert_eq!(state.session_count(), 0);
}

#[test]
fn frames_out_of_order_are_refused() {
    let mut state = make_state();
    // Nothing but a hello opens a session.
    let mut session = ControlSession::new(some_id(1));
    let register = Frame::Register(Register { service: "ssh".into() });
    let action = session.on_frame(&mut state, &register, 0, 0);
    assert!(!matches!(action, SessionAction::Reply(Frame::RegisterOk(_))), "{action:?}");
    assert!(state.lookup_service(TEST_GROUP_NAME, "ssh").is_none());
    // A second hello is an error.
    let mut session = enter(&mut state, some_id(1), 0);
    match session.on_frame(&mut state, &hello(TEST_GROUP_TOKEN), 0, 0) {
        SessionAction::Refuse(Frame::ControlError { code, .. })
        | SessionAction::ReplyAndClose(Frame::ControlError { code, .. }) => assert_eq!(code, 2),
        other => panic!("expected ControlError, got {other:?}"),
    }
}

#[test]
fn bad_service_names_are_not_registered() {
    let mut state = make_state();
    let mut session = enter(&mut state, some_id(1), 0);
    let long = "x".repeat(33);
    let register = Frame::Register(Register { service: long.clone() });
    match session.on_frame(&mut state, &register, 0, 0) {
        SessionAction::Refuse(Frame::ControlError { code, reason }) => {
            assert_eq!(code, 3);
            assert!(reason.contains("register failed"), "{reason}");
        }
        other => panic!("expected ControlError, got {other:?}"),
    }
    match state.register_service(0, &long, some_id(1)) {
        Err(e @ RegisterError::BadName) => assert!(!e.message().is_empty()),
        Ok(_) => panic!("accepted a name of 33 bytes"),
    }
    assert!(state.register_service(0, &"x".repeat(32), some_id(1)).is_ok());
}

#[test]
fn heartbeats_keep_a_session() {
    let mut state = make_state();
    let mut session = enter(&mut state, some_id(1), 0);
    let action = session.on_frame(&mut state, &Frame::Heartbeat, 0, 500);
    assert!(matches!(action, SessionAction::Continue));
    state.sweep_dead_sessions(550, 100);
    assert_eq!(state.session_count(), 1);
}

#[test]
fn services_end_with_their_session() {
    let mut state = make_state();
    let mut session = enter(&mut state, some_id(1), 0);
    let register = Frame::Register(Register { service: "ssh".into() });
    session.on_frame(&mut state, &register, 0, 0);
    state.touch_session(0, some_id(2), 0);
    state.register_service(0, "web", some_id(2)).unwrap();
    session.on_end(&mut state);
    assert!(state.lookup_service(TEST_GROUP_NAME, "ssh").is_none());
    assert_eq!(state.lookup_service(TEST_GROUP_NAME, "web"), Some(some_id(2)));
    assert_eq!(state.session_count(), 1);
}

#[test]
fn groups_do_not_see_each_other() {
    let mut state = make_state();
    state.register_service(1, "db", some_id(7)).unwrap();
    assert_eq!(state.lookup_service("other", "db"), Some(some_id(7)));
    assert_eq!(state.lookup_service(TEST_GROUP_NAME, "db"), None);
    assert_eq!(state.lookup_service("nowhere", "db"), None);
    assert_eq!(state.lookup_service_any_group("db"), Some(some_id(7)));
    let mut session = enter(&mut state, some_id(1), 0);
    let subscribe = Frame::Subscribe(Subscribe { service: "db".into() });
    match reply(session.on_frame(&mut state, &subscribe, 0, 0)) {
        Frame::SubscribeOk(s) => assert!(s.provider_node_id.is_none()),
        other => panic!("unexpected {other:?}"),
    }
    assert_eq!(state.authenticate("other-token"), Some(1));
    assert_eq!(state.authenticate("none"), None);
    assert_eq!(state.group_count(), 2);
}

#[test]
fn the_last_registration_wins() {
    let mut g = Group::new("g".into(), "t".into());
    assert_eq!(g.register_service("s", some_id(1)).unwrap(), None);
    assert_eq!(g.register_service("s", some_id(2)).unwrap(), Some(some_id(1)));
    assert_eq!(g.lookup("s"), Some(some_id(2)));
    assert_eq!(g.name_text(), "g");
    // The service is no longer the first provider's to drop.
    g.touch_session(some_id(1), 0);
    g.drop_session(some_id(1));
    assert_eq!(g.lookup("s"), Some(some_id(2)));
    g.drop_session(some_id(2));
    assert_eq!(g.lookup("s"), None);
    g.drop_session(some_id(2));
    assert_eq!(g.session_count(), 0);
}

#[test]
fn services_are_dumped_with_their_groups() {
    let mut state = make_state();
    assert!(state.dump_services().is_empty());
    state.register_service(0, "a", some_id(1)).unwrap();
    state.register_service(1, "b", some_id(2)).unwrap();
    let mut rows = state.dump_services();
    rows.sort();
    let mut expected = vec![
        (TEST_GROUP_NAME.to_string(), "a".to_string(), some_id(1)),
        ("other".to_string(), "b".to_string(), some_id(2)),
    ];
    expected.sort();
    assert_eq!(rows, expected);
}

// Rates ----------------------------------------------------------------------

#[test]
fn stream_rates_are_kept_by_id() {
    let mut state = make_state();
    let a = state.alloc_stream_id();
    let b = state.alloc_stream_id();
    assert_ne!(a, b);
    state.register_relay_rate(a, new_handle(10));
    state.register_relay_rate(b, new_handle(20));
    assert!(state.update_relay_rate(a, 11));
    assert!(!state.update_relay_rate(b + 1000, 1));
    assert_eq!(state.relay_rate(a), Some(11));
    assert_eq!(state.relay_rate(b), Some(20));
    let mut rows = state.relay_rates_snapshot();
    rows.sort();
    let mut expected = vec![(a, 11), (b, 20)];
    expected.sort();
    assert_eq!(rows, expected);
    state.unregister_relay_rate(a);
    assert_eq!(state.relay_rate(a), None);
    assert_eq!(state.relay_rates_snapshot(), [(b, 20)]);
}

#[test]
fn overrides_are_looked_up_by_consumer() {
    let state = make_state();
    assert_eq!(state.lookup_relay_rate_override(&some_id(90)), Some(777));
    assert_eq!(state.lookup_relay_rate_override(&some_id(91)), None);
    assert_eq!(state.relay_rate_overrides_snapshot(), [(some_id(90), 777)]);
}

#[test]
fn overrides_go_before_the_default() {
    let state = make_state();
    let default = Some(new_handle(5));
    assert_eq!(pick_initial_rate(&state, default, &some_id(90)), Some(777));
    assert_eq!(pick_initial_rate(&state, default, &some_id(91)), Some(5));
    assert_eq!(pick_initial_rate(&state, None, &some_id(90)), None);
}

#[test]
fn streams_leave_no_rate_behind() {
    let mut state = make_state();
    let capped = start_stream(&mut state, Some(3));
    let free = start_stream(&mut state, None);
    assert_ne!(capped, free);
    assert_eq!(state.relay_rate(capped), Some(3));
    end_stream(&mut state, capped);
    end_stream(&mut state, free);
    assert!(state.relay_rates_snapshot().is_empty());
}

// The relay ------------------------------------------------------------------

fn open(service: &str, provider: &str, consumer: &str) -> Frame {
    Frame::DataOpen {
        target_service: service.into(),
        target_provider: provider.into(),
        consumer_node_id: consumer.into(),
        proof: [0u8; 32],
    }
}

#[test]
fn relayed_streams_are_planned() {
    let mut state = make_state();
    let (provider, consumer) = (some_id(10), some_id(90));
    state.register_service(1, "ssh", provider).unwrap();
    let frame = open("ssh", &endpoint_text(&provider), &endpoint_text(&consumer));
    let plan = decide_open(&state, Some(new_handle(5)), &consumer, &frame).unwrap();
    assert_eq!(plan.provider, provider);
    assert_eq!(plan.service, "ssh");
    assert_eq!(plan.initial_reply_bps, Some(777));
    let plan = check_open(&state, None, &consumer, "ssh", Some(provider), Some(consumer)).unwrap();
    assert_eq!(plan.initial_reply_bps, None);
}

#[test]
fn relayed_streams_are_refused_for_each_reason() {
    let mut state = make_state();
    let (provider, consumer) = (some_id(10), some_id(11));
    state.register_service(0, "ssh", provider).unwrap();
    let p = endpoint_text(&provider);
    let c = endpoint_text(&consumer);
    let refusal =
        |frame: &Frame| decide_open(&state, None, &consumer, frame).err().expect("refused");
    assert!(matches!(refusal(&Frame::AuthHello), RelayRefusal::NotDataOpen));
    assert!(matches!(refusal(&open("ssh", "junk", &c)), RelayRefusal::MalformedProvider));
    assert!(matches!(refusal(&open("ssh", &p, "junk")), RelayRefusal::MalformedConsumer));
    assert!(matches!(refusal(&open("ssh", &p, &p)), RelayRefusal::ConsumerMismatch));
    assert!(matches!(refusal(&open("web", &p, &c)), RelayRefusal::NotRegistered));
    assert!(matches!(refusal(&open("ssh", &c, &c)), RelayRefusal::ProviderMismatch));
}

#[test]
fn groups_stand_as_they_were_configured() {
    let config = |name: &str, token: &str| GroupConfig { name: name.into(), group_token: token.into() };
    let state =
        ServerState::new(&vec![config("b", "1"), config("a", "2"), config("b", "3")], &Vec::new());
    assert_eq!(state.group_count(), 2);
    assert_eq!((state.group("b"), state.group("a")), (Some(0), Some(1)));
    assert_eq!((state.authenticate("3"), state.authenticate("1")), (Some(0), None));
}

#[test]
fn consumers_find_the_registered_provider() {
    let mut state = make_state();
    let provider = some_id(21);
    let mut exposing = enter(&mut state, provider, 0);
    let register = Frame::Register(Register { service: "web".into() });
    assert!(matches!(
        reply(exposing.on_frame(&mut state, &register, 0, 1)),
        Frame::RegisterOk(_)
    ));
    let mut consuming = enter(&mut state, some_id(22), 2);
    let answer = reply(consuming.on_frame(&mut state, &subscribe_request("web"), 0, 3));
    assert_eq!(provider_from_reply("web", &answer).unwrap(), provider);
}
