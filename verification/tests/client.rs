use meshly_core::client::{
    clamp_backoff, control_step, plan_client, status_outcome, status_ready, ClientError,
    ControlAction, ControlEvent, CLIENT_HEARTBEAT_INTERVAL_MS, STATUS_POLL_MS,
};
use meshly_core::config::{
    ConsumeConfig, ExposeConfig, GroupConfig, HeartbeatConfig, RootConfig, StaticConfig,
};
use meshly_core::consume::{
    check_subscribe_reply, is_auth_error, next_backoff, provider_from_reply, relay_open,
    report_start, report_step, subscribe_request, ConsumerAction, ConsumerHandshake, DialAction,
    DialEvent, DialPath, Dialer, ReconnectConfig,
};
use meshly_core::endpoint::{endpoint_text, EndpointId};
use meshly_core::expose::{
    check_hello_reply, check_register_reply, code_and_reason_text, make_proof, verdict,
    ControlResponseHandler, ProviderAction, ProviderPhase, Registration,
};
use meshly_core::identity::node_id;
use meshly_core::protocol::{
    compute_proof, AuthErr, AuthNonce, AuthOk, AuthProof, Frame, HelloOk, Register, RegisterOk,
    SubscribeOk, AUTH_ERR_BAD_PROOF,
};
use meshly_core::status::{ConsumerState, ControlState, RuntimeStatus};

const TEST_SERVICE: &str = "ssh";
const TEST_SECRET: &[u8] = b"client-auth-secret";

fn some_id(seed: u8) -> EndpointId {
    node_id(&[seed; 32])
}

// Reconnecting ---------------------------------------------------------------

#[test]
fn reconnect_config_default_values() {
    let d = ReconnectConfig::default();
    assert_eq!(d.initial_backoff_ms, 50);
    assert_eq!(d.max_backoff_ms, 5000);
    assert!(d.prefer_direct);
}

fn matches_auth(e: anyhow::Error) -> bool {
    is_auth_error(&format!("{e:#}"))
}

#[test]
fn is_auth_error_matches_provider_rejected_proof() {
    let e = anyhow::Error::msg("provider rejected proof: code=1 reason=bad");
    assert!(matches_auth(e));
}

#[test]
fn is_auth_error_matches_provider_auth_err() {
    let e = anyhow::Error::msg("provider auth err code=2 reason=no_nonce");
    assert!(matches_auth(e));
}

#[test]
fn is_auth_error_matches_auth_err_token() {
    let e = anyhow::Error::msg("auth handshake failed: AuthErr { code: 3 }");
    assert!(matches_auth(e));
}

#[test]
fn is_auth_error_matches_relay_auth_rejected() {
    let e = anyhow::Error::msg("relay auth rejected: code=1 reason=bad");
    assert!(!matches_auth(e), "is_auth_error should not match 'relay auth rejected'");
}

#[test]
fn is_auth_error_rejects_unrelated_errors() {
    for msg in [
        "connection refused",
        "timeout while dialing",
        "bind: address already in use",
        "no provider for service \"ssh\"",
        "server has no provider for service \"web\"",
        "unexpected frame after hello: Foo",
    ] {
        let e = anyhow::Error::msg(msg);
        assert!(!matches_auth(e), "is_auth_error should reject unrelated error: {msg:?}");
    }
}

#[test]
fn is_auth_error_inside_wrapped_context() {
    let e = anyhow::Error::msg("connect to provider")
        .context("provider rejected proof: code=1 reason=bad");
    assert!(matches_auth(e));
}

#[test]
fn backoff_doubles_up_to_its_cap() {
    let mut waits = vec![50u64];
    for _ in 0..8 {
        waits.push(next_backoff(*waits.last().unwrap(), 5000));
    }
    assert_eq!(waits, [50, 100, 200, 400, 800, 1600, 3200, 5000, 5000]);
    assert_eq!(next_backoff(u64::MAX, u64::MAX), u64::MAX);
}

// Handshakes -----------------------------------------------------------------

/// Runs a dial against a provider, frame by frame. Returns what each side ended
/// with.
fn handshake(
    path: DialPath,
    consumer_secret: &[u8],
    provider_secret: &[u8],
) -> (ConsumerAction, ProviderAction) {
    let nonce = [0x5au8; 32];
    let (mut consumer, hello) = ConsumerHandshake::start(path);
    let mut provider = ProviderPhase::new();
    let mut to_provider = hello;
    loop {
        let done = provider.on_frame(provider_secret, TEST_SERVICE, &to_provider, nonce);
        let reply = match &done {
            ProviderAction::Send(f) | ProviderAction::Serve(f) | ProviderAction::Refuse(f) => {
                f.clone()
            }
            ProviderAction::Close => panic!("the provider hung up"),
        };
        match consumer.on_frame(consumer_secret, TEST_SERVICE, &reply) {
            ConsumerAction::Send(f) => to_provider = f,
            end => return (end, done),
        }
    }
}

#[test]
fn dial_direct_happy_path() {
    let (consumer, provider) = handshake(DialPath::Direct, TEST_SECRET, TEST_SECRET);
    assert!(matches!(consumer, ConsumerAction::Ready));
    assert!(matches!(provider, ProviderAction::Serve(Frame::AuthOk(_))));
}

#[test]
fn dial_direct_bad_proof_returns_auth_err() {
    let (consumer, provider) = handshake(DialPath::Direct, b"WRONG-secret", TEST_SECRET);
    assert!(matches!(provider, ProviderAction::Refuse(Frame::AuthErr(_))));
    match consumer {
        ConsumerAction::Fail(msg) => {
            assert!(msg.contains("provider rejected proof"), "{msg:?}");
            assert!(is_auth_error(&msg));
        }
        other => panic!("expected a failure, got {other:?}"),
    }
}

#[test]
fn dial_stream_invalidates_cache_on_auth_error() {
    let provider = some_id(1);
    let mut cached = Some(provider);
    let mut dialer = Dialer::new(ReconnectConfig {
        initial_backoff_ms: 10,
        max_backoff_ms: 50,
        prefer_direct: true,
    });
    let action = dialer.on_event(&mut cached, &DialEvent::Go);
    assert_eq!(action, DialAction::Dial(DialPath::Direct, provider));
    assert!(cached.is_some());
    let (consumer, _) = handshake(DialPath::Direct, TEST_SECRET, b"WRONG-secret-on-provider");
    let message = match consumer {
        ConsumerAction::Fail(msg) => msg,
        other => panic!("expected a failure, got {other:?}"),
    };
    let action = dialer.on_event(&mut cached, &DialEvent::Failed(message));
    assert_eq!(action, DialAction::Dial(DialPath::Relay, provider));
    assert!(cached.is_none(), "cached provider id must be cleared after auth error");
}

#[test]
fn dial_stream_falls_back_to_relay_after_direct_fails() {
    let provider = some_id(2);
    let mut cached = Some(provider);
    let mut status = RuntimeStatus::new(&vec![TEST_SERVICE.to_string()]);
    let mut dialer = Dialer::new(ReconnectConfig {
        initial_backoff_ms: 10,
        max_backoff_ms: 50,
        prefer_direct: true,
    });
    report_start(&mut status, TEST_SERVICE, 1);
    dialer.on_event(&mut cached, &DialEvent::Go);
    let lost = DialEvent::Failed("no addresses to dial".into());
    let action = dialer.on_event(&mut cached, &lost);
    report_step(&mut status, TEST_SERVICE, &lost, action, 2);
    assert_eq!(action, DialAction::Dial(DialPath::Relay, provider));
    assert_eq!(cached, Some(provider), "a transport error keeps the cache");
    let (consumer, _) = handshake(DialPath::Relay, TEST_SECRET, TEST_SECRET);
    assert!(matches!(consumer, ConsumerAction::Ready));
    let action = dialer.on_event(&mut cached, &DialEvent::Connected);
    assert_eq!(action, DialAction::Use(DialPath::Relay));
    report_step(&mut status, TEST_SERVICE, &DialEvent::Connected, action, 3);
    let snap = status.snapshot();
    assert_eq!(snap.consumers[0].0, TEST_SERVICE);
    assert_eq!(snap.consumers[0].1.state, ConsumerState::Live);
    assert_eq!(snap.consumers[0].1.mode.as_deref(), Some("relay"));
}

#[test]
fn dial_relay_happy_path() {
    let open = relay_open(TEST_SERVICE, &some_id(3), &some_id(4));
    match &open {
        Frame::DataOpen { target_service, target_provider, consumer_node_id, .. } => {
            assert_eq!(target_service, TEST_SERVICE);
            assert_eq!(*target_provider, endpoint_text(&some_id(3)));
            assert_eq!(*consumer_node_id, endpoint_text(&some_id(4)));
        }
        other => panic!("expected DataOpen, got {other:?}"),
    }
    let (consumer, provider) = handshake(DialPath::Relay, TEST_SECRET, TEST_SECRET);
    assert!(matches!(consumer, ConsumerAction::Ready));
    assert!(matches!(provider, ProviderAction::Serve(_)));
}

#[test]
fn dials_wait_and_start_over() {
    let provider = some_id(5);
    let mut cached = None;
    let mut dialer = Dialer::new(ReconnectConfig {
        initial_backoff_ms: 10,
        max_backoff_ms: 15,
        prefer_direct: false,
    });
    let lost = || DialEvent::Failed("lost".into());
    assert_eq!(dialer.on_event(&mut cached, &DialEvent::Go), DialAction::Subscribe);
    assert_eq!(
        dialer.on_event(&mut cached, &DialEvent::Resolved(provider)),
        DialAction::Dial(DialPath::Relay, provider)
    );
    assert_eq!(cached, Some(provider));
    assert_eq!(dialer.on_event(&mut cached, &lost()), DialAction::Sleep(10));
    assert_eq!(
        dialer.on_event(&mut cached, &DialEvent::Go),
        DialAction::Dial(DialPath::Relay, provider)
    );
    assert_eq!(dialer.on_event(&mut cached, &lost()), DialAction::Sleep(15));
}

#[test]
fn waits_grow_and_never_pass_the_cap() {
    let waits = |initial_backoff_ms: u64, max_backoff_ms: u64| {
        let provider = some_id(5);
        let mut cached = Some(provider);
        let mut dialer =
            Dialer::new(ReconnectConfig { initial_backoff_ms, max_backoff_ms, prefer_direct: true });
        let mut waits = Vec::new();
        while waits.len() < 4 {
            let lost = DialEvent::Failed("lost".into());
            assert_eq!(
                dialer.on_event(&mut cached, &DialEvent::Go),
                DialAction::Dial(DialPath::Direct, provider)
            );
            assert_eq!(
                dialer.on_event(&mut cached, &lost),
                DialAction::Dial(DialPath::Relay, provider)
            );
            match dialer.on_event(&mut cached, &lost) {
                DialAction::Sleep(ms) => waits.push(ms),
                other => panic!("expected a wait, got {other:?}"),
            }
        }
        waits
    };
    assert_eq!(waits(200, 100), [100, 100, 100, 100]);
    assert_eq!(waits(10, 35), [10, 20, 35, 35]);
    assert_eq!(waits(100, 1000), [100, 200, 400, 800]);
    assert_eq!(waits(10, 0), [0, 0, 0, 0]);
    assert_eq!(waits(u64::MAX, u64::MAX), [u64::MAX; 4]);
}

#[test]
fn a_failed_subscription_ends_the_dial() {
    let mut cached = None;
    let mut dialer = Dialer::new(ReconnectConfig::default());
    let mut status = RuntimeStatus::new(&vec!["svc".to_string()]);
    dialer.on_event(&mut cached, &DialEvent::Go);
    report_start(&mut status, "svc", 8);
    let failed = DialEvent::Failed("no server".into());
    let action = dialer.on_event(&mut cached, &failed);
    assert_eq!(action, DialAction::GiveUp);
    report_step(&mut status, "svc", &failed, action, 9);
    let s = &status.snapshot().consumers[0].1;
    assert_eq!(s.state, ConsumerState::Dialing);
    assert_eq!(s.last_attempt_at_ms, Some(8));
    assert!(s.last_error.is_none());
}

#[test]
fn a_dial_that_waits_is_reported_as_failed() {
    let mut cached = Some(some_id(1));
    let mut dialer = Dialer::new(ReconnectConfig { prefer_direct: false, ..Default::default() });
    let mut status = RuntimeStatus::new(&vec!["svc".to_string()]);
    dialer.on_event(&mut cached, &DialEvent::Go);
    let failed = DialEvent::Failed("no relay".into());
    let action = dialer.on_event(&mut cached, &failed);
    report_step(&mut status, "svc", &failed, action, 9);
    let s = &status.snapshot().consumers[0].1;
    assert_eq!(s.state, ConsumerState::Failed);
    assert_eq!(s.last_error.as_deref(), Some("no relay"));
}

// The provider's side --------------------------------------------------------

#[test]
fn expose_accepts_correct_proof() {
    let nonce = [9u8; 32];
    let mut p = ProviderPhase::new();
    match p.on_frame(TEST_SECRET, TEST_SERVICE, &Frame::AuthHello, nonce) {
        ProviderAction::Send(Frame::AuthNonce(n)) => assert_eq!(n.nonce, nonce),
        other => panic!("expected a nonce, got {other:?}"),
    }
    let mac = compute_proof(TEST_SECRET, TEST_SERVICE, &nonce);
    assert_eq!(mac, make_proof(TEST_SECRET, TEST_SERVICE, &nonce));
    let proof = Frame::AuthProof(AuthProof { mac });
    let action = p.on_frame(TEST_SECRET, TEST_SERVICE, &proof, [0u8; 32]);
    assert!(matches!(action, ProviderAction::Serve(Frame::AuthOk(_))));
    // The handshake is over: the same proof is worth nothing now.
    let action = p.on_frame(TEST_SECRET, TEST_SERVICE, &proof, [0u8; 32]);
    assert!(matches!(action, ProviderAction::Close));
}

fn refused(mac: [u8; 32], nonce: [u8; 32]) -> AuthErr {
    let mut p = ProviderPhase::new();
    p.on_frame(TEST_SECRET, TEST_SERVICE, &Frame::AuthHello, nonce);
    let proof = Frame::AuthProof(AuthProof { mac });
    match p.on_frame(TEST_SECRET, TEST_SERVICE, &proof, nonce) {
        ProviderAction::Refuse(Frame::AuthErr(e)) => e,
        other => panic!("expected a refusal, got {other:?}"),
    }
}

#[test]
fn expose_rejects_bad_proof() {
    let AuthErr { code, reason } = refused([0u8; 32], [1u8; 32]);
    assert_eq!(code, AUTH_ERR_BAD_PROOF, "auth err code must be BAD_PROOF");
    assert!(reason.contains("bad HMAC proof"), "{reason:?}");
}

#[test]
fn expose_rejects_proof_from_wrong_service() {
    let nonce = [2u8; 32];
    let AuthErr { code, reason } = refused(compute_proof(TEST_SECRET, "web", &nonce), nonce);
    assert_eq!(code, AUTH_ERR_BAD_PROOF);
    assert!(reason.contains("bad HMAC proof"), "{reason:?}");
}

#[test]
fn expose_rejects_unexpected_first_frame() {
    let mut p = ProviderPhase::new();
    let first = Frame::AuthNonce(AuthNonce { nonce: [0u8; 32] });
    let action = p.on_frame(TEST_SECRET, TEST_SERVICE, &first, [3u8; 32]);
    assert!(matches!(action, ProviderAction::Close));
    assert!(matches!(verdict(true), ProviderAction::Serve(Frame::AuthOk(AuthOk))));
    assert!(matches!(verdict(false), ProviderAction::Refuse(Frame::AuthErr(_))));
}

#[test]
fn heartbeats_of_the_server_are_answered() {
    let handler = ControlResponseHandler::default();
    assert!(matches!(handler.respond(&Frame::Heartbeat), Some(Frame::Heartbeat)));
    assert!(handler.respond(&Frame::AuthHello).is_none());
}

// Registering ----------------------------------------------------------------

#[test]
fn register_with_server_registers_multiple_services_in_order() {
    let mut captured = vec![Registration::hello("test-token", "test/0.1")];
    let mut r = Registration::new(vec!["ssh".into(), "web".into()], vec![]);
    let mut reply = Frame::HelloOk(HelloOk { session_id: 1 });
    while let Some(next) = r.on_reply(&reply).unwrap() {
        let service = match &next {
            Frame::Register(Register { service }) => service.clone(),
            other => panic!("expected Register, got {other:?}"),
        };
        captured.push(next);
        reply = Frame::RegisterOk(RegisterOk { service });
    }
    assert_eq!(captured.len(), 3, "expected Hello + 2 Registers");
    match &captured[0] {
        Frame::Hello(h) => {
            assert_eq!(h.group_token, "test-token");
            assert_eq!(h.client_info, "test/0.1");
        }
        other => panic!("first frame must be Hello, got {other:?}"),
    }
    assert!(matches!(&captured[1], Frame::Register(r) if r.service == "ssh"));
    assert!(matches!(&captured[2], Frame::Register(r) if r.service == "web"));
}

#[test]
fn register_with_server_errors_on_server_rejecting_one_service() {
    let mut r = Registration::new(vec!["ssh".into(), "BAD!".into()], vec![]);
    assert!(r.on_reply(&Frame::HelloOk(HelloOk { session_id: 1 })).unwrap().is_some());
    let ok = Frame::RegisterOk(RegisterOk { service: "ssh".into() });
    assert!(r.on_reply(&ok).unwrap().is_some());
    let refusal = Frame::ControlError { code: 3, reason: "register failed: bad name".into() };
    let msg = r.on_reply(&refusal).unwrap_err();
    assert!(msg.contains("server rejected register") && msg.contains("BAD!"), "{msg}");
}

#[test]
fn static_services_are_registered_last() {
    let mut r = Registration::new(vec!["a".into()], vec!["f".into()]);
    let ok = |s: &str| Frame::RegisterOk(RegisterOk { service: s.into() });
    r.on_reply(&Frame::HelloOk(HelloOk { session_id: 7 })).unwrap();
    match r.on_reply(&ok("a")).unwrap() {
        Some(Frame::Register(reg)) => assert_eq!(reg.service, "f"),
        other => panic!("unexpected {other:?}"),
    }
    assert!(r.on_reply(&ok("f")).unwrap().is_none());
    assert!(check_hello_reply(&Frame::Heartbeat).is_err());
    assert!(check_register_reply("a", false, &ok("a")).is_ok());
    assert!(check_register_reply("a", true, &Frame::Heartbeat).is_err());
    assert_eq!(code_and_reason_text(4, "why"), "code=4 reason=why");
}

// Subscribing ----------------------------------------------------------------

#[test]
fn subscribe_parses_hello_ok_then_subscribe_ok_with_provider() {
    assert!(check_hello_reply(&Frame::HelloOk(HelloOk { session_id: 42 })).is_ok());
    assert!(matches!(subscribe_request("web"), Frame::Subscribe(s) if s.service == "web"));
    let provider = some_id(6);
    let reply = Frame::SubscribeOk(SubscribeOk {
        service: "web".into(),
        provider_node_id: Some(endpoint_text(&provider)),
        relay_required: false,
    });
    assert_eq!(provider_from_reply("web", &reply).unwrap(), provider);
    assert_eq!(check_subscribe_reply("web", &reply).unwrap(), endpoint_text(&provider));
}

#[test]
fn subscribe_errors_on_server_control_error() {
    let reply = Frame::ControlError { code: 1, reason: "unknown group".into() };
    let msg = check_hello_reply(&reply).unwrap_err();
    assert!(msg.contains("server rejected hello"), "{msg}");
}

#[test]
fn subscribe_errors_when_provider_node_id_missing() {
    let reply = Frame::SubscribeOk(SubscribeOk {
        service: "web".into(),
        provider_node_id: None,
        relay_required: false,
    });
    let msg = provider_from_reply("web", &reply).unwrap_err();
    assert!(msg.contains("server has no provider"), "{msg}");
}

#[test]
fn subscribe_errors_on_unexpected_frame() {
    let reply = Frame::RegisterOk(RegisterOk { service: "web".into() });
    let msg = provider_from_reply("web", &reply).unwrap_err();
    assert!(msg.contains("unexpected frame after subscribe"), "{msg}");
}

#[test]
fn a_provider_id_that_does_not_parse_is_an_error() {
    let reply = Frame::SubscribeOk(SubscribeOk {
        service: "web".into(),
        provider_node_id: Some("junk".into()),
        relay_required: false,
    });
    assert!(provider_from_reply("web", &reply).is_err());
}

// Status ---------------------------------------------------------------------

#[test]
fn snapshot_includes_preconfigured_consumers() {
    let rt = RuntimeStatus::new(&vec!["ssh".to_string(), "web".to_string()]);
    let snap = rt.snapshot();
    assert_eq!(snap.control.state, ControlState::Unregistered);
    assert_eq!(snap.consumers.len(), 2);
    let names: Vec<&str> = snap.consumers.iter().map(|c| c.0.as_str()).collect();
    assert_eq!(names, ["ssh", "web"]);
    for (_, s) in &snap.consumers {
        assert_eq!(s.state, ConsumerState::Idle);
    }
}

#[test]
fn control_state_transitions_record_timestamps() {
    let mut rt = RuntimeStatus::new(&Vec::new());
    rt.set_control_state(ControlState::Registering, None, 1);
    assert!(rt.snapshot().control.last_registered_at_ms.is_none());
    rt.set_control_state(ControlState::Registered, None, 2);
    assert_eq!(rt.snapshot().control.last_registered_at_ms, Some(2));
    rt.record_heartbeat(3);
    assert_eq!(rt.snapshot().control.last_heartbeat_at_ms, Some(3));
    assert_eq!(rt.control_state(), ControlState::Registered);
}

#[test]
fn consumer_live_increments_counter_and_clears_error() {
    let mut rt = RuntimeStatus::new(&vec!["svc".to_string()]);
    rt.set_consumer_state("svc", ConsumerState::Failed, None, Some("boom"), 1);
    assert_eq!(rt.snapshot().consumers[0].1.last_error.as_deref(), Some("boom"));
    rt.set_consumer_state("svc", ConsumerState::Live, Some("direct"), None, 2);
    let snap = rt.snapshot();
    let s = &snap.consumers[0].1;
    assert_eq!(s.state, ConsumerState::Live);
    assert_eq!(s.mode.as_deref(), Some("direct"));
    assert_eq!(s.forwarded_streams, 1);
    assert!(s.last_error.is_none());
    assert_eq!((s.last_attempt_at_ms, s.last_success_at_ms), (Some(2), Some(2)));
}

#[test]
fn mode_is_that_of_the_last_success() {
    let mut rt = RuntimeStatus::new(&vec!["svc".to_string()]);
    rt.set_consumer_state("svc", ConsumerState::Live, Some("direct"), None, 1);
    rt.set_consumer_state("svc", ConsumerState::Failed, None, Some("boom"), 2);
    let snap = rt.snapshot();
    let s = &snap.consumers[0].1;
    assert_eq!(s.state, ConsumerState::Failed);
    assert_eq!(s.last_error.as_deref(), Some("boom"));
    assert_eq!(s.forwarded_streams, 1);
    assert_eq!(s.mode.as_deref(), Some("direct"));
    rt.set_consumer_state("svc", ConsumerState::Live, Some("relay"), None, 3);
    rt.set_consumer_state("svc", ConsumerState::Dialing, None, None, 4);
    assert_eq!(rt.snapshot().consumers[0].1.mode.as_deref(), Some("relay"));
}

#[test]
fn consumers_are_listed_by_name_and_once() {
    let names = ["web", "a", "web", "db"].map(String::from).to_vec();
    let mut rt = RuntimeStatus::new(&names);
    rt.set_consumer_state("new", ConsumerState::Dialing, None, None, 4);
    let snap = rt.snapshot();
    let listed: Vec<&str> = snap.consumers.iter().map(|c| c.0.as_str()).collect();
    assert_eq!(listed, ["a", "db", "new", "web"]);
    assert_eq!(snap.consumers[2].1.state, ConsumerState::Dialing);
}

// What a client starts with --------------------------------------------------

fn client_config() -> RootConfig {
    let mut cfg = RootConfig::default();
    cfg.server_node_id = Some(endpoint_text(&some_id(8)));
    cfg.group_token = Some("tok".into());
    cfg.expose.push(ExposeConfig {
        name: "ssh".into(),
        local_addr: "127.0.0.1:22".into(),
        shared_secret: "sé".into(),
    });
    cfg.static_services.push(StaticConfig {
        name: "files".into(),
        root_dir: "/srv".into(),
        allow_directory_listing: true,
        shared_secret: "f".into(),
    });
    cfg.consume.push(ConsumeConfig {
        name: "db".into(),
        local_bind: "127.0.0.1:9".into(),
        shared_secret: "d".into(),
    });
    cfg.reconnect.initial_backoff_ms = 0;
    cfg.reconnect.max_backoff_ms = 99;
    cfg
}

#[test]
fn a_client_is_planned_from_its_config() {
    let plan = plan_client(&client_config()).unwrap();
    assert_eq!(plan.server, some_id(8));
    assert_eq!(plan.group_token, "tok");
    assert_eq!(plan.exposed[0].0, b"meshly-core/ssh");
    assert_eq!(plan.exposed[0].1.local_addr, "127.0.0.1:22");
    assert_eq!(plan.exposed[0].1.shared_secret, "sé".as_bytes());
    assert_eq!(plan.statics[0].0, b"meshly-core/files");
    assert!(plan.statics[0].1.allow_directory_listing);
    assert_eq!(plan.consumed[0].local_bind, "127.0.0.1:9");
    assert_eq!(plan.reconnect.initial_backoff_ms, 10);
    assert_eq!(plan.reconnect.max_backoff_ms, 100);
    assert_eq!(clamp_backoff(11, 10), 11);
}

#[test]
fn configs_that_are_no_clients_are_refused() {
    let text = |cfg: &RootConfig| plan_client(cfg).unwrap_err().message("c.toml");
    let mut cfg = client_config();
    cfg.groups.push(GroupConfig { name: "g".into(), group_token: "t".into() });
    assert_eq!(text(&cfg), "config c.toml defines [[group]]; refusing to start as client");
    let mut cfg = client_config();
    cfg.server_node_id = None;
    assert_eq!(text(&cfg), "client config missing server_node_id");
    let mut cfg = client_config();
    cfg.server_node_id = Some("abcd".into());
    let cause = "abcd".parse::<iroh::EndpointId>().unwrap_err();
    assert_eq!(text(&cfg), format!("parse server_node_id: {cause}"));
    let mut cfg = client_config();
    cfg.static_services[0].name = "a--b".into();
    assert!(matches!(plan_client(&cfg), Err(ClientError::BadName(_))));
    cfg.expose[0].name = "-".into();
    assert_eq!(text(&cfg), "service name must not start or end with '-'");
}

#[test]
fn the_registration_is_kept_alive() {
    let mut status = RuntimeStatus::new(&Vec::new());
    let started = control_step(&mut status, &ControlEvent::Started, 1);
    assert_eq!(started, ControlAction::Register);
    assert_eq!(status.control_state(), ControlState::Registering);
    let failed = ControlEvent::RegisterFailed("no route".into());
    assert_eq!(control_step(&mut status, &failed, 2), ControlAction::WaitForRetry(5000));
    assert_eq!(status.control_state(), ControlState::Reconnecting);
    assert_eq!(status.snapshot().control.last_error.as_deref(), Some("no route"));
    assert_eq!(control_step(&mut status, &ControlEvent::RetryDue, 3), ControlAction::Register);
    let registered = control_step(&mut status, &ControlEvent::Registered, 4);
    assert_eq!(registered, ControlAction::WaitForHeartbeat(60_000));
    assert!(status.snapshot().control.last_error.is_none());
    let due = control_step(&mut status, &ControlEvent::HeartbeatDue, 5);
    assert_eq!(due, ControlAction::SendHeartbeat);
    let sent = control_step(&mut status, &ControlEvent::HeartbeatSent, 6);
    assert_eq!(sent, ControlAction::WaitForHeartbeat(60_000));
    assert_eq!(status.snapshot().control.last_heartbeat_at_ms, Some(6));
    let lost = control_step(&mut status, &ControlEvent::ConnectionLost, 7);
    assert_eq!(lost, ControlAction::Register);
    assert_eq!(status.control_state(), ControlState::Registering);
}

#[test]
fn heartbeats_come_before_the_default_timeout() {
    assert!(CLIENT_HEARTBEAT_INTERVAL_MS < HeartbeatConfig::default().timeout_secs * 1000);
}

#[test]
fn status_queries_wait_for_a_settled_state() {
    assert!(status_ready(ControlState::Registered, 0, 10));
    assert!(status_ready(ControlState::Reconnecting, 0, 10));
    assert!(!status_ready(ControlState::Registering, 9_999, 10));
    assert!(status_ready(ControlState::Unregistered, 10_000, 10));
    assert!(!status_ready(ControlState::Unregistered, u64::MAX, u64::MAX));
    assert_eq!(STATUS_POLL_MS, 100);
    assert!(status_outcome(ControlState::Registered, 1).is_ok());
    assert_eq!(
        status_outcome(ControlState::Reconnecting, 10).unwrap_err(),
        "control plane did not reach Registered within 10s (state=Reconnecting)"
    );
}
