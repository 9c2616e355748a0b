//! Consume mode: subscribe to a remote service and offer it on a local port.
//!
//! A consumer asks the server for the service's provider, dials the provider
//! directly on `meshly-core/<service>` or, failing that, through the server's
//! relay on `meshly-core/data`, and proves on the stream that it has the
//! service's secret. Failed dials are retried with exponential backoff.
use crate::control::{law_subscribe_finds_registered, session_step, ActionView, PhaseView};
use crate::endpoint::{
    endpoint_text, iroh_id, is_public_key, lower_hex, parse_iroh_id, text_reads_back, EndpointId,
};
use crate::expose::{
    code_and_reason, code_and_reason_text, make_proof, provider_answer, provider_step,
    ProviderActionView, ProviderPhaseView,
};
use crate::frame_text::frame_text;
use crate::protocol::{hmac_sha256, proof_of, AuthProof, Frame, FrameView, Subscribe, AUTH_ERR_BAD_PROOF};
use crate::registry::{ServerView, MAX_SERVICE_NAME};
use crate::status::{
    consumer_after, consumer_or_initial, ConsumerState, RuntimeStatus, RuntimeStatusView,
};
use crate::text::{contains_seq, contains_text, decimal, quote, quoted};
use vstd::arithmetic::power2::pow2;
use vstd::prelude::*;
use vstd::string::StringExecFns;
use vstd::utf8::encode_utf8;

verus! {

/// Description of one remote service to consume.
#[derive(Debug, Clone)]
pub struct ConsumeSpec {
    pub name: String,
    pub local_bind: String,
    pub shared_secret: Vec<u8>,
}

/// Reconnect tuning.
#[derive(Debug, Clone, Copy, PartialEq, Eq, Structural)]
pub struct ReconnectConfig {
    pub initial_backoff_ms: u64,
    pub max_backoff_ms: u64,
    pub prefer_direct: bool,
}

impl Default for ReconnectConfig {
    fn default() -> (r: Self)
        ensures
            r.initial_backoff_ms == 50,
            r.max_backoff_ms == 5000,
            r.prefer_direct,
    {
        ReconnectConfig { initial_backoff_ms: 50, max_backoff_ms: 5000, prefer_direct: true }
    }
}

/// How a provider is reached.
#[derive(Debug, Clone, Copy, PartialEq, Eq, Structural)]
pub enum DialPath {
    Direct,
    Relay,
}

/// The name of a path in status reports.
pub open spec fn path_name(path: DialPath) -> Seq<char> {
    match path {
        DialPath::Direct => "direct"@,
        DialPath::Relay => "relay"@,
    }
}

impl DialPath {
    /// The name of the path in status reports.
    pub fn name(self) -> (text: &'static str)
        ensures
            text@ == path_name(self),
    {
        match self {
            DialPath::Direct => "direct",
            DialPath::Relay => "relay",
        }
    }
}

// ---------------------------------------------------------------------------
// Subscription
// ---------------------------------------------------------------------------

/// The request for the provider of `service`.
pub fn subscribe_request(service: &str) -> (f: Frame)
    ensures
        f@ == (FrameView::Subscribe { service: service@ }),
{
    Frame::Subscribe(Subscribe { service: service.to_owned() })
}

/// The provider's id as the server's answer to a subscription gives it, or what
/// is wrong with the answer.
pub open spec fn subscription(service: Seq<char>, reply: FrameView) -> Result<
    Seq<char>,
    Seq<char>,
> {
    match reply {
        FrameView::SubscribeOk { provider_node_id, .. } => match provider_node_id {
            Some(id) => Ok(id),
            None => Err("server has no provider for service "@ + quoted(service)),
        },
        FrameView::ControlError { code, reason } => Err(
            "subscribe rejected: "@ + code_and_reason(code as nat, reason),
        ),
        _ => Err("unexpected frame after subscribe: "@ + frame_text(reply)),
    }
}

/// Reads the provider's id out of the server's answer to a subscription.
pub fn check_subscribe_reply(service: &str, reply: &Frame) -> (r: Result<String, String>)
    ensures
        match r {
            Ok(id) => subscription(service@, reply@) == Ok::<Seq<char>, Seq<char>>(id@),
            Err(message) => subscription(service@, reply@) == Err::<Seq<char>, Seq<char>>(
                message@,
            ),
        },
{
    match reply {
        Frame::SubscribeOk(ok) => match &ok.provider_node_id {
            Some(id) => Ok(id.clone()),
            None => Err(
                "server has no provider for service ".to_owned().concat(quote(service).as_str()),
            ),
        },
        Frame::ControlError { code, reason } => Err(
            "subscribe rejected: ".to_owned().concat(
                code_and_reason_text(*code as u64, reason.as_str()).as_str(),
            ),
        ),
        _ => Err(
            "unexpected frame after subscribe: ".to_owned().concat(reply.describe().as_str()),
        ),
    }
}

/// The provider of a service, out of the server's answer to a subscription, or what
/// is wrong with the answer.
pub open spec fn provider_in(service: Seq<char>, reply: FrameView) -> Result<Seq<u8>, Seq<char>> {
    match subscription(service, reply) {
        Ok(id) => match iroh_id(id) {
            Some(bytes) => Ok(bytes),
            None => Err("invalid provider id "@ + quoted(id)),
        },
        Err(text) => Err(text),
    }
}

/// The provider of a service, out of the server's answer to a subscription.
pub fn provider_from_reply(service: &str, reply: &Frame) -> (r: Result<EndpointId, String>)
    ensures
        match r {
            Ok(provider) => provider_in(service@, reply@) == Ok::<Seq<u8>, Seq<char>>(provider@)
                && is_public_key(provider@),
            Err(message) => provider_in(service@, reply@) == Err::<Seq<u8>, Seq<char>>(message@),
        },
{
    match check_subscribe_reply(service, reply) {
        Ok(id) => match parse_iroh_id(id.as_str()) {
            Ok(provider) => Ok(provider),
            Err(_) => Err("invalid provider id ".to_owned().concat(quote(id.as_str()).as_str())),
        },
        Err(message) => Err(message),
    }
}

/// What one client has registered, a consumer of its group finds: out of the server's
/// answer to its subscription it reads the provider's very id.
pub proof fn law_consumer_finds_the_provider(
    provider: Seq<u8>,
    consumer: Seq<u8>,
    name: Seq<char>,
    server: ServerView,
    service: Seq<char>,
    random: u64,
    now: u64,
    later: u64,
)
    requires
        server.group(name) is Some,
        encode_utf8(service).len() <= MAX_SERVICE_NAME,
        is_public_key(provider),
        text_reads_back(provider),
    ensures
        ({
            let phase = PhaseView::Active(name);
            let registered = session_step(
                provider,
                phase,
                server,
                FrameView::Register { service },
                random,
                now,
            ).server;
            let answer = session_step(
                consumer,
                phase,
                registered,
                FrameView::Subscribe { service },
                random,
                later,
            ).action;
            &&& answer matches ActionView::Reply(reply)
            &&& provider_in(service, reply) == Ok::<Seq<u8>, Seq<char>>(provider)
        }),
{
    law_subscribe_finds_registered(provider, consumer, name, server, service, random, now, later);
}

// ---------------------------------------------------------------------------
// The consumer's side of the handshake
// ---------------------------------------------------------------------------

/// How far a consumer has come with one stream.
#[derive(Debug, Clone, Copy, PartialEq, Eq, Structural)]
pub enum ConsumerPhase {
    /// The hello was sent.
    AwaitingNonce,
    /// The proof was sent.
    AwaitingVerdict,
    /// The handshake is over.
    Done,
}

/// What a consumer does after a frame has come in.
#[derive(Debug)]
pub enum ConsumerAction {
    /// Write a frame and wait for the next one.
    Send(Frame),
    /// The stream is ready to carry data.
    Ready,
    /// The dial has failed, with this message.
    Fail(String),
}

/// What a [`ConsumerAction`] stands for.
pub enum ConsumerActionView {
    Send(FrameView),
    Ready,
    Fail(Seq<char>),
}

impl View for ConsumerAction {
    type V = ConsumerActionView;

    open spec fn view(&self) -> ConsumerActionView {
        match self {
            ConsumerAction::Send(f) => ConsumerActionView::Send(f@),
            ConsumerAction::Ready => ConsumerActionView::Ready,
            ConsumerAction::Fail(message) => ConsumerActionView::Fail(message@),
        }
    }
}

/// What a refusal in place of a nonce is reported as.
pub open spec fn no_nonce_message(path: DialPath, code: u8, reason: Seq<char>) -> Seq<char> {
    (match path {
        DialPath::Direct => "provider auth err "@,
        DialPath::Relay => "relay auth err "@,
    }) + code_and_reason(code as nat, reason)
}

/// What a refusal of a proof is reported as.
pub open spec fn rejected_message(path: DialPath, code: u8, reason: Seq<char>) -> Seq<char> {
    (match path {
        DialPath::Direct => "provider rejected proof: "@,
        DialPath::Relay => "relay auth rejected: "@,
    }) + code_and_reason(code as nat, reason)
}

/// One frame of a consumer's handshake, where `proof` is the proof for the nonce
/// that the frame carries.
pub open spec fn consumer_step(
    path: DialPath,
    phase: ConsumerPhase,
    frame: FrameView,
    proof: Seq<u8>,
) -> (ConsumerPhase, ConsumerActionView) {
    match phase {
        ConsumerPhase::AwaitingNonce => match frame {
            FrameView::AuthNonce { .. } => (
                ConsumerPhase::AwaitingVerdict,
                ConsumerActionView::Send(FrameView::AuthProof { mac: proof }),
            ),
            FrameView::AuthErr { code, reason } => (
                ConsumerPhase::Done,
                ConsumerActionView::Fail(no_nonce_message(path, code, reason)),
            ),
            _ => (
                ConsumerPhase::Done,
                ConsumerActionView::Fail(
                    (match path {
                        DialPath::Direct => "expected AuthNonce, got "@,
                        DialPath::Relay => "expected AuthNonce from relay, got "@,
                    }) + frame_text(frame),
                ),
            ),
        },
        _ => match frame {
            FrameView::AuthOk if phase == ConsumerPhase::AwaitingVerdict => (
                ConsumerPhase::Done,
                ConsumerActionView::Ready,
            ),
            FrameView::AuthErr { code, reason } => (
                ConsumerPhase::Done,
                ConsumerActionView::Fail(rejected_message(path, code, reason)),
            ),
            _ => (
                ConsumerPhase::Done,
                ConsumerActionView::Fail(
                    (match path {
                        DialPath::Direct => "expected AuthOk, got "@,
                        DialPath::Relay => "expected AuthOk from relay, got "@,
                    }) + frame_text(frame),
                ),
            ),
        },
    }
}

/// The nonce in a frame.
pub open spec fn nonce_in(frame: FrameView) -> Seq<u8> {
    match frame {
        FrameView::AuthNonce { nonce } => nonce,
        _ => Seq::empty(),
    }
}

/// One frame of the handshake of a consumer that has `secret` for `service`.
pub open spec fn consumer_answer(
    secret: Seq<u8>,
    service: Seq<char>,
    path: DialPath,
    phase: ConsumerPhase,
    frame: FrameView,
) -> (ConsumerPhase, ConsumerActionView) {
    consumer_step(path, phase, frame, proof_of(secret, service, nonce_in(frame)))
}

/// A consumer's handshake on one stream.
#[derive(Debug)]
pub struct ConsumerHandshake {
    pub path: DialPath,
    pub phase: ConsumerPhase,
}

/// The relay's routing request: which service at which provider, and who asks.
/// The proof in it is not used; the provider asks for one on the stream.
pub fn relay_open(service: &str, provider: &EndpointId, own_id: &EndpointId) -> (f: Frame)
    ensures
        f@ matches FrameView::DataOpen {
            target_service,
            target_provider,
            consumer_node_id,
            proof,
        } && target_service == service@ && target_provider == lower_hex(provider@)
            && consumer_node_id == lower_hex(own_id@) && proof == Seq::new(32, |i: int| 0u8),
        text_reads_back(provider@),
        text_reads_back(own_id@),
{
    let proof: [u8; 32] = [0u8; 32];
    assert(proof@ =~= Seq::new(32, |i: int| 0u8));
    Frame::DataOpen {
        target_service: service.to_owned(),
        target_provider: endpoint_text(provider),
        consumer_node_id: endpoint_text(own_id),
        proof,
    }
}

impl ConsumerHandshake {
    /// Starts a handshake. The first frame to write, after the routing request
    /// where the stream goes through the relay, is the hello.
    pub fn start(path: DialPath) -> (r: (ConsumerHandshake, Frame))
        ensures
            r.0.path == path,
            r.0.phase == ConsumerPhase::AwaitingNonce,
            r.1@ is AuthHello,
    {
        (ConsumerHandshake { path, phase: ConsumerPhase::AwaitingNonce }, Frame::AuthHello)
    }

    /// Takes the next frame of the provider.
    pub fn on_frame(&mut self, secret: &[u8], service: &str, frame: &Frame) -> (a: ConsumerAction)
        ensures
            final(self).path == old(self).path,
            (final(self).phase, a@) == consumer_step(
                old(self).path,
                old(self).phase,
                frame@,
                proof_of(secret@, service@, nonce_in(frame@)),
            ),
            (final(self).phase, a@) == consumer_answer(
                secret@,
                service@,
                old(self).path,
                old(self).phase,
                frame@,
            ),
            old(self).phase == ConsumerPhase::AwaitingNonce ==> (
            frame@ matches FrameView::AuthNonce { nonce } ==> a@ == ConsumerActionView::Send(
                FrameView::AuthProof {
                    mac: hmac_sha256(secret@, encode_utf8(service@) + nonce),
                },
            )),
            a@ is Ready <==> old(self).phase == ConsumerPhase::AwaitingVerdict && frame@ is AuthOk,
    {
        let phase = self.phase;
        self.phase = ConsumerPhase::Done;
        match phase {
            ConsumerPhase::AwaitingNonce => match frame {
                Frame::AuthNonce(n) => {
                    self.phase = ConsumerPhase::AwaitingVerdict;
                    ConsumerAction::Send(
                        Frame::AuthProof(AuthProof { mac: make_proof(secret, service, &n.nonce) }),
                    )
                },
                Frame::AuthErr(e) => {
                    let prefix = match self.path {
                        DialPath::Direct => "provider auth err ",
                        DialPath::Relay => "relay auth err ",
                    };
                    ConsumerAction::Fail(
                        prefix.to_owned().concat(
                            code_and_reason_text(e.code as u64, e.reason.as_str()).as_str(),
                        ),
                    )
                },
                _ => {
                    let prefix = match self.path {
                        DialPath::Direct => "expected AuthNonce, got ",
                        DialPath::Relay => "expected AuthNonce from relay, got ",
                    };
                    ConsumerAction::Fail(prefix.to_owned().concat(frame.describe().as_str()))
                },
            },
            _ => match frame {
                Frame::AuthOk(_) if phase == ConsumerPhase::AwaitingVerdict => ConsumerAction::Ready,
                Frame::AuthErr(e) => {
                    let prefix = match self.path {
                        DialPath::Direct => "provider rejected proof: ",
                        DialPath::Relay => "relay auth rejected: ",
                    };
                    ConsumerAction::Fail(
                        prefix.to_owned().concat(
                            code_and_reason_text(e.code as u64, e.reason.as_str()).as_str(),
                        ),
                    )
                },
                _ => {
                    let prefix = match self.path {
                        DialPath::Direct => "expected AuthOk, got ",
                        DialPath::Relay => "expected AuthOk from relay, got ",
                    };
                    ConsumerAction::Fail(prefix.to_owned().concat(frame.describe().as_str()))
                },
            },
        }
    }
}

/// A consumer and a provider come to terms, whatever the nonce, exactly where their
/// proofs of it are the same, and so always where they have the same secret for the
/// same service: hello, nonce, proof, acceptance. Otherwise the provider refuses and
/// the consumer fails.
pub proof fn law_handshake_completes(
    path: DialPath,
    secret: Seq<u8>,
    service: Seq<char>,
    other_secret: Seq<u8>,
    other_service: Seq<char>,
    nonce: Seq<u8>,
    unused: Seq<u8>,
)
    ensures
        ({
            let (p1, a1) = provider_answer(
                other_secret,
                other_service,
                ProviderPhaseView::AwaitingHello,
                FrameView::AuthHello,
                nonce,
            );
            &&& a1 == ProviderActionView::Send(FrameView::AuthNonce { nonce })
            &&& {
                let (c2, a2) = consumer_answer(
                    secret,
                    service,
                    path,
                    ConsumerPhase::AwaitingNonce,
                    FrameView::AuthNonce { nonce },
                );
                &&& a2 matches ConsumerActionView::Send(f2)
                &&& {
                    let (_, a3) = provider_answer(other_secret, other_service, p1, f2, unused);
                    if hmac_sha256(secret, encode_utf8(service) + nonce) == hmac_sha256(
                        other_secret,
                        encode_utf8(other_service) + nonce,
                    ) {
                        &&& a3 matches ProviderActionView::Serve(f3)
                        &&& consumer_answer(secret, service, path, c2, f3).1 is Ready
                    } else {
                        &&& a3 matches ProviderActionView::Refuse(f3)
                        &&& consumer_answer(secret, service, path, c2, f3).1 is Fail
                    }
                }
            }
        }),
{
}

/// A consumer that is sent a nonce answers with the HMAC-SHA256, under its secret, of
/// the service's name with that nonce behind it.
pub proof fn law_consumer_proves_the_nonce(
    secret: Seq<u8>,
    service: Seq<char>,
    path: DialPath,
    nonce: Seq<u8>,
)
    ensures
        consumer_answer(
            secret,
            service,
            path,
            ConsumerPhase::AwaitingNonce,
            FrameView::AuthNonce { nonce },
        ) == (
            ConsumerPhase::AwaitingVerdict,
            ConsumerActionView::Send(
                FrameView::AuthProof {
                    mac: hmac_sha256(secret, encode_utf8(service) + nonce),
                },
            ),
        ),
{
}

/// A stream is ready exactly where a proof was sent and accepted. A proof is sent only
/// for a nonce; everything else ends the handshake with a failure, and a refusal is
/// passed on with its reason.
pub proof fn law_consumer_is_ready_once_accepted(
    secret: Seq<u8>,
    service: Seq<char>,
    path: DialPath,
    phase: ConsumerPhase,
    frame: FrameView,
)
    ensures
        ({
            let (next, action) = consumer_answer(secret, service, path, phase, frame);
            &&& action is Ready <==> phase == ConsumerPhase::AwaitingVerdict && frame is AuthOk
            &&& action is Send <==> phase == ConsumerPhase::AwaitingNonce && frame is AuthNonce
            &&& !(action is Send) ==> next == ConsumerPhase::Done
            &&& frame matches FrameView::AuthErr { code, reason } ==> exists|head: Seq<char>|
                action == ConsumerActionView::Fail(
                    head + ("code="@ + decimal(code as nat) + " reason="@ + reason),
                )
        }),
{
    if let FrameView::AuthErr { code, reason } = frame {
        let head = match (phase, path) {
            (ConsumerPhase::AwaitingNonce, DialPath::Direct) => "provider auth err "@,
            (ConsumerPhase::AwaitingNonce, DialPath::Relay) => "relay auth err "@,
            (_, DialPath::Direct) => "provider rejected proof: "@,
            (_, DialPath::Relay) => "relay auth rejected: "@,
        };
        assert(consumer_answer(secret, service, path, phase, frame).1 == ConsumerActionView::Fail(
            head + ("code="@ + decimal(code as nat) + " reason="@ + reason),
        ));
    }
}

/// A wrong proof is refused, and on the direct path the consumer takes the refusal
/// for an authentication error.
pub proof fn law_wrong_proof_is_refused(
    mac: Seq<u8>,
    expected: Seq<u8>,
    nonce: Seq<u8>,
    unused: Seq<u8>,
)
    requires
        mac != expected,
    ensures
        ({
            let (_, a) = provider_step(
                ProviderPhaseView::AwaitingProof(nonce),
                FrameView::AuthProof { mac },
                expected,
                unused,
            );
            &&& a matches ProviderActionView::Refuse(f)
            &&& f == (FrameView::AuthErr { code: AUTH_ERR_BAD_PROOF, reason: "bad HMAC proof"@ })
            &&& consumer_step(
                DialPath::Direct,
                ConsumerPhase::AwaitingVerdict,
                f,
                unused,
            ).1 matches ConsumerActionView::Fail(message)
            &&& is_auth_message(message)
        }),
{
    law_direct_refusals_are_auth_errors(AUTH_ERR_BAD_PROOF, "bad HMAC proof"@);
}

// ---------------------------------------------------------------------------
// Dialing
// ---------------------------------------------------------------------------

/// A message that speaks of a failed authentication.
pub open spec fn is_auth_message(message: Seq<char>) -> bool {
    ||| contains_seq(message, "provider rejected proof"@)
    ||| contains_seq(message, "provider auth err"@)
    ||| contains_seq(message, "AuthErr"@)
}

/// Best-effort classification of an error by its message: does it speak of a
/// failed authentication, which suggests that the cached provider is stale?
pub fn is_auth_error(message: &str) -> (r: bool)
    ensures
        r == is_auth_message(message@),
{
    contains_text(message, "provider rejected proof") || contains_text(message, "provider auth err")
        || contains_text(message, "AuthErr")
}

/// Every refusal that a provider gives on the direct path is an authentication
/// error.
pub proof fn law_direct_refusals_are_auth_errors(code: u8, reason: Seq<char>)
    ensures
        is_auth_message(rejected_message(DialPath::Direct, code, reason)),
        is_auth_message(no_nonce_message(DialPath::Direct, code, reason)),
{
    reveal_strlit("provider rejected proof");
    reveal_strlit("provider rejected proof: ");
    reveal_strlit("provider auth err");
    reveal_strlit("provider auth err ");
    let a = rejected_message(DialPath::Direct, code, reason);
    assert("provider rejected proof: "@.take(23) =~= "provider rejected proof"@);
    assert(a =~= "provider rejected proof"@ + a.skip(23));
    crate::text::lemma_prefix_is_contained("provider rejected proof"@, a.skip(23));
    let b = no_nonce_message(DialPath::Direct, code, reason);
    assert("provider auth err "@.take(17) =~= "provider auth err"@);
    assert(b =~= "provider auth err"@ + b.skip(17));
    crate::text::lemma_prefix_is_contained("provider auth err"@, b.skip(17));
}

/// A backoff, or the cap where that is less.
pub open spec fn capped(backoff_ms: u64, max_backoff_ms: u64) -> u64 {
    if backoff_ms <= max_backoff_ms {
        backoff_ms
    } else {
        max_backoff_ms
    }
}

/// Cuts a backoff down to the cap.
fn cap_backoff(backoff_ms: u64, max_backoff_ms: u64) -> (ms: u64)
    ensures
        ms == capped(backoff_ms, max_backoff_ms),
{
    if backoff_ms <= max_backoff_ms {
        backoff_ms
    } else {
        max_backoff_ms
    }
}

/// The backoff after one more failure: doubled, up to the cap.
pub open spec fn doubled(backoff_ms: u64, max_backoff_ms: u64) -> int {
    if 2 * backoff_ms <= max_backoff_ms {
        2 * backoff_ms
    } else {
        max_backoff_ms as int
    }
}

/// Doubles the backoff, up to the cap.
pub fn next_backoff(backoff_ms: u64, max_backoff_ms: u64) -> (next: u64)
    ensures
        next == doubled(backoff_ms, max_backoff_ms),
{
    if backoff_ms <= max_backoff_ms / 2 {
        2 * backoff_ms
    } else {
        max_backoff_ms
    }
}

/// The backoff after `n` failures.
pub open spec fn backoff_after(initial_ms: u64, max_ms: u64, n: nat) -> int
    decreases n,
{
    if n == 0 {
        capped(initial_ms, max_ms) as int
    } else {
        doubled(backoff_after(initial_ms, max_ms, (n - 1) as nat) as u64, max_ms)
    }
}

/// Backoff is exponential and capped: after `n` failures it is `2^n` times the
/// initial one, or the cap where that is less.
pub proof fn law_backoff_is_exponential(initial_ms: u64, max_ms: u64, n: nat)
    ensures
        backoff_after(initial_ms, max_ms, n) == if initial_ms * pow2(n) <= max_ms {
            initial_ms * pow2(n)
        } else {
            max_ms as int
        },
    decreases n,
{
    if n == 0 {
        vstd::arithmetic::power2::lemma2_to64();
    } else {
        vstd::arithmetic::power2::lemma_pow2_unfold(n);
        vstd::arithmetic::power2::lemma_pow2_pos((n - 1) as nat);
        let p = pow2((n - 1) as nat) as int;
        assert(initial_ms * pow2(n) == 2 * (initial_ms * p)) by (nonlinear_arith)
            requires
                pow2(n) == 2 * p,
        ;
        law_backoff_is_exponential(initial_ms, max_ms, (n - 1) as nat);
        assert(0 <= initial_ms * p) by (nonlinear_arith)
            requires
                p > 0,
                initial_ms >= 0,
        ;
    }
}

/// How far a dial has come.
#[derive(Debug, Clone, Copy)]
pub enum DialPhase {
    /// The dial was not started, or waits for its next attempt.
    Waiting,
    /// The server was asked for the provider.
    Resolving,
    /// The provider is dialed.
    Dialing(DialPath, EndpointId),
    /// The dial is over.
    Over,
}

/// What has happened to a dial.
#[derive(Debug)]
pub enum DialEvent {
    /// The dial starts, or its wait is over.
    Go,
    /// The server has named the provider.
    Resolved(EndpointId),
    /// The stream that was dialed is ready.
    Connected,
    /// What was tried has failed, with this message.
    Failed(String),
}

/// What a [`DialEvent`] stands for.
pub enum DialEventView {
    Go,
    Resolved(EndpointId),
    Connected,
    Failed(Seq<char>),
}

impl View for DialEvent {
    type V = DialEventView;

    open spec fn view(&self) -> DialEventView {
        match self {
            DialEvent::Go => DialEventView::Go,
            DialEvent::Resolved(id) => DialEventView::Resolved(*id),
            DialEvent::Connected => DialEventView::Connected,
            DialEvent::Failed(message) => DialEventView::Failed(message@),
        }
    }
}

/// What to do next for a dial.
#[derive(Debug, Clone, Copy, PartialEq, Eq)]
pub enum DialAction {
    /// Ask the server for the provider.
    Subscribe,
    /// Dial the provider.
    Dial(DialPath, EndpointId),
    /// Wait so many milliseconds.
    Sleep(u64),
    /// Use the stream.
    Use(DialPath),
    /// Give up with the error that came last.
    GiveUp,
}

/// A dial of one stream.
#[derive(Debug)]
pub struct Dialer {
    pub reconnect: ReconnectConfig,
    pub backoff_ms: u64,
    pub phase: DialPhase,
}

/// The state of a dial and of the provider cache, and what to do.
#[verifier::ext_equal]
pub struct DialStep {
    pub phase: DialPhase,
    pub backoff_ms: int,
    pub cached: Option<EndpointId>,
    pub action: DialAction,
}

/// The step to the provider `id`, directly where that is preferred.
pub open spec fn dial_provider(
    reconnect: ReconnectConfig,
    backoff_ms: u64,
    id: EndpointId,
) -> DialStep {
    let path = if reconnect.prefer_direct {
        DialPath::Direct
    } else {
        DialPath::Relay
    };
    DialStep {
        phase: DialPhase::Dialing(path, id),
        backoff_ms: backoff_ms as int,
        cached: Some(id),
        action: DialAction::Dial(path, id),
    }
}

/// One event of a dial. The provider is taken from the cache or asked for; a
/// direct dial that fails goes on through the relay, and forgets the cached
/// provider where authentication failed; a relayed dial that fails is retried
/// after the backoff, which is never longer than the cap.
pub open spec fn dial_step(
    reconnect: ReconnectConfig,
    backoff_ms: u64,
    phase: DialPhase,
    cached: Option<EndpointId>,
    event: DialEventView,
) -> DialStep {
    match (phase, event) {
        (DialPhase::Waiting, DialEventView::Go) => match cached {
            Some(id) => dial_provider(reconnect, backoff_ms, id),
            None => DialStep {
                phase: DialPhase::Resolving,
                backoff_ms: backoff_ms as int,
                cached,
                action: DialAction::Subscribe,
            },
        },
        (DialPhase::Resolving, DialEventView::Resolved(id)) => dial_provider(
            reconnect,
            backoff_ms,
            id,
        ),
        (DialPhase::Dialing(path, _), DialEventView::Connected) => DialStep {
            phase: DialPhase::Over,
            backoff_ms: backoff_ms as int,
            cached,
            action: DialAction::Use(path),
        },
        (DialPhase::Dialing(DialPath::Direct, id), DialEventView::Failed(message)) => DialStep {
            phase: DialPhase::Dialing(DialPath::Relay, id),
            backoff_ms: backoff_ms as int,
            cached: if is_auth_message(message) {
                None
            } else {
                cached
            },
            action: DialAction::Dial(DialPath::Relay, id),
        },
        (DialPhase::Dialing(DialPath::Relay, _), DialEventView::Failed(_)) => DialStep {
            phase: DialPhase::Waiting,
            backoff_ms: doubled(backoff_ms, reconnect.max_backoff_ms),
            cached,
            action: DialAction::Sleep(capped(backoff_ms, reconnect.max_backoff_ms)),
        },
        _ => DialStep {
            phase: DialPhase::Over,
            backoff_ms: backoff_ms as int,
            cached,
            action: DialAction::GiveUp,
        },
    }
}

impl Dialer {
    /// A dial that was not started.
    pub fn new(reconnect: ReconnectConfig) -> (d: Dialer)
        ensures
            d.reconnect == reconnect,
            d.backoff_ms == backoff_after(
                reconnect.initial_backoff_ms,
                reconnect.max_backoff_ms,
                0,
            ),
            d.phase is Waiting,
    {
        let backoff_ms: u64 = cap_backoff(reconnect.initial_backoff_ms, reconnect.max_backoff_ms);
        Dialer { reconnect, backoff_ms, phase: DialPhase::Waiting }
    }

    /// Takes the next event. `cached` is the provider that the service's dials
    /// share.
    pub fn on_event(&mut self, cached: &mut Option<EndpointId>, event: &DialEvent) -> (a: DialAction)
        ensures
            final(self).reconnect == old(self).reconnect,
            ({
                let step = dial_step(
                    old(self).reconnect,
                    old(self).backoff_ms,
                    old(self).phase,
                    *old(cached),
                    event@,
                );
                &&& final(self).phase == step.phase
                &&& final(self).backoff_ms == step.backoff_ms
                &&& *final(cached) == step.cached
                &&& a == step.action
            }),
    {
        match (self.phase, event) {
            (DialPhase::Waiting, DialEvent::Go) => match *cached {
                Some(id) => self.dial(id),
                None => {
                    self.phase = DialPhase::Resolving;
                    DialAction::Subscribe
                },
            },
            (DialPhase::Resolving, DialEvent::Resolved(id)) => {
                *cached = Some(*id);
                self.dial(*id)
            },
            (DialPhase::Dialing(path, _), DialEvent::Connected) => {
                self.phase = DialPhase::Over;
                DialAction::Use(path)
            },
            (DialPhase::Dialing(DialPath::Direct, id), DialEvent::Failed(message)) => {
                if is_auth_error(message.as_str()) {
                    *cached = None;
                }
                self.phase = DialPhase::Dialing(DialPath::Relay, id);
                DialAction::Dial(DialPath::Relay, id)
            },
            (DialPhase::Dialing(DialPath::Relay, _), DialEvent::Failed(_)) => {
                let max: u64 = self.reconnect.max_backoff_ms;
                let wait: u64 = cap_backoff(self.backoff_ms, max);
                self.phase = DialPhase::Waiting;
                self.backoff_ms = next_backoff(self.backoff_ms, max);
                DialAction::Sleep(wait)
            },
            _ => {
                self.phase = DialPhase::Over;
                DialAction::GiveUp
            },
        }
    }

    fn dial(&mut self, id: EndpointId) -> (a: DialAction)
        ensures
            final(self).reconnect == old(self).reconnect,
            ({
                let step = dial_provider(old(self).reconnect, old(self).backoff_ms, id);
                &&& final(self).phase == step.phase
                &&& final(self).backoff_ms == step.backoff_ms
                &&& a == step.action
            }),
    {
        let path = if self.reconnect.prefer_direct {
            DialPath::Direct
        } else {
            DialPath::Relay
        };
        self.phase = DialPhase::Dialing(path, id);
        DialAction::Dial(path, id)
    }
}

/// The status of a client once the service `name` has entered a state.
pub open spec fn with_consumer(
    status: RuntimeStatusView,
    name: Seq<char>,
    state: ConsumerState,
    mode: Option<Seq<char>>,
    err: Option<Seq<char>>,
    now_ms: i64,
) -> RuntimeStatusView {
    RuntimeStatusView {
        consumers: status.consumers.insert(
            name,
            consumer_after(consumer_or_initial(status.consumers, name), state, mode, err, now_ms),
        ),
        ..status
    }
}

/// What the status reports after a step of a dial: a stream that is used is live,
/// a dial that has to wait has failed, and nothing else is reported.
pub open spec fn reported(
    status: RuntimeStatusView,
    name: Seq<char>,
    event: DialEventView,
    action: DialAction,
    now_ms: i64,
) -> RuntimeStatusView {
    match (action, event) {
        (DialAction::Use(path), _) => with_consumer(
            status,
            name,
            ConsumerState::Live,
            Some(path_name(path)),
            None,
            now_ms,
        ),
        (DialAction::Sleep(_), DialEventView::Failed(message)) => with_consumer(
            status,
            name,
            ConsumerState::Failed,
            None,
            Some(message),
            now_ms,
        ),
        _ => status,
    }
}

/// Reports that a dial of the service `name` has started.
pub fn report_start(status: &mut RuntimeStatus, name: &str, now_ms: i64)
    ensures
        final(status)@ == with_consumer(
            old(status)@,
            name@,
            ConsumerState::Dialing,
            None,
            None,
            now_ms,
        ),
{
    status.set_consumer_state(name, ConsumerState::Dialing, None, None, now_ms);
}

/// Reports a step of a dial of the service `name`.
pub fn report_step(
    status: &mut RuntimeStatus,
    name: &str,
    event: &DialEvent,
    action: DialAction,
    now_ms: i64,
)
    ensures
        final(status)@ == reported(old(status)@, name@, event@, action, now_ms),
{
    match (action, event) {
        (DialAction::Use(path), _) => status.set_consumer_state(
            name,
            ConsumerState::Live,
            Some(path.name()),
            None,
            now_ms,
        ),
        (DialAction::Sleep(_), DialEvent::Failed(message)) => status.set_consumer_state(
            name,
            ConsumerState::Failed,
            None,
            Some(message.as_str()),
            now_ms,
        ),
        _ => {},
    }
}

/// A direct dial that fails for want of authentication empties the cache, so that
/// the next attempt asks the server again; the relay is tried all the same.
pub proof fn law_auth_failure_forgets_provider(
    reconnect: ReconnectConfig,
    backoff_ms: u64,
    id: EndpointId,
    cached: Option<EndpointId>,
    message: Seq<char>,
)
    requires
        is_auth_message(message),
    ensures
        ({
            let step = dial_step(
                reconnect,
                backoff_ms,
                DialPhase::Dialing(DialPath::Direct, id),
                cached,
                DialEventView::Failed(message),
            );
            &&& step.cached is None
            &&& step.action == DialAction::Dial(DialPath::Relay, id)
            &&& dial_step(
                reconnect,
                backoff_ms,
                DialPhase::Waiting,
                step.cached,
                DialEventView::Go,
            ).action is Subscribe
        }),
{
}

/// No wait is longer than the cap.
pub proof fn law_waits_are_bounded(
    reconnect: ReconnectConfig,
    backoff_ms: u64,
    phase: DialPhase,
    cached: Option<EndpointId>,
    event: DialEventView,
)
    ensures
        dial_step(reconnect, backoff_ms, phase, cached, event).action matches DialAction::Sleep(ms)
            ==> ms <= reconnect.max_backoff_ms,
{
}

/// The wait after a failed round, `n` such rounds before it, is `2^n` times the
/// initial backoff, or the cap where that is less. A round that has not failed yet
/// leaves the backoff as it is.
pub proof fn law_wait_of_a_failed_round(
    reconnect: ReconnectConfig,
    n: nat,
    phase: DialPhase,
    cached: Option<EndpointId>,
    event: DialEventView,
)
    ensures
        ({
            let initial = reconnect.initial_backoff_ms;
            let max = reconnect.max_backoff_ms;
            let step = dial_step(
                reconnect,
                backoff_after(initial, max, n) as u64,
                phase,
                cached,
                event,
            );
            match (phase, event) {
                (DialPhase::Dialing(DialPath::Relay, _), DialEventView::Failed(_)) => {
                    &&& step.action matches DialAction::Sleep(ms)
                    &&& ms == if initial * pow2(n) <= max {
                        initial * pow2(n)
                    } else {
                        max as int
                    }
                    &&& step.backoff_ms == backoff_after(initial, max, n + 1)
                },
                _ => !(step.action is Sleep) && step.backoff_ms == backoff_after(initial, max, n),
            }
        }),
{
    let initial = reconnect.initial_backoff_ms;
    let max = reconnect.max_backoff_ms;
    law_backoff_is_exponential(initial, max, n);
    vstd::arithmetic::power2::lemma_pow2_pos(n);
    assert(0 <= initial * pow2(n)) by (nonlinear_arith)
        requires
            pow2(n) > 0,
            initial >= 0,
    ;
}

/// The relay is tried only where direct dialing is off or has failed.
pub proof fn law_direct_goes_first(
    reconnect: ReconnectConfig,
    backoff_ms: u64,
    phase: DialPhase,
    cached: Option<EndpointId>,
    event: DialEventView,
)
    requires
        reconnect.prefer_direct,
        dial_step(reconnect, backoff_ms, phase, cached, event).action matches DialAction::Dial(
            DialPath::Relay,
            _,
        ),
    ensures
        phase matches DialPhase::Dialing(DialPath::Direct, _),
        event is Failed,
{
}

/// A dial looks for its provider: the cached one is dialed at once, directly where
/// that is preferred; without one the server is asked, and the provider that it names
/// is remembered and dialed.
pub proof fn law_provider_is_resolved_and_dialed(
    reconnect: ReconnectConfig,
    backoff_ms: u64,
    id: EndpointId,
    cached: Option<EndpointId>,
)
    ensures
        ({
            let path = if reconnect.prefer_direct {
                DialPath::Direct
            } else {
                DialPath::Relay
            };
            let known = dial_step(
                reconnect,
                backoff_ms,
                DialPhase::Waiting,
                Some(id),
                DialEventView::Go,
            );
            let unknown = dial_step(
                reconnect,
                backoff_ms,
                DialPhase::Waiting,
                None,
                DialEventView::Go,
            );
            let named = dial_step(
                reconnect,
                backoff_ms,
                DialPhase::Resolving,
                cached,
                DialEventView::Resolved(id),
            );
            &&& known.action == DialAction::Dial(path, id)
            &&& known.phase == DialPhase::Dialing(path, id)
            &&& known.cached == Some(id)
            &&& unknown.action == DialAction::Subscribe
            &&& unknown.phase is Resolving
            &&& unknown.cached is None
            &&& named.action == DialAction::Dial(path, id)
            &&& named.phase == DialPhase::Dialing(path, id)
            &&& named.cached == Some(id)
        }),
{
}

/// A stream that is ready is used, on the path that was dialed, and the provider stays
/// remembered.
pub proof fn law_ready_stream_is_used(
    reconnect: ReconnectConfig,
    backoff_ms: u64,
    path: DialPath,
    id: EndpointId,
    cached: Option<EndpointId>,
)
    ensures
        ({
            let step = dial_step(
                reconnect,
                backoff_ms,
                DialPhase::Dialing(path, id),
                cached,
                DialEventView::Connected,
            );
            &&& step.action == DialAction::Use(path)
            &&& step.cached == cached
            &&& step.phase is Over
        }),
{
}

/// A direct dial that fails goes on through the relay to the same provider, which
/// stays remembered unless the message speaks of a failed authentication; a relayed
/// dial that fails waits, and starts over with the provider that is remembered; a
/// subscription that fails ends the dial.
pub proof fn law_failures_are_retried(
    reconnect: ReconnectConfig,
    backoff_ms: u64,
    id: EndpointId,
    cached: Option<EndpointId>,
    message: Seq<char>,
)
    ensures
        ({
            let failed = DialEventView::Failed(message);
            let direct = dial_step(
                reconnect,
                backoff_ms,
                DialPhase::Dialing(DialPath::Direct, id),
                cached,
                failed,
            );
            let relayed = dial_step(
                reconnect,
                backoff_ms,
                DialPhase::Dialing(DialPath::Relay, id),
                cached,
                failed,
            );
            let asked = dial_step(reconnect, backoff_ms, DialPhase::Resolving, cached, failed);
            &&& direct.action == DialAction::Dial(DialPath::Relay, id)
            &&& direct.phase == DialPhase::Dialing(DialPath::Relay, id)
            &&& direct.backoff_ms == backoff_ms
            &&& direct.cached == if exists|a: Seq<char>, b: Seq<char>|
                message == a + "provider rejected proof"@ + b || message == a
                    + "provider auth err"@ + b || message == a + "AuthErr"@ + b {
                None
            } else {
                cached
            }
            &&& relayed.action is Sleep
            &&& relayed.phase is Waiting
            &&& relayed.cached == cached
            &&& asked.action is GiveUp
            &&& asked.phase is Over
            &&& asked.cached == cached
        }),
{
    let p = "provider rejected proof"@;
    let q = "provider auth err"@;
    let r = "AuthErr"@;
    crate::text::law_containing_is_splitting(message, p);
    crate::text::law_containing_is_splitting(message, q);
    crate::text::law_containing_is_splitting(message, r);
    if exists|a: Seq<char>, b: Seq<char>| message == a + p + b || message == a + q + b || message
        == a + r + b {
        let (a, b) = choose|a: Seq<char>, b: Seq<char>|
            message == a + p + b || message == a + q + b || message == a + r + b;
        assert(is_auth_message(message));
    }
    if is_auth_message(message) {
        if contains_seq(message, p) {
            let (a, b) = choose|a: Seq<char>, b: Seq<char>| message == a + p + b;
            assert(message == a + p + b);
        } else if contains_seq(message, q) {
            let (a, b) = choose|a: Seq<char>, b: Seq<char>| message == a + q + b;
            assert(message == a + q + b);
        } else {
            let (a, b) = choose|a: Seq<char>, b: Seq<char>| message == a + r + b;
            assert(message == a + r + b);
        }
    }
}

/// What the status says of a dial: a stream that is used makes the service live, with
/// the name of its path and without an error; a dial that has to wait makes it failed,
/// with the message; the start of a dial makes it dialing. No other service is touched,
/// nor the control plane, and nothing else is reported.
pub proof fn law_status_follows_the_dial(
    status: RuntimeStatusView,
    name: Seq<char>,
    other: Seq<char>,
    path: DialPath,
    ms: u64,
    message: Seq<char>,
    event: DialEventView,
    action: DialAction,
    now_ms: i64,
)
    requires
        other != name,
    ensures
        ({
            let failed = DialEventView::Failed(message);
            let live = reported(status, name, event, DialAction::Use(path), now_ms);
            let waiting = reported(status, name, failed, DialAction::Sleep(ms), now_ms);
            let started = with_consumer(status, name, ConsumerState::Dialing, None, None, now_ms);
            &&& live.consumers.dom() == status.consumers.dom().insert(name)
            &&& live.consumers[name].state == ConsumerState::Live
            &&& live.consumers[name].mode == Some(
                match path {
                    DialPath::Direct => "direct"@,
                    DialPath::Relay => "relay"@,
                },
            )
            &&& live.consumers[name].last_error is None
            &&& live.consumers[name].last_success_at_ms == Some(now_ms)
            &&& live.consumers[name].last_attempt_at_ms == Some(now_ms)
            &&& waiting.consumers.dom() == status.consumers.dom().insert(name)
            &&& waiting.consumers[name].state == ConsumerState::Failed
            &&& waiting.consumers[name].last_error == Some(message)
            &&& waiting.consumers[name].last_attempt_at_ms == Some(now_ms)
            &&& started.consumers.dom() == status.consumers.dom().insert(name)
            &&& started.consumers[name].state == ConsumerState::Dialing
            &&& started.consumers[name].last_attempt_at_ms == Some(now_ms)
            &&& live.control == status.control && waiting.control == status.control
                && started.control == status.control
            &&& status.consumers.dom().contains(other) ==> live.consumers[other]
                == status.consumers[other] && waiting.consumers[other] == status.consumers[other]
                && started.consumers[other] == status.consumers[other]
            &&& !(action is Use) && !(action is Sleep) ==> reported(
                status,
                name,
                event,
                action,
                now_ms,
            ) == status
        }),
{
}

/// What the server's answer to a subscription says is taken as it stands: the id where
/// a provider is named, and else a failure, with the reason that the server gives.
pub proof fn law_subscription_answer_is_taken(service: Seq<char>, reply: FrameView)
    ensures
        match reply {
            FrameView::SubscribeOk { provider_node_id: Some(id), .. } => subscription(
                service,
                reply,
            ) == Ok::<Seq<char>, Seq<char>>(id),
            FrameView::ControlError { reason, .. } => exists|head: Seq<char>|
                subscription(service, reply) == Err::<Seq<char>, Seq<char>>(head + reason),
            _ => subscription(service, reply) is Err,
        },
{
    if let FrameView::ControlError { code, reason } = reply {
        let head = "subscribe rejected: "@ + "code="@ + decimal(code as nat) + " reason="@;
        assert(subscription(service, reply)->Err_0 =~= head + reason);
    }
}

/// After a failure the backoff is twice what it was, and never more than the cap.
pub proof fn law_backoff_doubles(backoff_ms: u64, max_ms: u64)
    ensures
        2 * backoff_ms <= max_ms ==> doubled(backoff_ms, max_ms) == 2 * backoff_ms,
        2 * backoff_ms > max_ms ==> doubled(backoff_ms, max_ms) == max_ms,
        capped(backoff_ms, max_ms) <= max_ms,
        backoff_ms <= max_ms ==> capped(backoff_ms, max_ms) == backoff_ms,
        backoff_ms > max_ms ==> capped(backoff_ms, max_ms) == max_ms,
{
}

/// The provider is the endpoint that the id in the server's answer names; an answer
/// without an id, with one that does not parse, or of another kind names none, and the
/// failure says which service or which id it is about.
pub proof fn law_provider_is_the_named_endpoint(service: Seq<char>, reply: FrameView)
    ensures
        match reply {
            FrameView::SubscribeOk { provider_node_id: Some(id), .. } => match iroh_id(id) {
                Some(bytes) => provider_in(service, reply) == Ok::<Seq<u8>, Seq<char>>(bytes),
                None => provider_in(service, reply) matches Err(m) && contains_seq(m, quoted(id)),
            },
            FrameView::SubscribeOk { provider_node_id: None, .. } => provider_in(
                service,
                reply,
            ) matches Err(m) && contains_seq(m, quoted(service)),
            FrameView::ControlError { reason, .. } => provider_in(service, reply) matches Err(m)
                && contains_seq(m, reason),
            _ => provider_in(service, reply) matches Err(m) && contains_seq(m, frame_text(reply)),
        },
{
    match reply {
        FrameView::SubscribeOk { provider_node_id: Some(id), .. } => {
            crate::text::lemma_middle_is_contained("invalid provider id "@, quoted(id), ""@);
        },
        FrameView::SubscribeOk { provider_node_id: None, .. } => {
            crate::text::lemma_middle_is_contained(
                "server has no provider for service "@,
                quoted(service),
                ""@,
            );
        },
        FrameView::ControlError { code, reason } => {
            let head = "subscribe rejected: "@ + "code="@ + decimal(code as nat) + " reason="@;
            assert(provider_in(service, reply)->Err_0 =~= head + reason);
            crate::text::lemma_middle_is_contained(head, reason, ""@);
        },
        _ => {
            crate::text::lemma_middle_is_contained(
                "unexpected frame after subscribe: "@,
                frame_text(reply),
                ""@,
            );
        },
    }
}

/// What a dial reports is counted from what was known of the service: a stream that is
/// used adds one to its streams, and a failure or a start leaves its streams, its mode
/// and its last success as they were.
pub proof fn law_reports_build_on_what_was_known(
    status: RuntimeStatusView,
    name: Seq<char>,
    path: DialPath,
    ms: u64,
    message: Seq<char>,
    event: DialEventView,
    now_ms: i64,
)
    requires
        status.consumers.dom().contains(name),
        status.consumers[name].forwarded_streams < u64::MAX,
    ensures
        ({
            let old = status.consumers[name];
            let failed = DialEventView::Failed(message);
            let live = reported(status, name, event, DialAction::Use(path), now_ms).consumers[name];
            let waiting = reported(
                status,
                name,
                failed,
                DialAction::Sleep(ms),
                now_ms,
            ).consumers[name];
            let started = with_consumer(
                status,
                name,
                ConsumerState::Dialing,
                None,
                None,
                now_ms,
            ).consumers[name];
            &&& live.forwarded_streams == old.forwarded_streams + 1
            &&& waiting.forwarded_streams == old.forwarded_streams
            &&& waiting.mode == old.mode
            &&& waiting.last_success_at_ms == old.last_success_at_ms
            &&& started.forwarded_streams == old.forwarded_streams
            &&& started.mode == old.mode
            &&& started.last_error == old.last_error
            &&& started.last_success_at_ms == old.last_success_at_ms
        }),
{
}

/// An answer that does not belong where the handshake stands is told as the frame that
/// came.
pub proof fn law_unexpected_frames_are_told(
    secret: Seq<u8>,
    service: Seq<char>,
    path: DialPath,
    phase: ConsumerPhase,
    frame: FrameView,
)
    requires
        !(frame is AuthErr),
    ensures
        consumer_answer(secret, service, path, phase, frame).1 matches ConsumerActionView::Fail(m)
            ==> contains_seq(m, frame_text(frame)),
{
    let head = match (phase, path) {
        (ConsumerPhase::AwaitingNonce, DialPath::Direct) => "expected AuthNonce, got "@,
        (ConsumerPhase::AwaitingNonce, DialPath::Relay) => "expected AuthNonce from relay, got "@,
        (_, DialPath::Direct) => "expected AuthOk, got "@,
        (_, DialPath::Relay) => "expected AuthOk from relay, got "@,
    };
    crate::text::lemma_middle_is_contained(head, frame_text(frame), ""@);
}

} // verus!
