//! Expose mode: publish a local service to the group.
//!
//! A client registers its services with the server over the control plane, and
//! answers consumers that connect on `meshly-core/<service>`: the consumer says
//! hello, the provider issues a nonce, the consumer proves that it has the
//! service's secret, and only then is the stream bridged to the local backend.
use crate::frame_text::frame_text;
use crate::protocol::{
    compute_proof, hmac_sha256, proof_of, verify_proof, AuthErr, AuthNonce, AuthOk, Frame, FrameView, Hello,
    Register, AUTH_ERR_BAD_PROOF,
};
use crate::text::{decimal, decimal_text};
use vstd::prelude::*;
use vstd::string::StringExecFns;
use vstd::utf8::encode_utf8;

verus! {

/// Description of one service to expose.
#[derive(Debug, Clone)]
pub struct ExposeSpec {
    pub name: String,
    pub local_addr: String,
    pub shared_secret: Vec<u8>,
}

/// Computes a proof on the consumer's side.
pub fn make_proof(secret: &[u8], service: &str, nonce: &[u8; 32]) -> (mac: [u8; 32])
    ensures
        mac@ == proof_of(secret@, service@, nonce@),
{
    compute_proof(secret, service, nonce)
}

// ---------------------------------------------------------------------------
// The provider's side of the handshake
// ---------------------------------------------------------------------------

/// How far a provider has come with one stream.
#[derive(Debug)]
pub enum ProviderPhase {
    /// No frame has come yet.
    AwaitingHello,
    /// This nonce was issued.
    AwaitingProof([u8; 32]),
    /// The handshake is over.
    Done,
}

/// What a [`ProviderPhase`] stands for.
pub enum ProviderPhaseView {
    AwaitingHello,
    AwaitingProof(Seq<u8>),
    Done,
}

impl View for ProviderPhase {
    type V = ProviderPhaseView;

    open spec fn view(&self) -> ProviderPhaseView {
        match self {
            ProviderPhase::AwaitingHello => ProviderPhaseView::AwaitingHello,
            ProviderPhase::AwaitingProof(nonce) => ProviderPhaseView::AwaitingProof(nonce@),
            ProviderPhase::Done => ProviderPhaseView::Done,
        }
    }
}

/// What a provider does after a frame has come in.
#[derive(Debug)]
pub enum ProviderAction {
    /// Write a frame and wait for the next one.
    Send(Frame),
    /// Write a frame and bridge the stream to the backend.
    Serve(Frame),
    /// Write a frame and close the stream.
    Refuse(Frame),
    /// Close the stream without a word.
    Close,
}

/// What a [`ProviderAction`] stands for.
pub enum ProviderActionView {
    Send(FrameView),
    Serve(FrameView),
    Refuse(FrameView),
    Close,
}

impl View for ProviderAction {
    type V = ProviderActionView;

    open spec fn view(&self) -> ProviderActionView {
        match self {
            ProviderAction::Send(f) => ProviderActionView::Send(f@),
            ProviderAction::Serve(f) => ProviderActionView::Serve(f@),
            ProviderAction::Refuse(f) => ProviderActionView::Refuse(f@),
            ProviderAction::Close => ProviderActionView::Close,
        }
    }
}

/// One frame of a provider's handshake, where `expected` is the proof that the
/// issued nonce calls for and `nonce` a fresh random one.
pub open spec fn provider_step(
    phase: ProviderPhaseView,
    frame: FrameView,
    expected: Seq<u8>,
    nonce: Seq<u8>,
) -> (ProviderPhaseView, ProviderActionView) {
    match (phase, frame) {
        (ProviderPhaseView::AwaitingHello, FrameView::AuthHello) => (
            ProviderPhaseView::AwaitingProof(nonce),
            ProviderActionView::Send(FrameView::AuthNonce { nonce }),
        ),
        (ProviderPhaseView::AwaitingProof(_), FrameView::AuthProof { mac }) => if mac == expected {
            (ProviderPhaseView::Done, ProviderActionView::Serve(FrameView::AuthOk))
        } else {
            (
                ProviderPhaseView::Done,
                ProviderActionView::Refuse(
                    FrameView::AuthErr { code: AUTH_ERR_BAD_PROOF, reason: "bad HMAC proof"@ },
                ),
            )
        },
        _ => (ProviderPhaseView::Done, ProviderActionView::Close),
    }
}

/// The nonce that a phase waits for a proof of.
pub open spec fn issued_nonce(phase: ProviderPhaseView) -> Seq<u8> {
    match phase {
        ProviderPhaseView::AwaitingProof(nonce) => nonce,
        _ => Seq::empty(),
    }
}

/// One frame of the handshake of a provider that has `secret` for `service`, where
/// `nonce` is a fresh random one.
pub open spec fn provider_answer(
    secret: Seq<u8>,
    service: Seq<char>,
    phase: ProviderPhaseView,
    frame: FrameView,
    nonce: Seq<u8>,
) -> (ProviderPhaseView, ProviderActionView) {
    provider_step(phase, frame, proof_of(secret, service, issued_nonce(phase)), nonce)
}

impl ProviderPhase {
    /// Before the first frame.
    pub fn new() -> (p: ProviderPhase)
        ensures
            p@ is AwaitingHello,
    {
        ProviderPhase::AwaitingHello
    }

    /// Takes the next frame of the consumer. `nonce` is a fresh random one.
    pub fn on_frame(&mut self, secret: &[u8], service: &str, frame: &Frame, nonce: [u8; 32]) -> (a:
        ProviderAction)
        ensures
            (final(self)@, a@) == provider_step(
                old(self)@,
                frame@,
                proof_of(secret@, service@, issued_nonce(old(self)@)),
                nonce@,
            ),
            (final(self)@, a@) == provider_answer(secret@, service@, old(self)@, frame@, nonce@),
            old(self)@ is AwaitingHello && frame@ is AuthHello ==> final(self)@
                == ProviderPhaseView::AwaitingProof(nonce@) && a@ == ProviderActionView::Send(
                FrameView::AuthNonce { nonce: nonce@ },
            ),
            a@ is Serve <==> (old(self)@ matches ProviderPhaseView::AwaitingProof(issued)
                && frame@ matches FrameView::AuthProof { mac } && mac == hmac_sha256(
                secret@,
                encode_utf8(service@) + issued,
            )),
    {
        match (&*self, frame) {
            (ProviderPhase::AwaitingHello, Frame::AuthHello) => {
                *self = ProviderPhase::AwaitingProof(nonce);
                ProviderAction::Send(Frame::AuthNonce(AuthNonce { nonce }))
            },
            (ProviderPhase::AwaitingProof(issued), Frame::AuthProof(proof)) => {
                let accepted = verify_proof(secret, service, issued, &proof.mac);
                *self = ProviderPhase::Done;
                verdict(accepted)
            },
            _ => {
                *self = ProviderPhase::Done;
                ProviderAction::Close
            },
        }
    }
}

/// What a provider answers to a proof that was accepted or not.
pub fn verdict(accepted: bool) -> (a: ProviderAction)
    ensures
        a@ == if accepted {
            ProviderActionView::Serve(FrameView::AuthOk)
        } else {
            ProviderActionView::Refuse(
                FrameView::AuthErr { code: AUTH_ERR_BAD_PROOF, reason: "bad HMAC proof"@ },
            )
        },
{
    if accepted {
        ProviderAction::Serve(Frame::AuthOk(AuthOk))
    } else {
        ProviderAction::Refuse(
            Frame::AuthErr(
                AuthErr { code: AUTH_ERR_BAD_PROOF, reason: "bad HMAC proof".to_owned() },
            ),
        )
    }
}

/// A stream is served only for the proof of the nonce that was issued on it:
/// whatever else comes, and in whatever phase, it is refused or closed.
pub proof fn law_only_the_proof_is_served(
    phase: ProviderPhaseView,
    frame: FrameView,
    expected: Seq<u8>,
    nonce: Seq<u8>,
)
    ensures
        provider_step(phase, frame, expected, nonce).1 is Serve <==> phase is AwaitingProof
            && frame == (FrameView::AuthProof { mac: expected }),
{
}

/// A consumer that does not say hello first is not issued a nonce, and a nonce
/// can be answered only once.
pub proof fn law_handshake_order(
    phase: ProviderPhaseView,
    frame: FrameView,
    expected: Seq<u8>,
    nonce: Seq<u8>,
)
    ensures
        provider_step(phase, frame, expected, nonce).1 is Send <==> phase is AwaitingHello
            && frame is AuthHello,
        phase is AwaitingProof ==> provider_step(phase, frame, expected, nonce).0 is Done,
        phase is Done ==> provider_step(phase, frame, expected, nonce) == (
            ProviderPhaseView::Done,
            ProviderActionView::Close,
        ),
{
}

/// A hello is answered with the very nonce that was drawn, and that nonce is the one
/// a proof is then asked for.
pub proof fn law_provider_issues_the_nonce(
    secret: Seq<u8>,
    service: Seq<char>,
    nonce: Seq<u8>,
)
    ensures
        provider_answer(
            secret,
            service,
            ProviderPhaseView::AwaitingHello,
            FrameView::AuthHello,
            nonce,
        ) == (
            ProviderPhaseView::AwaitingProof(nonce),
            ProviderActionView::Send(FrameView::AuthNonce { nonce }),
        ),
{
}

/// A provider accepts a proof exactly where it is the HMAC-SHA256, under its secret,
/// of the service's name with the issued nonce behind it; any other proof is refused
/// with an authentication error, and any other frame with silence.
pub proof fn law_provider_judges_the_proof(
    secret: Seq<u8>,
    service: Seq<char>,
    issued: Seq<u8>,
    frame: FrameView,
    unused: Seq<u8>,
)
    ensures
        ({
            let (next, action) = provider_answer(
                secret,
                service,
                ProviderPhaseView::AwaitingProof(issued),
                frame,
                unused,
            );
            &&& next is Done
            &&& match frame {
                FrameView::AuthProof { mac } => if mac == hmac_sha256(
                    secret,
                    encode_utf8(service) + issued,
                ) {
                    action == ProviderActionView::Serve(FrameView::AuthOk)
                } else {
                    action matches ProviderActionView::Refuse(FrameView::AuthErr { code, reason })
                        && code == 1 && reason == "bad HMAC proof"@
                },
                _ => action is Close,
            }
        }),
{
}

// ---------------------------------------------------------------------------
// Control connections that the server opens
// ---------------------------------------------------------------------------

/// Answers what the server pushes over the control connection.
#[derive(Debug, Clone, Copy)]
pub struct ControlResponseHandler;

impl Default for ControlResponseHandler {
    fn default() -> (r: Self) {
        ControlResponseHandler
    }
}

impl ControlResponseHandler {
    /// A heartbeat is answered with a heartbeat, anything else not at all.
    pub fn respond(&self, frame: &Frame) -> (reply: Option<Frame>)
        ensures
            frame@ is Heartbeat ==> (reply matches Some(f) && f@ is Heartbeat),
            !(frame@ is Heartbeat) ==> reply is None,
    {
        match frame {
            Frame::Heartbeat => Some(Frame::Heartbeat),
            _ => None,
        }
    }
}

// ---------------------------------------------------------------------------
// Registration
// ---------------------------------------------------------------------------

/// `code=<code> reason=<reason>`
pub open spec fn code_and_reason(code: nat, reason: Seq<char>) -> Seq<char> {
    "code="@ + decimal(code) + " reason="@ + reason
}

/// Writes a code and a reason.
pub fn code_and_reason_text(code: u64, reason: &str) -> (text: String)
    ensures
        text@ == code_and_reason(code as nat, reason@),
{
    "code=".to_owned().concat(decimal_text(code).as_str()).concat(" reason=").concat(reason)
}

/// Why the server's answer to a hello is not an acceptance; nothing where it is.
pub open spec fn hello_failure(reply: FrameView) -> Option<Seq<char>> {
    match reply {
        FrameView::HelloOk { .. } => None,
        FrameView::ControlError { code, reason } => Some(
            "server rejected hello: "@ + code_and_reason(code as nat, reason),
        ),
        _ => Some("unexpected frame after hello: "@ + frame_text(reply)),
    }
}

/// Checks the server's answer to a hello.
pub fn check_hello_reply(reply: &Frame) -> (r: Result<(), String>)
    ensures
        match r {
            Ok(_) => hello_failure(reply@) is None,
            Err(message) => hello_failure(reply@) == Some(message@),
        },
{
    match reply {
        Frame::HelloOk(_) => Ok(()),
        Frame::ControlError { code, reason } => Err(
            "server rejected hello: ".to_owned().concat(
                code_and_reason_text(*code as u64, reason.as_str()).as_str(),
            ),
        ),
        _ => Err(
            "unexpected frame after hello: ".to_owned().concat(reply.describe().as_str()),
        ),
    }
}

/// Why the server's answer to a registration is not an acceptance.
pub open spec fn register_failure(name: Seq<char>, is_static: bool, reply: FrameView) -> Option<
    Seq<char>,
> {
    match reply {
        FrameView::RegisterOk { .. } => None,
        FrameView::ControlError { code, reason } => Some(
            "server rejected register("@ + name + (if is_static {
                " static): "@
            } else {
                "): "@
            }) + code_and_reason(code as nat, reason),
        ),
        _ => Some("unexpected frame after register: "@ + frame_text(reply)),
    }
}

/// Checks the server's answer to the registration of `name`.
pub fn check_register_reply(name: &str, is_static: bool, reply: &Frame) -> (r: Result<(), String>)
    ensures
        match r {
            Ok(_) => register_failure(name@, is_static, reply@) is None,
            Err(message) => register_failure(name@, is_static, reply@) == Some(message@),
        },
{
    match reply {
        Frame::RegisterOk(_) => Ok(()),
        Frame::ControlError { code, reason } => {
            let kind = if is_static {
                " static): "
            } else {
                "): "
            };
            Err(
                "server rejected register(".to_owned().concat(name).concat(kind).concat(
                    code_and_reason_text(*code as u64, reason.as_str()).as_str(),
                ),
            )
        },
        _ => Err(
            "unexpected frame after register: ".to_owned().concat(reply.describe().as_str()),
        ),
    }
}

/// A registration in progress: a hello, then one request for each exposed service
/// and one for each static service, each on a stream of its own.
#[derive(Debug)]
pub struct Registration {
    exposed: Vec<String>,
    statics: Vec<String>,
    /// Requests whose answer was good, the hello among them.
    answered: usize,
}

/// What a [`Registration`] stands for.
#[verifier::ext_equal]
pub struct RegistrationView {
    pub exposed: Seq<Seq<char>>,
    pub statics: Seq<Seq<char>>,
    pub answered: int,
}

/// Views a list of names.
pub open spec fn name_views(names: Seq<String>) -> Seq<Seq<char>> {
    names.map_values(|s: String| s@)
}

impl View for Registration {
    type V = RegistrationView;

    closed spec fn view(&self) -> RegistrationView {
        RegistrationView {
            exposed: name_views(self.exposed@),
            statics: name_views(self.statics@),
            answered: self.answered as int,
        }
    }
}

impl RegistrationView {
    /// All names, in the order in which they are registered.
    pub open spec fn names(self) -> Seq<Seq<char>> {
        self.exposed + self.statics
    }

    /// Every request was answered well.
    pub open spec fn is_complete(self) -> bool {
        self.answered > self.names().len()
    }

    /// Why the answer to the pending request is not an acceptance.
    pub open spec fn failure(self, reply: FrameView) -> Option<Seq<char>> {
        if self.answered == 0 {
            hello_failure(reply)
        } else {
            register_failure(
                self.names()[self.answered - 1],
                self.answered > self.exposed.len(),
                reply,
            )
        }
    }
}

impl Registration {
    #[verifier::type_invariant]
    spec fn well_formed(self) -> bool {
        &&& self.exposed@.len() + self.statics@.len() < usize::MAX
        &&& self.answered <= self.exposed@.len() + self.statics@.len() + 1
    }

    /// Starts a registration of these services.
    pub fn new(exposed: Vec<String>, statics: Vec<String>) -> (r: Registration)
        requires
            exposed@.len() + statics@.len() < usize::MAX,
        ensures
            r@ == (RegistrationView {
                exposed: name_views(exposed@),
                statics: name_views(statics@),
                answered: 0,
            }),
    {
        Registration { exposed, statics, answered: 0 }
    }

    /// The first request.
    pub fn hello(group_token: &str, client_info: &str) -> (f: Frame)
        ensures
            f@ == (FrameView::Hello { group_token: group_token@, client_info: client_info@ }),
    {
        Frame::Hello(
            Hello { group_token: group_token.to_owned(), client_info: client_info.to_owned() },
        )
    }

    /// Takes the answer to the pending request: the next request, nothing where
    /// the registration is complete, or what went wrong. A complete registration
    /// waits for no answer and stays as it is.
    pub fn on_reply(&mut self, reply: &Frame) -> (r: Result<Option<Frame>, String>)
        ensures
            final(self)@.exposed == old(self)@.exposed,
            final(self)@.statics == old(self)@.statics,
            old(self)@.is_complete() ==> (r matches Ok(None)) && final(self)@ == old(self)@,
            !old(self)@.is_complete() ==> match old(self)@.failure(reply@) {
                Some(message) => {
                    &&& r matches Err(m) && m@ == message
                    &&& final(self)@ == old(self)@
                },
                None => {
                    &&& final(self)@.answered == old(self)@.answered + 1
                    &&& if final(self)@.is_complete() {
                        r matches Ok(None)
                    } else {
                        r matches Ok(Some(f)) && f@ == (FrameView::Register {
                            service: old(self)@.names()[old(self)@.answered],
                        })
                    }
                },
            },
    {
        proof {
            use_type_invariant(&*self);
        }
        let ghost before = self@;
        let done: usize = self.answered;
        let exposes: usize = self.exposed.len();
        if done > exposes + self.statics.len() {
            return Ok(None);
        }
        let checked = if done == 0 {
            check_hello_reply(reply)
        } else if done <= exposes {
            check_register_reply(self.exposed[done - 1].as_str(), false, reply)
        } else {
            check_register_reply(self.statics[done - 1 - exposes].as_str(), true, reply)
        };
        if let Err(message) = checked {
            return Err(message);
        }
        self.answered = done + 1;
        assert(self@ =~= (RegistrationView { answered: before.answered + 1, ..before }));
        if done < exposes {
            Ok(Some(Frame::Register(Register { service: self.exposed[done].clone() })))
        } else if done - exposes < self.statics.len() {
            Ok(Some(Frame::Register(Register { service: self.statics[done - exposes].clone() })))
        } else {
            Ok(None)
        }
    }
}

/// A hello is taken as accepted exactly where the server says so, and a refusal is
/// passed on with its reason.
pub proof fn law_hello_must_be_accepted(reply: FrameView)
    ensures
        hello_failure(reply) is None <==> reply is HelloOk,
        reply matches FrameView::ControlError { code, reason } ==> hello_failure(reply) == Some(
            "server rejected hello: "@ + "code="@ + decimal(code as nat) + " reason="@ + reason,
        ),
{
    if let FrameView::ControlError { code, reason } = reply {
        assert("server rejected hello: "@ + ("code="@ + decimal(code as nat) + " reason="@ + reason)
            =~= "server rejected hello: "@ + "code="@ + decimal(code as nat) + " reason="@ + reason);
    }
}

/// A registration is taken as accepted exactly where the server says so, and a
/// refusal is passed on with the name and the reason.
pub proof fn law_register_must_be_accepted(name: Seq<char>, is_static: bool, reply: FrameView)
    ensures
        register_failure(name, is_static, reply) is None <==> reply is RegisterOk,
        reply matches FrameView::ControlError { reason, .. } ==> exists|middle: Seq<char>|
            register_failure(name, is_static, reply) == Some(
                "server rejected register("@ + name + middle + reason,
            ),
{
    if let FrameView::ControlError { code, reason } = reply {
        let middle = (if is_static {
            " static): "@
        } else {
            "): "@
        }) + "code="@ + decimal(code as nat) + " reason="@;
        assert(register_failure(name, is_static, reply)->0 =~= "server rejected register("@ + name
            + middle + reason);
    }
}

/// Every service is registered, the exposed ones first, each in its order, and the
/// registration is complete exactly when the hello and all of them were answered.
/// Until then a good answer is a `HelloOk` for the hello and a `RegisterOk` for a
/// service.
pub proof fn law_every_service_is_registered(r: RegistrationView, reply: FrameView)
    ensures
        r.names().len() == r.exposed.len() + r.statics.len(),
        forall|i: int| 0 <= i < r.exposed.len() ==> #[trigger] r.names()[i] == r.exposed[i],
        forall|j: int|
            0 <= j < r.statics.len() ==> r.names()[r.exposed.len() + j] == #[trigger] r.statics[j],
        r.is_complete() <==> r.answered >= 1 + r.exposed.len() + r.statics.len(),
        r.answered == 0 ==> (r.failure(reply) is None <==> reply is HelloOk),
        r.answered > 0 ==> (r.failure(reply) is None <==> reply is RegisterOk),
{
}

/// The text of a refusal holds its code and its reason.
pub proof fn law_refusals_are_told_with_code_and_reason(code: nat, reason: Seq<char>)
    ensures
        crate::text::contains_seq(code_and_reason(code, reason), decimal(code)),
        crate::text::contains_seq(code_and_reason(code, reason), reason),
{
    let tail = " reason="@ + reason;
    assert(code_and_reason(code, reason) =~= "code="@ + decimal(code) + tail);
    crate::text::lemma_middle_is_contained("code="@, decimal(code), tail);
    crate::text::lemma_middle_is_contained("code="@ + decimal(code) + " reason="@, reason, ""@);
}

/// A refused registration is told with the service that was asked for: the exposed ones
/// come behind the hello, and the static ones behind them, and are told as such.
pub proof fn law_failed_registration_names_its_service(r: RegistrationView, reply: FrameView)
    ensures
        r.answered == 0 ==> r.failure(reply) == hello_failure(reply),
        1 <= r.answered <= r.exposed.len() ==> r.failure(reply) == register_failure(
            r.exposed[r.answered - 1],
            false,
            reply,
        ),
        r.exposed.len() < r.answered <= r.exposed.len() + r.statics.len() ==> r.failure(reply)
            == register_failure(r.statics[r.answered - 1 - r.exposed.len()], true, reply),
{
}

/// An answer that is neither an acceptance nor a refusal is told as the frame that came.
pub proof fn law_unexpected_answers_are_told(name: Seq<char>, is_static: bool, reply: FrameView)
    requires
        !(reply is ControlError),
    ensures
        !(reply is HelloOk) ==> exists|head: Seq<char>|
            hello_failure(reply) == Some(#[trigger] (head + frame_text(reply))),
        !(reply is RegisterOk) ==> exists|head: Seq<char>|
            register_failure(name, is_static, reply) == Some(
                #[trigger] (head + frame_text(reply)),
            ),
{
    if !(reply is HelloOk) {
        let head = "unexpected frame after hello: "@;
        assert(hello_failure(reply) == Some(head + frame_text(reply)));
    }
    if !(reply is RegisterOk) {
        let head = "unexpected frame after register: "@;
        assert(register_failure(name, is_static, reply) == Some(head + frame_text(reply)));
    }
}

} // verus!
