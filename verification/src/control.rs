//! Control-plane sessions on the server (ALPN `meshly-core/control`).
//!
//! A session runs the following sequence:
//!
//! 1. The client sends `Hello { group_token, client_info }`; the token decides
//!    on the group.
//! 2. The server replies `HelloOk { session_id }`.
//! 3. Until the client disconnects, `Register` is answered with `RegisterOk` or
//!    `ControlError`, `Subscribe` with `SubscribeOk`, and `Heartbeat` keeps the
//!    session alive.
//!
//! A [`ControlSession`] takes the frames as they come in and says what to write.
use crate::config::HeartbeatConfig;
use crate::endpoint::{endpoint_text, lower_hex, text_reads_back, EndpointId};
use crate::protocol::{Frame, FrameView, HelloOk, RegisterOk, SubscribeOk};
use crate::registry::{GroupView, ServerState, ServerView, MAX_SERVICE_NAME};
use vstd::prelude::*;
use vstd::string::StringExecFns;
use vstd::utf8::encode_utf8;

verus! {

/// Server-side configuration of control sessions, in seconds.
#[derive(Debug, Clone, Copy, PartialEq, Eq, Structural)]
pub struct ControlConfig {
    pub heartbeat_interval: u64,
    pub heartbeat_timeout: u64,
}

impl ControlConfig {
    /// Takes the configured times, each at least one second.
    pub fn from_heartbeat(cfg: &HeartbeatConfig) -> (r: ControlConfig)
        ensures
            r.heartbeat_interval == if cfg.interval_secs < 1 {
                1
            } else {
                cfg.interval_secs
            },
            r.heartbeat_timeout == if cfg.timeout_secs < 1 {
                1
            } else {
                cfg.timeout_secs
            },
    {
        ControlConfig {
            heartbeat_interval: if cfg.interval_secs < 1 {
                1
            } else {
                cfg.interval_secs
            },
            heartbeat_timeout: if cfg.timeout_secs < 1 {
                1
            } else {
                cfg.timeout_secs
            },
        }
    }
}

/// How far a session has come.
#[derive(Debug)]
pub enum SessionPhase {
    /// No frame has come yet.
    AwaitingHello,
    /// The client was admitted to the group of this name.
    Active(String),
    /// The session has ended.
    Closed,
}

/// What a [`SessionPhase`] stands for.
pub enum PhaseView {
    AwaitingHello,
    Active(Seq<char>),
    Closed,
}

impl View for SessionPhase {
    type V = PhaseView;

    open spec fn view(&self) -> PhaseView {
        match self {
            SessionPhase::AwaitingHello => PhaseView::AwaitingHello,
            SessionPhase::Active(group) => PhaseView::Active(group@),
            SessionPhase::Closed => PhaseView::Closed,
        }
    }
}

/// One client's session: the peer that it is connected to, and its phase.
#[derive(Debug)]
pub struct ControlSession {
    pub remote: EndpointId,
    pub phase: SessionPhase,
}

/// What to do after a frame has come in.
#[derive(Debug)]
pub enum SessionAction {
    /// Write nothing and go on.
    Continue,
    /// Write a frame and go on; where the write fails the session ends.
    Reply(Frame),
    /// Write a refusal and go on, even where the write fails.
    Refuse(Frame),
    /// Write a frame and end the session.
    ReplyAndClose(Frame),
    /// End the session without a word.
    Close,
}

/// What a [`SessionAction`] stands for.
pub enum ActionView {
    Continue,
    Reply(FrameView),
    Refuse(FrameView),
    ReplyAndClose(FrameView),
    Close,
}

impl View for SessionAction {
    type V = ActionView;

    open spec fn view(&self) -> ActionView {
        match self {
            SessionAction::Continue => ActionView::Continue,
            SessionAction::Reply(f) => ActionView::Reply(f@),
            SessionAction::Refuse(f) => ActionView::Refuse(f@),
            SessionAction::ReplyAndClose(f) => ActionView::ReplyAndClose(f@),
            SessionAction::Close => ActionView::Close,
        }
    }
}

/// The error code for a token that opens no group.
pub const ERROR_UNKNOWN_GROUP: u16 = 1;

/// The error code for a second hello.
pub const ERROR_HELLO_REPEATED: u16 = 2;

/// The error code for a refused registration.
pub const ERROR_REGISTER_FAILED: u16 = 3;

/// Session ids are never zero.
pub open spec fn session_id_from(random: u64) -> u64 {
    if random == 0 {
        1
    } else {
        random
    }
}

/// The state after one frame, and what to do: the phase, the server, the action.
pub struct Step {
    pub phase: PhaseView,
    pub server: ServerView,
    pub action: ActionView,
}

/// The first frame of a session: a hello with a token that opens a group is
/// accepted, one with any other token is refused, and anything else ends the
/// session.
pub open spec fn hello_step(
    remote: Seq<u8>,
    server: ServerView,
    frame: FrameView,
    random: u64,
    now: u64,
) -> Step {
    match frame {
        FrameView::Hello { group_token, .. } => match server.authenticated(group_token) {
            Some(i) => Step {
                phase: PhaseView::Active(server.groups[i].name),
                server: server.with_group(i, server.groups[i].touched(remote, now)),
                action: ActionView::Reply(
                    FrameView::HelloOk { session_id: session_id_from(random) },
                ),
            },
            None => Step {
                phase: PhaseView::Closed,
                server,
                action: ActionView::ReplyAndClose(
                    FrameView::ControlError {
                        code: ERROR_UNKNOWN_GROUP,
                        reason: "unknown group"@,
                    },
                ),
            },
        },
        _ => Step { phase: PhaseView::Closed, server, action: ActionView::Close },
    }
}

/// What is answered to a subscription in a group.
pub open spec fn subscription_reply(group: GroupView, service: Seq<char>) -> FrameView {
    FrameView::SubscribeOk {
        service,
        provider_node_id: match group.provider(service) {
            Some(id) => Some(lower_hex(id)),
            None => None,
        },
        relay_required: false,
    }
}

/// A frame in an active session of the `i`-th group.
pub open spec fn command_step(
    remote: Seq<u8>,
    name: Seq<char>,
    i: int,
    server: ServerView,
    frame: FrameView,
    now: u64,
) -> Step {
    let phase = PhaseView::Active(name);
    let group = server.groups[i];
    match frame {
        FrameView::Register { service } => if encode_utf8(service).len() <= MAX_SERVICE_NAME {
            Step {
                phase,
                server: server.with_group(i, group.registered(service, remote)),
                action: ActionView::Reply(FrameView::RegisterOk { service }),
            }
        } else {
            Step {
                phase,
                server,
                action: ActionView::Refuse(
                    FrameView::ControlError {
                        code: ERROR_REGISTER_FAILED,
                        reason: "register failed: "@ + "invalid service name"@,
                    },
                ),
            }
        },
        FrameView::Subscribe { service } => Step {
            phase,
            server,
            action: ActionView::Reply(subscription_reply(group, service)),
        },
        FrameView::Heartbeat => Step {
            phase,
            server: server.with_group(i, group.touched(remote, now)),
            action: ActionView::Continue,
        },
        FrameView::Hello { .. } => Step {
            phase,
            server,
            action: ActionView::Refuse(
                FrameView::ControlError {
                    code: ERROR_HELLO_REPEATED,
                    reason: "Hello already received"@,
                },
            ),
        },
        _ => Step { phase, server, action: ActionView::Continue },
    }
}

/// One frame of a session. `random` is a random number for a fresh session id.
pub open spec fn session_step(
    remote: Seq<u8>,
    phase: PhaseView,
    server: ServerView,
    frame: FrameView,
    random: u64,
    now: u64,
) -> Step {
    match phase {
        PhaseView::AwaitingHello => hello_step(remote, server, frame, random, now),
        PhaseView::Active(name) => match server.group(name) {
            Some(i) => command_step(remote, name, i, server, frame, now),
            None => Step { phase: PhaseView::Closed, server, action: ActionView::Close },
        },
        PhaseView::Closed => Step { phase, server, action: ActionView::Close },
    }
}

/// Where a subscription is answered with a provider, the text of its id is read back
/// by the consumer.
pub open spec fn answered_id_reads_back(
    name: Seq<char>,
    server: ServerView,
    frame: FrameView,
) -> bool {
    frame matches FrameView::Subscribe { service } ==> (server.service(
        name,
        service,
    ) matches Some(id) ==> text_reads_back(id))
}

/// The server once a session has ended: the client's session and its services
/// are gone from the group that it was admitted to.
pub open spec fn after_session(remote: Seq<u8>, phase: PhaseView, server: ServerView) -> ServerView {
    match phase {
        PhaseView::Active(name) => match server.group(name) {
            Some(i) => server.with_group(i, server.groups[i].dropped(remote)),
            None => server,
        },
        _ => server,
    }
}

impl ControlSession {
    /// A session with the peer `remote`, before its first frame.
    pub fn new(remote: EndpointId) -> (s: ControlSession)
        ensures
            s.remote == remote,
            s.phase@ is AwaitingHello,
    {
        ControlSession { remote, phase: SessionPhase::AwaitingHello }
    }

    /// Takes the next frame of the client.
    pub fn on_frame(&mut self, server: &mut ServerState, frame: &Frame, random: u64, now: u64) -> (a:
        SessionAction)
        ensures
            final(self).remote == old(self).remote,
            ({
                let step = session_step(
                    old(self).remote@,
                    old(self).phase@,
                    old(server)@,
                    frame@,
                    random,
                    now,
                );
                &&& final(self).phase@ == step.phase
                &&& final(server)@ == step.server
                &&& a@ == step.action
            }),
            old(self).phase@ matches PhaseView::Active(name) ==> answered_id_reads_back(
                name,
                old(server)@,
                frame@,
            ),
    {
        match &self.phase {
            SessionPhase::AwaitingHello => self.on_hello(server, frame, random, now),
            SessionPhase::Active(name) => match server.group(name.as_str()) {
                Some(i) => on_command(&self.remote, i, server, frame, now),
                None => {
                    self.phase = SessionPhase::Closed;
                    SessionAction::Close
                },
            },
            SessionPhase::Closed => SessionAction::Close,
        }
    }

    fn on_hello(&mut self, server: &mut ServerState, frame: &Frame, random: u64, now: u64) -> (a:
        SessionAction)
        ensures
            final(self).remote == old(self).remote,
            ({
                let step = hello_step(old(self).remote@, old(server)@, frame@, random, now);
                &&& final(self).phase@ == step.phase
                &&& final(server)@ == step.server
                &&& a@ == step.action
            }),
    {
        match frame {
            Frame::Hello(hello) => match server.authenticate(hello.group_token.as_str()) {
                Some(i) => {
                    let name = server.group_at(i).name_text();
                    server.touch_session(i, self.remote, now);
                    self.phase = SessionPhase::Active(name);
                    let session_id: u64 = if random == 0 {
                        1
                    } else {
                        random
                    };
                    SessionAction::Reply(Frame::HelloOk(HelloOk { session_id }))
                },
                None => {
                    self.phase = SessionPhase::Closed;
                    SessionAction::ReplyAndClose(
                        Frame::ControlError {
                            code: ERROR_UNKNOWN_GROUP,
                            reason: "unknown group".to_owned(),
                        },
                    )
                },
            },
            _ => {
                self.phase = SessionPhase::Closed;
                SessionAction::Close
            },
        }
    }

    /// Ends the session, for whatever reason: the client has disconnected, or a
    /// read or a write has failed.
    pub fn on_end(&mut self, server: &mut ServerState)
        ensures
            final(self).remote == old(self).remote,
            final(self).phase@ is Closed,
            final(server)@ == after_session(old(self).remote@, old(self).phase@, old(server)@),
    {
        if let SessionPhase::Active(name) = &self.phase {
            if let Some(i) = server.group(name.as_str()) {
                server.drop_session(i, self.remote);
            }
        }
        self.phase = SessionPhase::Closed;
    }
}

/// Handles a frame in an active session of the `i`-th group.
fn on_command(
    remote: &EndpointId,
    i: usize,
    server: &mut ServerState,
    frame: &Frame,
    now: u64,
) -> (a: SessionAction)
    requires
        i < old(server)@.groups.len(),
    ensures
        forall|name: Seq<char>|
            ({
                let step = #[trigger] command_step(
                    remote@,
                    name,
                    i as int,
                    old(server)@,
                    frame@,
                    now,
                );
                &&& final(server)@ == step.server
                &&& a@ == step.action
            }),
        frame@ matches FrameView::Subscribe { service } ==> (old(server)@.groups[i as int].provider(
            service,
        ) matches Some(id) ==> text_reads_back(id)),
{
    match frame {
        Frame::Register(reg) => match server.register_service(i, reg.service.as_str(), *remote) {
            Ok(_) => SessionAction::Reply(
                Frame::RegisterOk(RegisterOk { service: reg.service.clone() }),
            ),
            Err(e) => SessionAction::Refuse(
                Frame::ControlError {
                    code: ERROR_REGISTER_FAILED,
                    reason: "register failed: ".to_owned().concat(e.message()),
                },
            ),
        },
        Frame::Subscribe(sub) => {
            let provider_node_id = match server.group_at(i).lookup(sub.service.as_str()) {
                Some(id) => Some(endpoint_text(&id)),
                None => None,
            };
            SessionAction::Reply(
                Frame::SubscribeOk(
                    SubscribeOk {
                        service: sub.service.clone(),
                        provider_node_id,
                        relay_required: false,
                    },
                ),
            )
        },
        Frame::Heartbeat => {
            server.touch_session(i, *remote, now);
            SessionAction::Continue
        },
        Frame::Hello(_) => SessionAction::Refuse(
            Frame::ControlError {
                code: ERROR_HELLO_REPEATED,
                reason: "Hello already received".to_owned(),
            },
        ),
        _ => SessionAction::Continue,
    }
}

/// A token is needed to do anything: until a hello with the token of a group was
/// accepted, no frame changes the server and none is answered, except that a
/// hello with an unknown token is told so.
pub proof fn law_token_is_required(
    remote: Seq<u8>,
    server: ServerView,
    frame: FrameView,
    random: u64,
    now: u64,
)
    requires
        frame matches FrameView::Hello { group_token, .. } ==> forall|i: int|
            0 <= i < server.groups.len() ==> (#[trigger] server.groups[i]).token != group_token,
    ensures
        ({
            let step = session_step(
                remote,
                PhaseView::AwaitingHello,
                server,
                frame,
                random,
                now,
            );
            &&& step.server == server
            &&& step.phase is Closed
            &&& frame is Hello ==> step.action == ActionView::ReplyAndClose(
                FrameView::ControlError { code: ERROR_UNKNOWN_GROUP, reason: "unknown group"@ },
            )
            &&& !(frame is Hello) ==> step.action is Close
        }),
{
    if let FrameView::Hello { group_token, .. } = frame {
        lemma_first_group(server, 0, |g: GroupView| g.token == group_token);
    }
}

proof fn lemma_first_group(server: ServerView, from: int, p: spec_fn(GroupView) -> bool)
    requires
        0 <= from,
    ensures
        match server.first_group(from, p) {
            Some(i) => from <= i < server.groups.len() && p(server.groups[i]),
            None => forall|i: int|
                from <= i < server.groups.len() ==> !p(#[trigger] server.groups[i]),
        },
    decreases server.groups.len() - from,
{
    if from < server.groups.len() && !p(server.groups[from]) {
        lemma_first_group(server, from + 1, p);
    }
}

/// A hello with the token of a group is accepted: it is answered with a session
/// id other than zero, and the client has a session in a group with that token.
pub proof fn law_hello_is_accepted(
    remote: Seq<u8>,
    server: ServerView,
    token: Seq<char>,
    info: Seq<char>,
    random: u64,
    now: u64,
    k: int,
)
    requires
        0 <= k < server.groups.len(),
        server.groups[k].token == token,
    ensures
        ({
            let frame = FrameView::Hello { group_token: token, client_info: info };
            let step = session_step(
                remote,
                PhaseView::AwaitingHello,
                server,
                frame,
                random,
                now,
            );
            &&& step.action matches ActionView::Reply(FrameView::HelloOk { session_id })
                && session_id != 0
            &&& exists|i: int|
                0 <= i < server.groups.len() && (#[trigger] step.server.groups[i]).token == token
                    && step.phase == PhaseView::Active(step.server.groups[i].name)
                    && step.server.groups[i].sessions.dom().contains(remote)
        }),
{
    let p = |g: GroupView| g.token == token;
    lemma_first_group(server, 0, p);
    assert(p(server.groups[k]));
    let i = server.authenticated(token)->0;
    let step = session_step(
        remote,
        PhaseView::AwaitingHello,
        server,
        FrameView::Hello { group_token: token, client_info: info },
        random,
        now,
    );
    assert(step.server.groups[i] == server.groups[i].touched(remote, now));
}

/// What one client registers, another client of the group that subscribes is
/// told: the answer names the provider's endpoint id.
pub proof fn law_subscribe_finds_registered(
    provider: Seq<u8>,
    consumer: Seq<u8>,
    name: Seq<char>,
    server: ServerView,
    service: Seq<char>,
    random: u64,
    now: u64,
    later: u64,
)
    requires
        server.group(name) is Some,
        encode_utf8(service).len() <= MAX_SERVICE_NAME,
    ensures
        ({
            let phase = PhaseView::Active(name);
            let first = session_step(
                provider,
                phase,
                server,
                FrameView::Register { service },
                random,
                now,
            );
            let second = session_step(
                consumer,
                phase,
                first.server,
                FrameView::Subscribe { service },
                random,
                later,
            );
            &&& first.action == ActionView::Reply(FrameView::RegisterOk { service })
            &&& second.action == ActionView::Reply(
                FrameView::SubscribeOk {
                    service,
                    provider_node_id: Some(lower_hex(provider)),
                    relay_required: false,
                },
            )
            &&& second.server == first.server
        }),
{
    let i = server.group(name)->0;
    crate::registry::lemma_group_index(server.groups, name);
    let g = server.groups[i].registered(service, provider);
    crate::registry::lemma_group_index_update(server.groups, i, g, name);
}

/// A session touches no group but its own: neither a frame of an active session
/// nor its end changes any other group.
pub proof fn law_sessions_stay_in_their_group(
    remote: Seq<u8>,
    name: Seq<char>,
    server: ServerView,
    frame: FrameView,
    random: u64,
    now: u64,
    k: int,
)
    requires
        0 <= k < server.groups.len(),
        server.group(name) != Some(k),
    ensures
        session_step(
            remote,
            PhaseView::Active(name),
            server,
            frame,
            random,
            now,
        ).server.groups[k] == server.groups[k],
        after_session(remote, PhaseView::Active(name), server).groups[k] == server.groups[k],
{
    crate::registry::lemma_group_index(server.groups, name);
}

/// When a session ends, none of the client's services is left in its group.
pub proof fn law_services_end_with_the_session(
    remote: Seq<u8>,
    name: Seq<char>,
    server: ServerView,
    service: Seq<char>,
)
    requires
        server.group(name) is Some,
    ensures
        ({
            let i = server.group(name)->0;
            let group = after_session(remote, PhaseView::Active(name), server).groups[i];
            &&& group.provider(service) != Some(remote)
            &&& !group.sessions.dom().contains(remote)
        }),
{
    crate::registry::lemma_group_index(server.groups, name);
}

/// A hello is answered with the random number as the session id, or 1 in place of 0,
/// and the client is admitted to the first group that has the token; the time at which
/// it was heard of is all that changes.
pub proof fn law_hello_admits_to_the_first_group(
    remote: Seq<u8>,
    server: ServerView,
    token: Seq<char>,
    info: Seq<char>,
    random: u64,
    now: u64,
    k: int,
)
    requires
        0 <= k < server.groups.len(),
        server.groups[k].token == token,
        forall|j: int| 0 <= j < k ==> (#[trigger] server.groups[j]).token != token,
    ensures
        ({
            let frame = FrameView::Hello { group_token: token, client_info: info };
            let step = session_step(remote, PhaseView::AwaitingHello, server, frame, random, now);
            &&& step.phase == PhaseView::Active(server.groups[k].name)
            &&& step.action matches ActionView::Reply(FrameView::HelloOk { session_id })
            &&& random != 0 ==> session_id == random
            &&& random == 0 ==> session_id == 1
            &&& step.server.groups.len() == server.groups.len()
            &&& forall|j: int|
                0 <= j < server.groups.len() && j != k ==> #[trigger] step.server.groups[j]
                    == server.groups[j]
            &&& step.server.groups[k].sessions == server.groups[k].sessions.insert(remote, now)
            &&& step.server.groups[k].services == server.groups[k].services
            &&& step.server.relay_rates == server.relay_rates
            &&& step.server.overrides == server.overrides
        }),
{
    crate::registry::law_token_opens_its_group(server, token);
}

/// In an active session of a group a heartbeat is taken without a word and renews the
/// session, a registration is kept and confirmed where its name has at most 32 bytes
/// and is refused else, a subscription is answered with the provider that the group
/// holds, a second hello is refused, and any other frame is passed over. The session
/// goes on in every case.
pub proof fn law_commands_are_answered(
    remote: Seq<u8>,
    name: Seq<char>,
    i: int,
    server: ServerView,
    frame: FrameView,
    random: u64,
    now: u64,
)
    requires
        server.group(name) == Some(i),
        0 <= i < server.groups.len(),
    ensures
        ({
            let step = session_step(remote, PhaseView::Active(name), server, frame, random, now);
            let before = server.groups[i];
            let after = step.server.groups[i];
            &&& step.phase == PhaseView::Active(name)
            &&& match frame {
                FrameView::Heartbeat => {
                    &&& step.action is Continue
                    &&& after.sessions == before.sessions.insert(remote, now)
                    &&& after.services == before.services
                },
                FrameView::Register { service } => if encode_utf8(service).len() <= 32 {
                    &&& step.action == ActionView::Reply(FrameView::RegisterOk { service })
                    &&& after.services == before.services.insert(service, remote)
                    &&& after.sessions == before.sessions
                } else {
                    &&& step.server == server
                    &&& step.action == ActionView::Refuse(
                        FrameView::ControlError {
                            code: 3,
                            reason: "register failed: "@ + "invalid service name"@,
                        },
                    )
                },
                FrameView::Subscribe { service } => {
                    &&& step.server == server
                    &&& step.action matches ActionView::Reply(
                        FrameView::SubscribeOk {
                            service: answered,
                            provider_node_id,
                            relay_required,
                        },
                    )
                    &&& answered == service
                    &&& !relay_required
                    &&& before.services.dom().contains(service) ==> provider_node_id == Some(
                        lower_hex(before.services[service]),
                    )
                    &&& !before.services.dom().contains(service) ==> provider_node_id is None
                },
                FrameView::Hello { .. } => {
                    &&& step.server == server
                    &&& step.action == ActionView::Refuse(
                        FrameView::ControlError { code: 2, reason: "Hello already received"@ },
                    )
                },
                _ => step.server == server && step.action is Continue,
            }
            &&& step.server.relay_rates == server.relay_rates
            &&& step.server.overrides == server.overrides
            &&& step.server.next_stream_id == server.next_stream_id
        }),
{
}

/// A session that has ended, or whose group is gone, answers nothing and changes
/// nothing.
pub proof fn law_closed_sessions_do_nothing(
    remote: Seq<u8>,
    name: Seq<char>,
    server: ServerView,
    frame: FrameView,
    random: u64,
    now: u64,
)
    ensures
        ({
            let step = session_step(remote, PhaseView::Closed, server, frame, random, now);
            step.phase is Closed && step.server == server && step.action is Close
        }),
        server.group(name) is None ==> ({
            let step = session_step(remote, PhaseView::Active(name), server, frame, random, now);
            step.phase is Closed && step.server == server && step.action is Close
        }),
        after_session(remote, PhaseView::Closed, server) == server,
        after_session(remote, PhaseView::AwaitingHello, server) == server,
{
}

/// The end of a session takes the client's own session and services and leaves those
/// of others.
pub proof fn law_end_of_a_session_is_local(
    remote: Seq<u8>,
    name: Seq<char>,
    i: int,
    server: ServerView,
    other: Seq<u8>,
    service: Seq<char>,
)
    requires
        server.group(name) == Some(i),
        0 <= i < server.groups.len(),
        other != remote,
    ensures
        ({
            let after = after_session(remote, PhaseView::Active(name), server);
            let before = server.groups[i];
            &&& after.groups[i].sessions == before.sessions.remove(remote)
            &&& before.provider(service) == Some(other) ==> after.groups[i].provider(service)
                == Some(other)
            &&& before.provider(service) == Some(remote) ==> after.groups[i].provider(
                service,
            ) is None
            &&& after.relay_rates == server.relay_rates
            &&& after.overrides == server.overrides
            &&& after.next_stream_id == server.next_stream_id
        }),
{
}

} // verus!
