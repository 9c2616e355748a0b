//! What a client starts with, and how it keeps its registration alive.
use crate::alpn::{
    alpn_for_service, fault_message, is_service_name, name_fault, service_alpn, AlpnError,
    AlpnFault,
};
use crate::config::{
    law_valid_client_entries, law_valid_client_names, law_valid_config_has_one_role, violation,
    ConsumeConfig, ExposeConfig, RootConfig, RootDirState, StaticConfig,
};
use crate::consume::{ConsumeSpec, ReconnectConfig};
use crate::endpoint::{iroh_id, iroh_parsed, is_public_key, parse_iroh_id, EndpointId};
use crate::expose::ExposeSpec;
use crate::static_http::StaticSpec;
use crate::status::{control_after, ControlState, RuntimeStatus, RuntimeStatusView};
use crate::text::{decimal, decimal_text};
use vstd::prelude::*;
use vstd::string::StringExecFns;
use vstd::utf8::encode_utf8;

verus! {

/// Milliseconds between the heartbeats that a client sends. They stay below the
/// server's default timeout with a comfortable margin.
pub const CLIENT_HEARTBEAT_INTERVAL_MS: u64 = 60_000;

/// Milliseconds before a failed registration is tried again.
pub const REGISTER_RETRY_MS: u64 = 5_000;

/// The smallest initial backoff that a client uses.
pub const MIN_INITIAL_BACKOFF_MS: u64 = 10;

/// The smallest cap on the backoff that a client uses.
pub const MIN_MAX_BACKOFF_MS: u64 = 100;

/// Milliseconds between two looks at the status.
pub const STATUS_POLL_MS: u64 = 100;

// ---------------------------------------------------------------------------
// What a client starts with
// ---------------------------------------------------------------------------

/// What a client starts with.
#[derive(Debug)]
pub struct ClientPlan {
    /// The server's endpoint id.
    pub server: EndpointId,
    pub group_token: String,
    /// The exposed services, each with its ALPN.
    pub exposed: Vec<(Vec<u8>, ExposeSpec)>,
    /// The static services, each with its ALPN.
    pub statics: Vec<(Vec<u8>, StaticSpec)>,
    pub consumed: Vec<ConsumeSpec>,
    pub reconnect: ReconnectConfig,
}

/// Why a configuration is no client's.
#[derive(Debug)]
pub enum ClientError {
    /// It defines groups.
    DefinesGroups,
    /// It names no server.
    NoServerId,
    /// The server's id does not parse, for this reason.
    BadServerId(String),
    /// A service cannot have the name that it is given.
    BadName(AlpnError),
}

/// What a [`ClientError`] stands for.
pub enum ClientFault {
    DefinesGroups,
    NoServerId,
    BadServerId(Seq<char>),
    BadName(AlpnFault),
}

impl View for ClientError {
    type V = ClientFault;

    open spec fn view(&self) -> ClientFault {
        match self {
            ClientError::DefinesGroups => ClientFault::DefinesGroups,
            ClientError::NoServerId => ClientFault::NoServerId,
            ClientError::BadServerId(cause) => ClientFault::BadServerId(cause@),
            ClientError::BadName(e) => ClientFault::BadName(e@),
        }
    }
}

impl ClientFault {
    /// The text of this error, for the configuration file at `path`.
    pub open spec fn text(self, path: Seq<char>) -> Seq<char> {
        match self {
            ClientFault::DefinesGroups => "config "@ + path
                + " defines [[group]]; refusing to start as client"@,
            ClientFault::NoServerId => "client config missing server_node_id"@,
            ClientFault::BadServerId(cause) => "parse server_node_id: "@ + cause,
            ClientFault::BadName(fault) => fault_message(fault),
        }
    }
}

impl ClientError {
    /// The text of this error, for the configuration file at `path`.
    pub fn message(&self, path: &str) -> (text: String)
        ensures
            text@ == self@.text(path@),
    {
        match self {
            ClientError::DefinesGroups => "config ".to_owned().concat(path).concat(
                " defines [[group]]; refusing to start as client",
            ),
            ClientError::NoServerId => "client config missing server_node_id".to_owned(),
            ClientError::BadServerId(cause) => "parse server_node_id: ".to_owned().concat(
                cause.as_str(),
            ),
            ClientError::BadName(e) => e.message(),
        }
    }
}

/// The first bad name in a list.
pub open spec fn first_bad_name(names: Seq<Seq<char>>) -> Option<AlpnFault>
    decreases names.len(),
{
    if names.len() == 0 {
        None
    } else {
        match first_bad_name(names.drop_last()) {
            Some(fault) => Some(fault),
            None => name_fault(names.last()),
        }
    }
}

/// What keeps a configuration from being a client's.
pub open spec fn client_fault(cfg: RootConfig) -> Option<ClientFault> {
    if cfg.is_server_config() {
        Some(ClientFault::DefinesGroups)
    } else {
        match cfg.server_node_id {
            None => Some(ClientFault::NoServerId),
            Some(text) => match iroh_parsed(text@) {
                Err(cause) => Some(ClientFault::BadServerId(cause)),
                Ok(_) => match first_bad_name(cfg.expose_names()) {
                    Some(fault) => Some(ClientFault::BadName(fault)),
                    None => match first_bad_name(cfg.static_names()) {
                        Some(fault) => Some(ClientFault::BadName(fault)),
                        None => None,
                    },
                },
            },
        }
    }
}

/// The exposed services are those of the configuration, in order.
pub open spec fn exposes(list: Seq<(Vec<u8>, ExposeSpec)>, rows: Seq<ExposeConfig>) -> bool {
    list.len() == rows.len() && forall|i: int|
        0 <= i < rows.len() ==> {
            &&& (#[trigger] list[i]).0@ == service_alpn(rows[i].name@)
            &&& list[i].1.name@ == rows[i].name@
            &&& list[i].1.local_addr@ == rows[i].local_addr@
            &&& list[i].1.shared_secret@ == encode_utf8(rows[i].shared_secret@)
        }
}

/// The static services are those of the configuration, in order.
pub open spec fn serves(list: Seq<(Vec<u8>, StaticSpec)>, rows: Seq<StaticConfig>) -> bool {
    list.len() == rows.len() && forall|i: int|
        0 <= i < rows.len() ==> {
            &&& (#[trigger] list[i]).0@ == service_alpn(rows[i].name@)
            &&& list[i].1.name@ == rows[i].name@
            &&& list[i].1.root_dir@ == rows[i].root_dir@
            &&& list[i].1.allow_directory_listing == rows[i].allow_directory_listing
            &&& list[i].1.shared_secret@ == encode_utf8(rows[i].shared_secret@)
        }
}

/// The consumed services are those of the configuration, in order.
pub open spec fn consumes(list: Seq<ConsumeSpec>, rows: Seq<ConsumeConfig>) -> bool {
    list.len() == rows.len() && forall|i: int|
        0 <= i < rows.len() ==> {
            &&& (#[trigger] list[i]).name@ == rows[i].name@
            &&& list[i].local_bind@ == rows[i].local_bind@
            &&& list[i].shared_secret@ == encode_utf8(rows[i].shared_secret@)
        }
}

/// The larger of two numbers.
pub open spec fn at_least(value: u64, floor: u64) -> u64 {
    if value < floor {
        floor
    } else {
        value
    }
}

/// Raises a configured backoff to a sane minimum: with a backoff of nothing a
/// consumer would spin on a missing provider.
pub fn clamp_backoff(configured: u64, floor: u64) -> (r: u64)
    ensures
        r == at_least(configured, floor),
{
    if configured < floor {
        floor
    } else {
        configured
    }
}

/// The bytes of a secret.
fn secret_bytes(secret: &str) -> (bytes: Vec<u8>)
    ensures
        bytes@ == encode_utf8(secret@),
{
    vstd::slice::slice_to_vec(secret.as_bytes())
}

/// Reads the exposed services out of a configuration.
fn exposed_services(cfg: &RootConfig) -> (r: Result<Vec<(Vec<u8>, ExposeSpec)>, AlpnError>)
    ensures
        match r {
            Ok(list) => first_bad_name(cfg.expose_names()) is None && exposes(list@, cfg.expose@),
            Err(e) => first_bad_name(cfg.expose_names()) == Some(e@),
        },
{
    let mut list: Vec<(Vec<u8>, ExposeSpec)> = Vec::new();
    let mut i: usize = 0;
    let ghost names = cfg.expose_names();
    while i < cfg.expose.len()
        invariant
            i <= cfg.expose@.len(),
            names == cfg.expose_names(),
            first_bad_name(names.take(i as int)) is None,
            exposes(list@, cfg.expose@.take(i as int)),
        decreases cfg.expose.len() - i,
    {
        let row = &cfg.expose[i];
        proof {
            assert(names.take(i + 1).drop_last() =~= names.take(i as int));
            assert(names.take(i + 1).last() == row.name@);
        }
        match alpn_for_service(row.name.as_str()) {
            Ok(alpn) => {
                let spec = ExposeSpec {
                    name: row.name.clone(),
                    local_addr: row.local_addr.clone(),
                    shared_secret: secret_bytes(row.shared_secret.as_str()),
                };
                list.push((alpn, spec));
            },
            Err(e) => {
                proof {
                    lemma_bad_name_stays(names, i + 1);
                }
                return Err(e);
            },
        }
        i = i + 1;
    }
    proof {
        assert(names.take(names.len() as int) =~= names);
        assert(cfg.expose@.take(cfg.expose@.len() as int) =~= cfg.expose@);
    }
    Ok(list)
}

/// Reads the static services out of a configuration.
fn static_services(cfg: &RootConfig) -> (r: Result<Vec<(Vec<u8>, StaticSpec)>, AlpnError>)
    ensures
        match r {
            Ok(list) => first_bad_name(cfg.static_names()) is None && serves(
                list@,
                cfg.static_services@,
            ),
            Err(e) => first_bad_name(cfg.static_names()) == Some(e@),
        },
{
    let mut list: Vec<(Vec<u8>, StaticSpec)> = Vec::new();
    let mut i: usize = 0;
    let ghost names = cfg.static_names();
    while i < cfg.static_services.len()
        invariant
            i <= cfg.static_services@.len(),
            names == cfg.static_names(),
            first_bad_name(names.take(i as int)) is None,
            serves(list@, cfg.static_services@.take(i as int)),
        decreases cfg.static_services.len() - i,
    {
        let row = &cfg.static_services[i];
        proof {
            assert(names.take(i + 1).drop_last() =~= names.take(i as int));
            assert(names.take(i + 1).last() == row.name@);
        }
        match alpn_for_service(row.name.as_str()) {
            Ok(alpn) => {
                let spec = StaticSpec {
                    name: row.name.clone(),
                    root_dir: row.root_dir.clone(),
                    allow_directory_listing: row.allow_directory_listing,
                    shared_secret: secret_bytes(row.shared_secret.as_str()),
                };
                list.push((alpn, spec));
            },
            Err(e) => {
                proof {
                    lemma_bad_name_stays(names, i + 1);
                }
                return Err(e);
            },
        }
        i = i + 1;
    }
    proof {
        assert(names.take(names.len() as int) =~= names);
        assert(cfg.static_services@.take(cfg.static_services@.len() as int)
            =~= cfg.static_services@);
    }
    Ok(list)
}

/// A bad name among the first ones is the first bad one of all.
proof fn lemma_bad_name_stays(names: Seq<Seq<char>>, n: int)
    requires
        0 <= n <= names.len(),
        first_bad_name(names.take(n)) is Some,
    ensures
        first_bad_name(names) == first_bad_name(names.take(n)),
    decreases names.len() - n,
{
    if n < names.len() {
        assert(names.take(n + 1).drop_last() =~= names.take(n));
        lemma_bad_name_stays(names, n + 1);
    } else {
        assert(names.take(n) =~= names);
    }
}

/// Reads the consumed services out of a configuration.
fn consumed_services(cfg: &RootConfig) -> (list: Vec<ConsumeSpec>)
    ensures
        consumes(list@, cfg.consume@),
{
    let mut list: Vec<ConsumeSpec> = Vec::new();
    let mut i: usize = 0;
    while i < cfg.consume.len()
        invariant
            i <= cfg.consume@.len(),
            consumes(list@, cfg.consume@.take(i as int)),
        decreases cfg.consume.len() - i,
    {
        let row = &cfg.consume[i];
        list.push(
            ConsumeSpec {
                name: row.name.clone(),
                local_bind: row.local_bind.clone(),
                shared_secret: secret_bytes(row.shared_secret.as_str()),
            },
        );
        i = i + 1;
    }
    assert(cfg.consume@.take(cfg.consume@.len() as int) =~= cfg.consume@);
    list
}

/// Reads what a client starts with.
pub fn plan_client(cfg: &RootConfig) -> (r: Result<ClientPlan, ClientError>)
    ensures
        match r {
            Ok(plan) => {
                &&& client_fault(*cfg) is None
                &&& iroh_id(cfg.server_node_id->0@) == Some(plan.server@)
                &&& is_public_key(plan.server@)
                &&& plan.group_token@ == match cfg.group_token {
                    Some(token) => token@,
                    None => Seq::empty(),
                }
                &&& exposes(plan.exposed@, cfg.expose@)
                &&& serves(plan.statics@, cfg.static_services@)
                &&& consumes(plan.consumed@, cfg.consume@)
                &&& plan.reconnect.initial_backoff_ms == at_least(
                    cfg.reconnect.initial_backoff_ms,
                    10,
                )
                &&& plan.reconnect.max_backoff_ms == at_least(cfg.reconnect.max_backoff_ms, 100)
                &&& plan.reconnect.prefer_direct == cfg.reconnect.prefer_direct
            },
            Err(e) => client_fault(*cfg) == Some(e@),
        },
{
    if cfg.is_server() {
        return Err(ClientError::DefinesGroups);
    }
    let server = match &cfg.server_node_id {
        None => {
            return Err(ClientError::NoServerId);
        },
        Some(text) => match parse_iroh_id(text.as_str()) {
            Err(cause) => {
                return Err(ClientError::BadServerId(cause));
            },
            Ok(id) => id,
        },
    };
    let exposed = match exposed_services(cfg) {
        Ok(list) => list,
        Err(e) => {
            return Err(ClientError::BadName(e));
        },
    };
    let statics = match static_services(cfg) {
        Ok(list) => list,
        Err(e) => {
            return Err(ClientError::BadName(e));
        },
    };
    let group_token = match &cfg.group_token {
        Some(token) => token.clone(),
        None => String::new(),
    };
    Ok(
        ClientPlan {
            server,
            group_token,
            exposed,
            statics,
            consumed: consumed_services(cfg),
            reconnect: ReconnectConfig {
                initial_backoff_ms: clamp_backoff(
                    cfg.reconnect.initial_backoff_ms,
                    MIN_INITIAL_BACKOFF_MS,
                ),
                max_backoff_ms: clamp_backoff(cfg.reconnect.max_backoff_ms, MIN_MAX_BACKOFF_MS),
                prefer_direct: cfg.reconnect.prefer_direct,
            },
        },
    )
}

// ---------------------------------------------------------------------------
// Keeping the registration alive
// ---------------------------------------------------------------------------

/// What happened to the registration.
#[derive(Debug)]
pub enum ControlEvent {
    /// The client has started.
    Started,
    /// The server has accepted every service.
    Registered,
    /// Registering failed, for this reason.
    RegisterFailed(String),
    /// The wait for the next try is over.
    RetryDue,
    /// The wait for the next heartbeat is over.
    HeartbeatDue,
    /// A heartbeat was sent.
    HeartbeatSent,
    /// A heartbeat could not be sent.
    ConnectionLost,
}

/// What a [`ControlEvent`] stands for.
pub enum ControlEventView {
    Started,
    Registered,
    RegisterFailed(Seq<char>),
    RetryDue,
    HeartbeatDue,
    HeartbeatSent,
    ConnectionLost,
}

impl View for ControlEvent {
    type V = ControlEventView;

    open spec fn view(&self) -> ControlEventView {
        match self {
            ControlEvent::Started => ControlEventView::Started,
            ControlEvent::Registered => ControlEventView::Registered,
            ControlEvent::RegisterFailed(reason) => ControlEventView::RegisterFailed(reason@),
            ControlEvent::RetryDue => ControlEventView::RetryDue,
            ControlEvent::HeartbeatDue => ControlEventView::HeartbeatDue,
            ControlEvent::HeartbeatSent => ControlEventView::HeartbeatSent,
            ControlEvent::ConnectionLost => ControlEventView::ConnectionLost,
        }
    }
}

/// What a client does about its registration.
#[derive(Debug, Clone, Copy, PartialEq, Eq, Structural)]
pub enum ControlAction {
    /// Register with the server.
    Register,
    /// Wait this many milliseconds, and a try is due.
    WaitForRetry(u64),
    /// Wait this many milliseconds, and a heartbeat is due.
    WaitForHeartbeat(u64),
    /// Send a heartbeat.
    SendHeartbeat,
}

/// What a client does next.
pub open spec fn control_action(event: ControlEventView) -> ControlAction {
    match event {
        ControlEventView::Started => ControlAction::Register,
        ControlEventView::Registered => ControlAction::WaitForHeartbeat(60_000),
        ControlEventView::RegisterFailed(_) => ControlAction::WaitForRetry(5_000),
        ControlEventView::RetryDue => ControlAction::Register,
        ControlEventView::HeartbeatDue => ControlAction::SendHeartbeat,
        ControlEventView::HeartbeatSent => ControlAction::WaitForHeartbeat(60_000),
        ControlEventView::ConnectionLost => ControlAction::Register,
    }
}

/// The status after an event.
pub open spec fn status_after(
    s: RuntimeStatusView,
    event: ControlEventView,
    now_ms: i64,
) -> RuntimeStatusView {
    match event {
        ControlEventView::Started | ControlEventView::RetryDue
        | ControlEventView::ConnectionLost => RuntimeStatusView {
            control: control_after(s.control, ControlState::Registering, None, now_ms),
            ..s
        },
        ControlEventView::Registered => RuntimeStatusView {
            control: control_after(s.control, ControlState::Registered, None, now_ms),
            ..s
        },
        ControlEventView::RegisterFailed(reason) => RuntimeStatusView {
            control: control_after(s.control, ControlState::Reconnecting, Some(reason), now_ms),
            ..s
        },
        ControlEventView::HeartbeatDue => s,
        ControlEventView::HeartbeatSent => RuntimeStatusView {
            control: crate::status::ControlStatusView {
                last_heartbeat_at_ms: Some(now_ms),
                ..s.control
            },
            ..s
        },
    }
}

/// Decides what to do about the registration, and reports the state.
pub fn control_step(status: &mut RuntimeStatus, event: &ControlEvent, now_ms: i64) -> (a:
    ControlAction)
    ensures
        a == control_action(event@),
        final(status)@ == status_after(old(status)@, event@, now_ms),
{
    match event {
        ControlEvent::Started | ControlEvent::RetryDue | ControlEvent::ConnectionLost => {
            status.set_control_state(ControlState::Registering, None, now_ms);
            ControlAction::Register
        },
        ControlEvent::Registered => {
            status.set_control_state(ControlState::Registered, None, now_ms);
            ControlAction::WaitForHeartbeat(CLIENT_HEARTBEAT_INTERVAL_MS)
        },
        ControlEvent::RegisterFailed(reason) => {
            status.set_control_state(ControlState::Reconnecting, Some(reason.as_str()), now_ms);
            ControlAction::WaitForRetry(REGISTER_RETRY_MS)
        },
        ControlEvent::HeartbeatDue => ControlAction::SendHeartbeat,
        ControlEvent::HeartbeatSent => {
            status.record_heartbeat(now_ms);
            ControlAction::WaitForHeartbeat(CLIENT_HEARTBEAT_INTERVAL_MS)
        },
    }
}

// ---------------------------------------------------------------------------
// Status queries
// ---------------------------------------------------------------------------

/// The control plane has reached a state that a status query reports.
pub open spec fn is_settled(state: ControlState) -> bool {
    state is Registered || state is Reconnecting
}

/// Whether a status query has waited long enough: the control plane has settled,
/// or the time is up.
pub fn status_ready(state: ControlState, waited_ms: u64, timeout_secs: u64) -> (ready: bool)
    ensures
        ready == (is_settled(state) || waited_ms >= timeout_secs * 1000),
{
    let settled = match state {
        ControlState::Registered | ControlState::Reconnecting => true,
        _ => false,
    };
    settled || waited_ms as u128 >= timeout_secs as u128 * 1000
}

/// The name of a state.
pub open spec fn state_name(state: ControlState) -> Seq<char> {
    match state {
        ControlState::Unregistered => "Unregistered"@,
        ControlState::Registering => "Registering"@,
        ControlState::Registered => "Registered"@,
        ControlState::Reconnecting => "Reconnecting"@,
    }
}

/// How a status query ends: well only where the client is registered.
pub fn status_outcome(state: ControlState, timeout_secs: u64) -> (r: Result<(), String>)
    ensures
        r is Ok <==> state is Registered,
        r matches Err(text) ==> text@ == "control plane did not reach Registered within "@
            + decimal(timeout_secs as nat) + "s (state="@ + state_name(state) + ")"@,
{
    let name = match state {
        ControlState::Unregistered => "Unregistered",
        ControlState::Registering => "Registering",
        ControlState::Registered => {
            return Ok(());
        },
        ControlState::Reconnecting => "Reconnecting",
    };
    Err(
        "control plane did not reach Registered within ".to_owned().concat(
            decimal_text(timeout_secs).as_str(),
        ).concat("s (state=").concat(name).concat(")"),
    )
}

// ---------------------------------------------------------------------------
// What holds of all clients
// ---------------------------------------------------------------------------

/// Losing the connection, or failing to register, leads to another try.
pub proof fn law_client_registers_again(reason: Seq<char>)
    ensures
        control_action(ControlEventView::ConnectionLost) is Register,
        control_action(ControlEventView::RegisterFailed(reason)) == ControlAction::WaitForRetry(
            REGISTER_RETRY_MS,
        ),
        control_action(ControlEventView::RetryDue) is Register,
{
}

/// The status shows what became of the last try: registered, without an error, or
/// reconnecting, with the reason.
pub proof fn law_status_shows_the_registration(s: RuntimeStatusView, reason: Seq<char>, now_ms: i64)
    ensures
        status_after(s, ControlEventView::Registered, now_ms).control.state is Registered,
        status_after(s, ControlEventView::Registered, now_ms).control.last_error is None,
        status_after(
            s,
            ControlEventView::RegisterFailed(reason),
            now_ms,
        ).control.state is Reconnecting,
        status_after(s, ControlEventView::RegisterFailed(reason), now_ms).control.last_error
            == Some(reason),
{
}

/// A valid client configuration is refused only for the server's id: in every
/// other respect the client starts.
pub proof fn law_valid_client_starts(cfg: RootConfig, roots: Seq<RootDirState>)
    requires
        violation(cfg, roots) is None,
        cfg.has_client_fields(),
    ensures
        client_fault(cfg) matches Some(fault) ==> fault is BadServerId,
{
    law_valid_config_has_one_role(cfg, roots);
    law_valid_client_names(cfg, roots);
    law_valid_client_entries(cfg, roots);
    assert forall|i: int| 0 <= i < cfg.expose_names().len() implies name_fault(
        #[trigger] cfg.expose_names()[i],
    ) is None by {
        assert(is_service_name(cfg.expose@[i].name@));
    }
    assert forall|i: int| 0 <= i < cfg.static_names().len() implies name_fault(
        #[trigger] cfg.static_names()[i],
    ) is None by {
        assert(is_service_name(cfg.static_services@[i].name@));
    }
    lemma_no_bad_name(cfg.expose_names());
    lemma_no_bad_name(cfg.static_names());
}

proof fn lemma_no_bad_name(names: Seq<Seq<char>>)
    requires
        forall|i: int| 0 <= i < names.len() ==> name_fault(#[trigger] names[i]) is None,
    ensures
        first_bad_name(names) is None,
    decreases names.len(),
{
    if names.len() > 0 {
        lemma_no_bad_name(names.drop_last());
    }
}

proof fn lemma_first_bad_name(names: Seq<Seq<char>>)
    ensures
        match first_bad_name(names) {
            Some(fault) => exists|i: int|
                0 <= i < names.len() && name_fault(#[trigger] names[i]) == Some(fault)
                    && forall|j: int| 0 <= j < i ==> name_fault(#[trigger] names[j]) is None,
            None => forall|i: int| 0 <= i < names.len() ==> name_fault(#[trigger] names[i]) is None,
        },
    decreases names.len(),
{
    if names.len() > 0 {
        let front = names.drop_last();
        lemma_first_bad_name(front);
        match first_bad_name(front) {
            Some(fault) => {
                let i = choose|i: int|
                    0 <= i < front.len() && name_fault(#[trigger] front[i]) == Some(fault)
                        && forall|j: int| 0 <= j < i ==> name_fault(#[trigger] front[j]) is None;
                assert(name_fault(names[i]) == Some(fault));
                assert forall|j: int| 0 <= j < i implies name_fault(
                    #[trigger] names[j],
                ) is None by {
                    assert(front[j] == names[j]);
                }
            },
            None => {
                assert forall|j: int| 0 <= j < front.len() implies name_fault(
                    #[trigger] names[j],
                ) is None by {
                    assert(front[j] == names[j]);
                }
                assert(names[names.len() - 1] == names.last());
            },
        }
    }
}

/// The fault that is named is that of the first bad name, and none is named exactly
/// where every name is good.
pub proof fn law_first_bad_name_is_reported(names: Seq<Seq<char>>)
    ensures
        match first_bad_name(names) {
            Some(fault) => exists|i: int|
                0 <= i < names.len() && name_fault(#[trigger] names[i]) == Some(fault)
                    && forall|j: int| 0 <= j < i ==> name_fault(#[trigger] names[j]) is None,
            None => forall|i: int| 0 <= i < names.len() ==> name_fault(#[trigger] names[i]) is None,
        },
{
    lemma_first_bad_name(names);
}

/// A client starts exactly where its configuration defines no group, names a server
/// whose id parses, and every service that it exposes or serves has a good name. What
/// it is refused for is so.
pub proof fn law_client_starts(cfg: RootConfig)
    ensures
        client_fault(cfg) is None <==> {
            &&& cfg.groups@.len() == 0
            &&& cfg.server_node_id is Some && iroh_parsed(cfg.server_node_id->0@) is Ok
            &&& forall|i: int|
                0 <= i < cfg.expose@.len() ==> name_fault(
                    (#[trigger] cfg.expose@[i]).name@,
                ) is None
            &&& forall|i: int|
                0 <= i < cfg.static_services@.len() ==> name_fault(
                    (#[trigger] cfg.static_services@[i]).name@,
                ) is None
        },
        cfg.groups@.len() > 0 ==> client_fault(cfg) == Some(ClientFault::DefinesGroups),
        cfg.groups@.len() == 0 && cfg.server_node_id is None ==> client_fault(cfg) == Some(
            ClientFault::NoServerId,
        ),
        cfg.groups@.len() == 0 && cfg.server_node_id is Some ==> match iroh_parsed(
            cfg.server_node_id->0@,
        ) {
            Err(cause) => client_fault(cfg) == Some(ClientFault::BadServerId(cause)),
            Ok(_) => client_fault(cfg) matches Some(fault) ==> fault is BadName,
        },
{
    let exposed = cfg.expose_names();
    let files = cfg.static_names();
    lemma_first_bad_name(exposed);
    lemma_first_bad_name(files);
    if client_fault(cfg) is None {
        assert forall|i: int| 0 <= i < cfg.expose@.len() implies name_fault(
            (#[trigger] cfg.expose@[i]).name@,
        ) is None by {
            assert(name_fault(exposed[i]) is None);
        }
        assert forall|i: int| 0 <= i < cfg.static_services@.len() implies name_fault(
            (#[trigger] cfg.static_services@[i]).name@,
        ) is None by {
            assert(name_fault(files[i]) is None);
        }
    } else {
        if let Some(fault) = first_bad_name(exposed) {
            let i = choose|i: int|
                0 <= i < exposed.len() && name_fault(#[trigger] exposed[i]) == Some(fault)
                    && forall|j: int| 0 <= j < i ==> name_fault(#[trigger] exposed[j]) is None;
            assert(exposed[i] == cfg.expose@[i].name@);
        }
        if let Some(fault) = first_bad_name(files) {
            let i = choose|i: int|
                0 <= i < files.len() && name_fault(#[trigger] files[i]) == Some(fault)
                    && forall|j: int| 0 <= j < i ==> name_fault(#[trigger] files[j]) is None;
            assert(files[i] == cfg.static_services@[i].name@);
        }
    }
}

/// A configured backoff is kept, and only one below the floor is raised to it.
pub proof fn law_backoff_is_raised_to_the_floor(value: u64, floor: u64)
    ensures
        at_least(value, floor) >= floor,
        at_least(value, floor) >= value,
        at_least(value, floor) == value || at_least(value, floor) == floor,
{
}

/// A client that is registered sends a heartbeat every minute, and one that is not
/// tries again: at once where the connection was lost, after five seconds where it was
/// refused.
pub proof fn law_client_keeps_its_registration(event: ControlEventView)
    ensures
        match event {
            ControlEventView::Registered | ControlEventView::HeartbeatSent => control_action(event)
                == ControlAction::WaitForHeartbeat(60_000),
            ControlEventView::HeartbeatDue => control_action(event) is SendHeartbeat,
            ControlEventView::RegisterFailed(_) => control_action(event)
                == ControlAction::WaitForRetry(5_000),
            ControlEventView::Started | ControlEventView::RetryDue
            | ControlEventView::ConnectionLost => control_action(event) is Register,
        },
{
}

/// What the status shows after each event: the state of the registration, its error,
/// when it last came about, and when the last heartbeat was sent. Nothing else changes.
pub proof fn law_status_follows_the_registration(
    s: RuntimeStatusView,
    event: ControlEventView,
    now_ms: i64,
)
    ensures
        ({
            let after = status_after(s, event, now_ms);
            let old = s.control;
            let new = after.control;
            &&& after == (RuntimeStatusView { control: new, ..s })
            &&& match event {
                ControlEventView::Started | ControlEventView::RetryDue
                | ControlEventView::ConnectionLost => {
                    &&& new.state is Registering
                    &&& new.last_error is None
                    &&& new.last_registered_at_ms == old.last_registered_at_ms
                    &&& new.last_heartbeat_at_ms == old.last_heartbeat_at_ms
                },
                ControlEventView::Registered => {
                    &&& new.state is Registered
                    &&& new.last_error is None
                    &&& new.last_registered_at_ms == Some(now_ms)
                    &&& new.last_heartbeat_at_ms == old.last_heartbeat_at_ms
                },
                ControlEventView::RegisterFailed(reason) => {
                    &&& new.state is Reconnecting
                    &&& new.last_error == Some(reason)
                    &&& new.last_registered_at_ms == old.last_registered_at_ms
                    &&& new.last_heartbeat_at_ms == old.last_heartbeat_at_ms
                },
                ControlEventView::HeartbeatDue => new == old,
                ControlEventView::HeartbeatSent => {
                    &&& new.state == old.state
                    &&& new.last_error == old.last_error
                    &&& new.last_registered_at_ms == old.last_registered_at_ms
                    &&& new.last_heartbeat_at_ms == Some(now_ms)
                },
            }
        }),
{
}

/// A status query waits while the client has not yet tried, or is trying, to register.
pub proof fn law_settled_states(state: ControlState)
    ensures
        match state {
            ControlState::Registered | ControlState::Reconnecting => is_settled(state),
            ControlState::Unregistered | ControlState::Registering => !is_settled(state),
        },
{
}

/// The services that a client starts with are those of its configuration, one for one
/// and in order, each with its own ALPN, address, root and secret.
pub proof fn law_plan_is_the_configuration(
    exposed: Seq<(Vec<u8>, ExposeSpec)>,
    statics: Seq<(Vec<u8>, StaticSpec)>,
    consumed: Seq<ConsumeSpec>,
    cfg: RootConfig,
    i: int,
)
    requires
        exposes(exposed, cfg.expose@),
        serves(statics, cfg.static_services@),
        consumes(consumed, cfg.consume@),
    ensures
        exposed.len() == cfg.expose@.len(),
        statics.len() == cfg.static_services@.len(),
        consumed.len() == cfg.consume@.len(),
        0 <= i < exposed.len() ==> {
            let row = cfg.expose@[i];
            &&& exposed[i].0@ == encode_utf8("meshly-core/"@ + row.name@)
            &&& exposed[i].1.name@ == row.name@
            &&& exposed[i].1.local_addr@ == row.local_addr@
            &&& exposed[i].1.shared_secret@ == encode_utf8(row.shared_secret@)
        },
        0 <= i < statics.len() ==> {
            let row = cfg.static_services@[i];
            &&& statics[i].0@ == encode_utf8("meshly-core/"@ + row.name@)
            &&& statics[i].1.name@ == row.name@
            &&& statics[i].1.root_dir@ == row.root_dir@
            &&& statics[i].1.allow_directory_listing == row.allow_directory_listing
            &&& statics[i].1.shared_secret@ == encode_utf8(row.shared_secret@)
        },
        0 <= i < consumed.len() ==> {
            let row = cfg.consume@[i];
            &&& consumed[i].name@ == row.name@
            &&& consumed[i].local_bind@ == row.local_bind@
            &&& consumed[i].shared_secret@ == encode_utf8(row.shared_secret@)
        },
{
}

/// The message of a refusal says what is wrong: the file, the reason that the id does
/// not parse, or the fault of the name.
pub proof fn law_refusal_says_why(fault: ClientFault, path: Seq<char>)
    ensures
        match fault {
            ClientFault::DefinesGroups => crate::text::contains_seq(fault.text(path), path),
            ClientFault::NoServerId => true,
            ClientFault::BadServerId(cause) => crate::text::contains_seq(fault.text(path), cause),
            ClientFault::BadName(f) => fault.text(path) == fault_message(f),
        },
{
    match fault {
        ClientFault::DefinesGroups => {
            crate::text::lemma_middle_is_contained(
                "config "@,
                path,
                " defines [[group]]; refusing to start as client"@,
            );
        },
        ClientFault::BadServerId(cause) => {
            crate::text::lemma_middle_is_contained("parse server_node_id: "@, cause, ""@);
        },
        _ => {},
    }
}

/// Every state has a name of its own, which is that of its variant.
pub proof fn law_states_have_their_names(a: ControlState, b: ControlState)
    ensures
        state_name(a) == state_name(b) ==> a == b,
        state_name(ControlState::Registered) == "Registered"@,
        state_name(ControlState::Registering) == "Registering"@,
        state_name(ControlState::Reconnecting) == "Reconnecting"@,
        state_name(ControlState::Unregistered) == "Unregistered"@,
{
    reveal_strlit("Registered");
    reveal_strlit("Registering");
    reveal_strlit("Reconnecting");
    reveal_strlit("Unregistered");
    assert("Registering"@.len() == 11 && "Registered"@.len() == 10);
    assert("Reconnecting"@.len() == 12 && "Unregistered"@.len() == 12);
    assert("Reconnecting"@[0] != "Unregistered"@[0]);
}

} // verus!
