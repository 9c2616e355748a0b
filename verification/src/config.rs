//! Configuration schema and validation.
//!
//! The server and the client share one schema: a single [`RootConfig`] tells the
//! two roles apart by which optional sections are present.
use crate::alpn::{fault_message, name_fault, validate_service_name, AlpnFault};
use crate::endpoint::{endpoint_id, parse_endpoint_id, same_id, EndpointId};
use crate::text::{decimal, decimal_text, quote, quoted, same_text};
use vstd::prelude::*;
use vstd::string::StringExecFns;

verus! {

/// Top-level configuration. The server never defines `server_node_id`,
/// `group_token`, `[[expose]]`, `[[static]]` or `[[consume]]`; the client never
/// defines `[[group]]` or `[relay]`.
#[derive(Debug, Clone)]
pub struct RootConfig {
    /// Fields shared by both roles (logging, identity path).
    pub common: CommonConfig,
    /// Server only: groups managed by this server.
    pub groups: Vec<GroupConfig>,
    /// Server only: heartbeat tuning.
    pub heartbeat: HeartbeatConfig,
    /// Server only: relay tuning, present only where the file has a `[relay]`
    /// section. A server without one falls back to the default at use time.
    pub relay: Option<RelayConfig>,
    /// Client only: the server's endpoint id.
    pub server_node_id: Option<String>,
    /// Client only: shared group token.
    pub group_token: Option<String>,
    /// Client only: services to publish.
    pub expose: Vec<ExposeConfig>,
    /// Client only: HTTP static file services to publish.
    pub static_services: Vec<StaticConfig>,
    /// Client only: services to consume from peers in the group.
    pub consume: Vec<ConsumeConfig>,
    /// Client only: reconnect tuning.
    pub reconnect: ReconnectConfig,
}

/// Common fields (logging, identity).
#[derive(Debug, Clone)]
pub struct CommonConfig {
    /// Path to the persisted identity key; a default location where absent.
    pub identity_path: Option<String>,
    pub logging: LoggingConfig,
}

/// Logging configuration.
#[derive(Debug, Clone)]
pub struct LoggingConfig {
    /// One of trace, debug, info, warn, error.
    pub level: String,
}

/// Server side: a managed group. Clients authenticate to a group with the
/// matching token.
#[derive(Debug, Clone)]
pub struct GroupConfig {
    /// Group identifier, unique per server.
    pub name: String,
    /// Shared secret that all clients in this group must present.
    pub group_token: String,
}

/// Server side: heartbeat tuning.
#[derive(Debug, Clone, Copy)]
pub struct HeartbeatConfig {
    /// Seconds between heartbeats sent by the server to each client.
    pub interval_secs: u64,
    /// Seconds without a heartbeat before a client is declared offline.
    pub timeout_secs: u64,
}

/// Server side: relay tuning. It caps the rate at which the relay forwards
/// replies (provider to consumer), per connection.
#[derive(Debug, Clone)]
pub struct RelayConfig {
    /// Master switch for reply throttling. Where it is off, no connection is
    /// throttled and the overrides are not applied.
    pub enabled: bool,
    /// Cap in bytes per second for consumers without an override; 0 means
    /// unlimited.
    pub bytes_per_sec: u64,
    /// Overrides keyed by the consumer's endpoint id.
    pub rate_overrides: Vec<RelayRateOverride>,
}

/// Server side: one row of the override table; 0 means unlimited for that
/// consumer.
#[derive(Debug, Clone)]
pub struct RelayRateOverride {
    pub node_id: String,
    pub bytes_per_sec: u64,
}

/// Client side: a local service to expose to the group.
#[derive(Debug, Clone)]
pub struct ExposeConfig {
    /// Service name (must satisfy `[a-z0-9-]{1,32}`).
    pub name: String,
    /// Local backend address, such as `127.0.0.1:22`.
    pub local_addr: String,
    /// Shared secret that consumers must present to access this service.
    pub shared_secret: String,
}

/// Client side: an HTTP static file service to publish to the group.
#[derive(Debug, Clone)]
pub struct StaticConfig {
    /// Service name (must satisfy `[a-z0-9-]{1,32}`).
    pub name: String,
    /// Local root directory to serve files from.
    pub root_dir: String,
    /// Whether a directory is answered with a listing of its children.
    pub allow_directory_listing: bool,
    /// Shared secret that consumers must present to access this service.
    pub shared_secret: String,
}

/// Client side: a remote service to subscribe to and expose locally.
#[derive(Debug, Clone)]
pub struct ConsumeConfig {
    /// Service name (must match a peer's exposed service).
    pub name: String,
    /// Local address to bind for the consumer listener.
    pub local_bind: String,
    /// Shared secret matching the provider's.
    pub shared_secret: String,
}

/// Client side: reconnect tuning.
#[derive(Debug, Clone, Copy)]
pub struct ReconnectConfig {
    /// Initial backoff after a disconnect.
    pub initial_backoff_ms: u64,
    /// Cap on the backoff.
    pub max_backoff_ms: u64,
    /// Prefer direct P2P over the server relay when both are possible.
    pub prefer_direct: bool,
}

/// Configuration errors.
#[derive(Debug)]
pub enum ConfigError {
    /// The file could not be read: its path and the reason.
    Io { path: String, source: String },
    /// The file is not the TOML that the schema calls for.
    Parse(String),
    /// The configuration breaks a rule.
    Validate(String),
}

/// Configuration of a server.
pub type ServerConfig = RootConfig;

/// Configuration of a client.
pub type ClientConfig = RootConfig;

/// What was found on disk at the root directory of a static service.
#[derive(Debug, Clone, Copy, PartialEq, Eq, Structural)]
pub enum RootDirState {
    Missing,
    NotADirectory,
    Directory,
}

/// The log level where none is configured.
pub fn default_log_level() -> (level: String)
    ensures
        level@ == "info"@,
{
    "info".to_owned()
}

/// The reply cap where none is configured: 100 KiB/s.
pub fn default_relay_bytes_per_sec() -> (bps: u64)
    ensures
        bps == 102_400,
{
    100 * 1024
}

impl Default for LoggingConfig {
    fn default() -> (r: Self)
        ensures
            r.level@ == "info"@,
    {
        LoggingConfig { level: default_log_level() }
    }
}

impl Default for CommonConfig {
    fn default() -> (r: Self)
        ensures
            r.identity_path is None,
            r.logging.level@ == "info"@,
    {
        CommonConfig { identity_path: None, logging: LoggingConfig::default() }
    }
}

impl Default for HeartbeatConfig {
    fn default() -> (r: Self)
        ensures
            r.interval_secs == 30,
            r.timeout_secs == 90,
    {
        HeartbeatConfig { interval_secs: 30, timeout_secs: 90 }
    }
}

impl Default for RelayConfig {
    fn default() -> (r: Self)
        ensures
            !r.enabled,
            r.bytes_per_sec == 102_400,
            r.rate_overrides@.len() == 0,
    {
        RelayConfig {
            enabled: false,
            bytes_per_sec: default_relay_bytes_per_sec(),
            rate_overrides: Vec::new(),
        }
    }
}

impl Default for ReconnectConfig {
    fn default() -> (r: Self)
        ensures
            r.initial_backoff_ms == 50,
            r.max_backoff_ms == 5000,
            r.prefer_direct,
    {
        ReconnectConfig { initial_backoff_ms: 50, max_backoff_ms: 5000, prefer_direct: true }
    }
}

impl Default for RootConfig {
    fn default() -> (r: Self)
        ensures
            r.common.identity_path is None,
            r.common.logging.level@ == "info"@,
            r.groups@.len() == 0,
            r.heartbeat == (HeartbeatConfig { interval_secs: 30, timeout_secs: 90 }),
            r.relay is None,
            r.server_node_id is None,
            r.group_token is None,
            r.expose@.len() == 0,
            r.static_services@.len() == 0,
            r.consume@.len() == 0,
            r.reconnect == (ReconnectConfig {
                initial_backoff_ms: 50,
                max_backoff_ms: 5000,
                prefer_direct: true,
            }),
    {
        RootConfig {
            common: CommonConfig::default(),
            groups: Vec::new(),
            heartbeat: HeartbeatConfig::default(),
            relay: None,
            server_node_id: None,
            group_token: None,
            expose: Vec::new(),
            static_services: Vec::new(),
            consume: Vec::new(),
            reconnect: ReconnectConfig::default(),
        }
    }
}

// ---------------------------------------------------------------------------
// The rules
// ---------------------------------------------------------------------------

/// The tables that name services.
#[derive(Debug, Clone, Copy)]
pub enum Table {
    Expose,
    Static,
    Consume,
}

/// The name of a table in a configuration file.
pub open spec fn table_name(table: Table) -> Seq<char> {
    match table {
        Table::Expose => "expose"@,
        Table::Static => "static"@,
        Table::Consume => "consume"@,
    }
}

/// A broken rule.
pub enum Violation {
    MixedRoles,
    NoRole,
    DuplicateGroup { name: Seq<char> },
    EmptyGroupToken { name: Seq<char> },
    BadOverrideId { index: nat, node_id: Seq<char> },
    DuplicateOverride { index: nat, node_id: Seq<char> },
    RelayInClient,
    MissingServerNodeId,
    EmptyServerNodeId,
    MissingClientToken,
    EmptyClientToken,
    DuplicateService { table: Table, name: Seq<char> },
    PublishedAndConsumed { name: Seq<char> },
    ExposedAndStatic { name: Seq<char> },
    BadServiceName { table: Table, name: Seq<char>, fault: AlpnFault },
    EmptySecret { table: Table, name: Seq<char> },
    RootMissing { name: Seq<char>, root_dir: Seq<char> },
    RootNotADirectory { name: Seq<char>, root_dir: Seq<char> },
    UnknownLogLevel { level: Seq<char> },
}

/// What a broken rule is reported as.
pub open spec fn violation_message(v: Violation) -> Seq<char> {
    match v {
        Violation::MixedRoles =>
            "config mixes server ([[group]]) and client ([[expose]]/[[consume]]) fields"@,
        Violation::NoRole => "config defines no [[group]], [[expose]], or [[consume]] sections"@,
        Violation::DuplicateGroup { name } => "duplicate group name: "@ + quoted(name),
        Violation::EmptyGroupToken { name } => "group "@ + quoted(name)
            + ": group_token is empty"@,
        Violation::BadOverrideId { index, node_id } => "relay.rate_override["@ + decimal(index)
            + "].node_id "@ + quoted(node_id)
            + " is not a valid EndpointID (expected canonical z-base32 or 64-char hex)"@,
        Violation::DuplicateOverride { index, node_id } => "relay.rate_override["@ + decimal(index)
            + "]: duplicate node_id "@ + quoted(node_id),
        Violation::RelayInClient =>
            "[relay] is server-only and must not appear in client configs; the reply-bandwidth cap is administered by the server operator"@,
        Violation::MissingServerNodeId => "client config missing server_node_id"@,
        Violation::EmptyServerNodeId => "server_node_id is empty"@,
        Violation::MissingClientToken => "client config missing group_token"@,
        Violation::EmptyClientToken => "group_token is empty"@,
        Violation::DuplicateService { table, name } => "duplicate service name "@ + quoted(name)
            + " in [["@ + table_name(table) + "]]"@,
        Violation::PublishedAndConsumed { name } => "service "@ + quoted(name)
            + " appears in both [[expose]] or [[static]] and [[consume]]"@,
        Violation::ExposedAndStatic { name } => "service "@ + quoted(name)
            + " appears in both [[expose]] and [[static]]"@,
        Violation::BadServiceName { table, name, fault } => table_name(table) + " "@ + quoted(name)
            + ": "@ + fault_message(fault),
        Violation::EmptySecret { table, name } => table_name(table) + " "@ + quoted(name)
            + ": shared_secret is empty"@,
        Violation::RootMissing { name, root_dir } => "static "@ + quoted(name) + ": root_dir "@
            + quoted(root_dir) + " does not exist"@,
        Violation::RootNotADirectory { name, root_dir } => "static "@ + quoted(name)
            + ": root_dir "@ + quoted(root_dir) + " is not a directory"@,
        Violation::UnknownLogLevel { level } => "unknown logging.level: "@ + quoted(level),
    }
}

/// The least index from `from` on, below `len`, that has a property.
pub open spec fn first_index(from: int, len: int, p: spec_fn(int) -> bool) -> Option<int>
    decreases len - from,
{
    if from >= len {
        None
    } else if p(from) {
        Some(from)
    } else {
        first_index(from + 1, len, p)
    }
}

proof fn lemma_first_index(from: int, len: int, p: spec_fn(int) -> bool)
    ensures
        match first_index(from, len, p) {
            Some(i) => from <= i < len && p(i) && forall|j: int| from <= j < i ==> !#[trigger] p(j),
            None => forall|j: int| from <= j < len ==> !#[trigger] p(j),
        },
    decreases len - from,
{
    if from < len && !p(from) {
        lemma_first_index(from + 1, len, p);
    }
}

/// The name at `i` stands already further up.
pub open spec fn repeats(names: Seq<Seq<char>>, i: int) -> bool {
    exists|j: int| 0 <= j < i && #[trigger] names[j] == names[i]
}

/// The first name that stands already further up.
pub open spec fn first_repeat(names: Seq<Seq<char>>) -> Option<int> {
    first_index(0, names.len() as int, |i: int| repeats(names, i))
}

/// The first of `names` that is also among `others`.
pub open spec fn first_shared(names: Seq<Seq<char>>, others: Seq<Seq<char>>) -> Option<int> {
    first_index(0, names.len() as int, |i: int| others.contains(names[i]))
}

impl RootConfig {
    /// The names of the exposed services.
    pub open spec fn expose_names(self) -> Seq<Seq<char>> {
        self.expose@.map_values(|e: ExposeConfig| e.name@)
    }

    /// The names of the static services.
    pub open spec fn static_names(self) -> Seq<Seq<char>> {
        self.static_services@.map_values(|s: StaticConfig| s.name@)
    }

    /// The names of the consumed services.
    pub open spec fn consume_names(self) -> Seq<Seq<char>> {
        self.consume@.map_values(|c: ConsumeConfig| c.name@)
    }

    /// The names of the groups.
    pub open spec fn group_names(self) -> Seq<Seq<char>> {
        self.groups@.map_values(|g: GroupConfig| g.name@)
    }

    /// The override rows.
    pub open spec fn overrides(self) -> Seq<RelayRateOverride> {
        match self.relay {
            Some(r) => r.rate_overrides@,
            None => Seq::empty(),
        }
    }

    /// The configuration is a server's: it defines a group.
    pub open spec fn is_server_config(self) -> bool {
        self.groups@.len() > 0
    }

    /// The configuration is a client's: it names a server, or a service to publish
    /// from a local address or to consume.
    pub open spec fn is_client_config(self) -> bool {
        self.server_node_id is Some || self.expose@.len() > 0 || self.consume@.len() > 0
    }

    /// The configuration has a field that only clients have. The heartbeat and
    /// reconnect tuning is left out: it has defaults, so that every configuration
    /// holds it.
    pub open spec fn has_client_fields(self) -> bool {
        self.is_client_config() || self.group_token is Some || self.static_services@.len() > 0
    }
}

/// The rule that the `i`-th group breaks.
pub open spec fn group_violation(cfg: RootConfig, i: int) -> Option<Violation> {
    let g = cfg.groups@[i];
    if repeats(cfg.group_names(), i) {
        Some(Violation::DuplicateGroup { name: g.name@ })
    } else if g.group_token@.len() == 0 {
        Some(Violation::EmptyGroupToken { name: g.name@ })
    } else {
        None
    }
}

/// The rule that the `i`-th override row breaks.
pub open spec fn override_violation(rows: Seq<RelayRateOverride>, i: int) -> Option<Violation> {
    let id = endpoint_id(rows[i].node_id@);
    if id is None {
        Some(Violation::BadOverrideId { index: i as nat, node_id: rows[i].node_id@ })
    } else if exists|j: int| 0 <= j < i && endpoint_id((#[trigger] rows[j]).node_id@) == id {
        Some(Violation::DuplicateOverride { index: i as nat, node_id: rows[i].node_id@ })
    } else {
        None
    }
}

/// The first rule that a list of groups breaks.
pub open spec fn groups_violation(cfg: RootConfig) -> Option<Violation> {
    match first_index(0, cfg.groups@.len() as int, |i: int| group_violation(cfg, i) is Some) {
        Some(i) => group_violation(cfg, i),
        None => None,
    }
}

/// The first rule that a list of override rows breaks.
pub open spec fn rows_violation(rows: Seq<RelayRateOverride>) -> Option<Violation> {
    match first_index(0, rows.len() as int, |i: int| override_violation(rows, i) is Some) {
        Some(i) => override_violation(rows, i),
        None => None,
    }
}

/// The first rule that a server configuration breaks.
pub open spec fn server_violation(cfg: RootConfig) -> Option<Violation> {
    match groups_violation(cfg) {
        Some(v) => Some(v),
        None => rows_violation(cfg.overrides()),
    }
}

/// The rule that a named service with its secret breaks.
pub open spec fn entry_violation(
    table: Table,
    name: Seq<char>,
    secret: Seq<char>,
) -> Option<Violation> {
    match name_fault(name) {
        Some(fault) => Some(Violation::BadServiceName { table, name, fault }),
        None => if secret.len() == 0 {
            Some(Violation::EmptySecret { table, name })
        } else {
            None
        },
    }
}

/// What was found at the `i`-th root directory; nothing where it was not probed.
pub open spec fn root_state(roots: Seq<RootDirState>, i: int) -> RootDirState {
    if 0 <= i < roots.len() {
        roots[i]
    } else {
        RootDirState::Missing
    }
}

/// The rule that the `i`-th exposed service breaks.
pub open spec fn expose_violation(cfg: RootConfig, i: int) -> Option<Violation> {
    entry_violation(Table::Expose, cfg.expose@[i].name@, cfg.expose@[i].shared_secret@)
}

/// The rule that the `i`-th consumed service breaks.
pub open spec fn consume_violation(cfg: RootConfig, i: int) -> Option<Violation> {
    entry_violation(Table::Consume, cfg.consume@[i].name@, cfg.consume@[i].shared_secret@)
}

/// The rule that the `i`-th static service breaks.
pub open spec fn static_violation(
    cfg: RootConfig,
    roots: Seq<RootDirState>,
    i: int,
) -> Option<Violation> {
    let s = cfg.static_services@[i];
    match entry_violation(Table::Static, s.name@, s.shared_secret@) {
        Some(v) => Some(v),
        None => match root_state(roots, i) {
            RootDirState::Missing => Some(
                Violation::RootMissing { name: s.name@, root_dir: s.root_dir@ },
            ),
            RootDirState::NotADirectory => Some(
                Violation::RootNotADirectory { name: s.name@, root_dir: s.root_dir@ },
            ),
            RootDirState::Directory => None,
        },
    }
}

/// The first rule on a client's server id and token that is broken.
pub open spec fn credentials_violation(cfg: RootConfig) -> Option<Violation> {
    if cfg.relay is Some {
        Some(Violation::RelayInClient)
    } else if cfg.server_node_id is None {
        Some(Violation::MissingServerNodeId)
    } else if cfg.server_node_id->0@.len() == 0 {
        Some(Violation::EmptyServerNodeId)
    } else if cfg.group_token is None {
        Some(Violation::MissingClientToken)
    } else if cfg.group_token->0@.len() == 0 {
        Some(Violation::EmptyClientToken)
    } else {
        None
    }
}

/// The first clash between the names of services.
pub open spec fn names_violation(cfg: RootConfig) -> Option<Violation> {
    let exposed = cfg.expose_names();
    let consumed = cfg.consume_names();
    let files = cfg.static_names();
    if let Some(i) = first_repeat(exposed) {
        Some(Violation::DuplicateService { table: Table::Expose, name: exposed[i] })
    } else if let Some(i) = first_repeat(consumed) {
        Some(Violation::DuplicateService { table: Table::Consume, name: consumed[i] })
    } else if let Some(i) = first_repeat(files) {
        Some(Violation::DuplicateService { table: Table::Static, name: files[i] })
    } else if let Some(i) = first_shared(consumed, exposed + files) {
        Some(Violation::PublishedAndConsumed { name: consumed[i] })
    } else if let Some(i) = first_shared(exposed, files) {
        Some(Violation::ExposedAndStatic { name: exposed[i] })
    } else {
        None
    }
}

/// The first rule that an entry of a client's tables breaks.
pub open spec fn entries_violation(
    cfg: RootConfig,
    roots: Seq<RootDirState>,
) -> Option<Violation> {
    if let Some(i) = first_index(
        0,
        cfg.expose@.len() as int,
        |i: int| expose_violation(cfg, i) is Some,
    ) {
        expose_violation(cfg, i)
    } else if let Some(i) = first_index(
        0,
        cfg.static_services@.len() as int,
        |i: int| static_violation(cfg, roots, i) is Some,
    ) {
        static_violation(cfg, roots, i)
    } else if let Some(i) = first_index(
        0,
        cfg.consume@.len() as int,
        |i: int| consume_violation(cfg, i) is Some,
    ) {
        consume_violation(cfg, i)
    } else {
        None
    }
}

/// The first rule that a client configuration breaks.
pub open spec fn client_violation(cfg: RootConfig, roots: Seq<RootDirState>) -> Option<Violation> {
    match credentials_violation(cfg) {
        Some(v) => Some(v),
        None => match names_violation(cfg) {
            Some(v) => Some(v),
            None => entries_violation(cfg, roots),
        },
    }
}

/// The levels that can be logged at.
pub open spec fn is_log_level(level: Seq<char>) -> bool {
    ||| level == "trace"@
    ||| level == "debug"@
    ||| level == "info"@
    ||| level == "warn"@
    ||| level == "error"@
}

/// The first rule that a configuration breaks: the roles, then the sections of
/// its role, then the log level.
pub open spec fn violation(cfg: RootConfig, roots: Seq<RootDirState>) -> Option<Violation> {
    if cfg.is_server_config() && cfg.has_client_fields() {
        Some(Violation::MixedRoles)
    } else if !cfg.is_server_config() && !cfg.is_client_config() {
        Some(Violation::NoRole)
    } else {
        match if cfg.is_server_config() {
            server_violation(cfg)
        } else {
            client_violation(cfg, roots)
        } {
            Some(v) => Some(v),
            None => if is_log_level(cfg.common.logging.level@) {
                None
            } else {
                Some(Violation::UnknownLogLevel { level: cfg.common.logging.level@ })
            },
        }
    }
}

/// `r` reports the violation `v`, or success where there is none.
pub open spec fn reports(r: Result<(), ConfigError>, v: Option<Violation>) -> bool {
    match r {
        Ok(_) => v is None,
        Err(ConfigError::Validate(message)) => v is Some && message@ == violation_message(v->0),
        Err(_) => false,
    }
}

// ---------------------------------------------------------------------------
// Checking them
// ---------------------------------------------------------------------------

/// Views a vector of strings.
pub open spec fn texts(names: Seq<String>) -> Seq<Seq<char>> {
    names.map_values(|s: String| s@)
}

/// Whether the name at `i` stands already further up.
fn name_repeats(names: &Vec<String>, i: usize) -> (r: bool)
    requires
        i < names@.len(),
    ensures
        r == repeats(texts(names@), i as int),
        r == (exists|j: int| 0 <= j < i && (#[trigger] names@[j])@ == names@[i as int]@),
{
    let ghost all = texts(names@);
    let mut j: usize = 0;
    while j < i
        invariant
            all == texts(names@),
            j <= i < names@.len(),
            forall|k: int| 0 <= k < j ==> #[trigger] all[k] != all[i as int],
        decreases i - j,
    {
        if same_text(names[j].as_str(), names[i].as_str()) {
            assert(all[j as int] == all[i as int]);
            assert(names@[j as int]@ == names@[i as int]@);
            return true;
        }
        j = j + 1;
    }
    assert forall|k: int| 0 <= k < i implies (#[trigger] names@[k])@ != names@[i as int]@ by {
        assert(all[k] != all[i as int]);
    }
    false
}

/// Finds the first name that stands already further up.
fn find_repeat(names: &Vec<String>) -> (r: Option<usize>)
    ensures
        match r {
            Some(i) => i < names@.len() && first_repeat(texts(names@)) == Some(i as int),
            None => first_repeat(texts(names@)) is None,
        },
{
    let ghost all = texts(names@);
    let ghost p = |k: int| repeats(all, k);
    let mut i: usize = 0;
    while i < names.len()
        invariant
            all == texts(names@),
            p == (|k: int| repeats(all, k)),
            i <= names@.len(),
            first_index(0, all.len() as int, p) == first_index(i as int, all.len() as int, p),
        decreases names.len() - i,
    {
        if name_repeats(names, i) {
            return Some(i);
        }
        i = i + 1;
    }
    None
}

/// Whether `name` is one of `names`.
fn has_name(names: &Vec<String>, name: &str) -> (r: bool)
    ensures
        r == texts(names@).contains(name@),
{
    let ghost all = texts(names@);
    let mut j: usize = 0;
    while j < names.len()
        invariant
            all == texts(names@),
            j <= names@.len(),
            forall|k: int| 0 <= k < j ==> #[trigger] all[k] != name@,
        decreases names.len() - j,
    {
        if same_text(names[j].as_str(), name) {
            assert(all[j as int] == name@);
            return true;
        }
        j = j + 1;
    }
    false
}

/// Finds the first of `names` that is also among `others`.
fn find_shared(names: &Vec<String>, others: &Vec<String>) -> (r: Option<usize>)
    ensures
        match r {
            Some(i) => i < names@.len() && first_shared(texts(names@), texts(others@)) == Some(
                i as int,
            ),
            None => first_shared(texts(names@), texts(others@)) is None,
        },
{
    let ghost all = texts(names@);
    let ghost rest = texts(others@);
    let ghost p = |k: int| rest.contains(all[k]);
    let mut i: usize = 0;
    while i < names.len()
        invariant
            all == texts(names@),
            rest == texts(others@),
            p == (|k: int| rest.contains(all[k])),
            i <= names@.len(),
            first_index(0, all.len() as int, p) == first_index(i as int, all.len() as int, p),
        decreases names.len() - i,
    {
        if has_name(others, names[i].as_str()) {
            assert(p(i as int));
            return Some(i);
        }
        assert(!p(i as int));
        i = i + 1;
    }
    None
}

impl ConfigError {
    /// The message for the user.
    pub fn message(&self) -> (text: String)
        ensures
            text@ == match self {
                ConfigError::Io { path, source } => "read config file "@ + quoted(path@) + ": "@
                    + source@,
                ConfigError::Parse(reason) => "parse TOML: "@ + reason@,
                ConfigError::Validate(reason) => "validation: "@ + reason@,
            },
    {
        match self {
            ConfigError::Io { path, source } => "read config file ".to_owned().concat(
                quote(path.as_str()).as_str(),
            ).concat(": ").concat(source.as_str()),
            ConfigError::Parse(reason) => "parse TOML: ".to_owned().concat(reason.as_str()),
            ConfigError::Validate(reason) => "validation: ".to_owned().concat(reason.as_str()),
        }
    }
}

impl Table {
    /// The name of the table in a configuration file.
    fn text(self) -> (name: &'static str)
        ensures
            name@ == table_name(self),
    {
        match self {
            Table::Expose => "expose",
            Table::Static => "static",
            Table::Consume => "consume",
        }
    }
}

/// Checks the name and the secret of a service.
fn check_entry(table: Table, name: &str, secret: &str) -> (r: Result<(), ConfigError>)
    ensures
        reports(r, entry_violation(table, name@, secret@)),
{
    match validate_service_name(name) {
        Err(fault) => Err(
            ConfigError::Validate(
                table.text().to_owned().concat(" ").concat(quote(name).as_str()).concat(
                    ": ",
                ).concat(fault.message().as_str()),
            ),
        ),
        Ok(_) => if secret.is_empty() {
            Err(
                ConfigError::Validate(
                    table.text().to_owned().concat(" ").concat(quote(name).as_str()).concat(
                        ": shared_secret is empty",
                    ),
                ),
            )
        } else {
            Ok(())
        },
    }
}

/// Checks that no name of a table stands there twice.
fn check_repeats(table: Table, names: &Vec<String>) -> (r: Result<(), ConfigError>)
    ensures
        reports(
            r,
            match first_repeat(texts(names@)) {
                Some(i) => Some(Violation::DuplicateService { table, name: texts(names@)[i] }),
                None => None,
            },
        ),
{
    match find_repeat(names) {
        Some(i) => Err(
            ConfigError::Validate(
                "duplicate service name ".to_owned().concat(
                    quote(names[i].as_str()).as_str(),
                ).concat(" in [[").concat(table.text()).concat("]]"),
            ),
        ),
        None => Ok(()),
    }
}

impl RootConfig {
    /// Validates the configuration. Catches role confusion (server fields on
    /// client configs and vice versa) and violations of each section's rules;
    /// `roots` tells what was found at the root directory of each static
    /// service, in order.
    pub fn validate(&self, roots: &Vec<RootDirState>) -> (r: Result<(), ConfigError>)
        ensures
            reports(r, violation(*self, roots@)),
    {
        let server = self.groups.len() > 0;
        let client = self.server_node_id.is_some() || self.expose.len() > 0 || self.consume.len()
            > 0;
        let client_fields = client || self.group_token.is_some() || self.static_services.len() > 0;
        if server && client_fields {
            return Err(
                ConfigError::Validate(
                    "config mixes server ([[group]]) and client ([[expose]]/[[consume]]) fields".to_owned(),
                ),
            );
        }
        if !server && !client {
            return Err(
                ConfigError::Validate(
                    "config defines no [[group]], [[expose]], or [[consume]] sections".to_owned(),
                ),
            );
        }
        if server {
            self.validate_server()?;
        } else {
            self.validate_client(roots)?;
        }
        let level: &str = self.common.logging.level.as_str();
        if same_text(level, "trace") || same_text(level, "debug") || same_text(level, "info")
            || same_text(level, "warn") || same_text(level, "error") {
            Ok(())
        } else {
            Err(
                ConfigError::Validate(
                    "unknown logging.level: ".to_owned().concat(quote(level).as_str()),
                ),
            )
        }
    }

    /// Whether this configuration defines a server (has any group).
    pub fn is_server(&self) -> (r: bool)
        ensures
            r == self.is_server_config(),
    {
        self.groups.len() > 0
    }

    fn validate_server(&self) -> (r: Result<(), ConfigError>)
        ensures
            reports(r, server_violation(*self)),
    {
        self.check_groups()?;
        self.check_overrides()
    }

    fn check_groups(&self) -> (r: Result<(), ConfigError>)
        ensures
            reports(r, groups_violation(*self)),
    {
        let names = self.group_name_list();
        let ghost p = |i: int| group_violation(*self, i) is Some;
        let mut i: usize = 0;
        while i < self.groups.len()
            invariant
                texts(names@) == self.group_names(),
                p == (|i: int| group_violation(*self, i) is Some),
                i <= self.groups@.len(),
                first_index(0, self.groups@.len() as int, p) == first_index(
                    i as int,
                    self.groups@.len() as int,
                    p,
                ),
            decreases self.groups.len() - i,
        {
            let g = &self.groups[i];
            assert(texts(names@).len() == names@.len());
            if name_repeats(&names, i) {
                assert(p(i as int));
                return Err(
                    ConfigError::Validate(
                        "duplicate group name: ".to_owned().concat(quote(g.name.as_str()).as_str()),
                    ),
                );
            }
            if g.group_token.as_str().is_empty() {
                assert(p(i as int));
                return Err(
                    ConfigError::Validate(
                        "group ".to_owned().concat(quote(g.name.as_str()).as_str()).concat(
                            ": group_token is empty",
                        ),
                    ),
                );
            }
            assert(!p(i as int));
            i = i + 1;
        }
        Ok(())
    }

    fn group_name_list(&self) -> (names: Vec<String>)
        ensures
            texts(names@) == self.group_names(),
    {
        let mut names: Vec<String> = Vec::new();
        let mut i: usize = 0;
        while i < self.groups.len()
            invariant
                i == names@.len(),
                i <= self.groups@.len(),
                forall|k: int| 0 <= k < i ==> (#[trigger] names@[k])@ == self.groups@[k].name@,
            decreases self.groups.len() - i,
        {
            names.push(self.groups[i].name.clone());
            i = i + 1;
        }
        assert(texts(names@) =~= self.group_names());
        names
    }

    fn check_overrides(&self) -> (r: Result<(), ConfigError>)
        ensures
            reports(r, rows_violation(self.overrides())),
    {
        match &self.relay {
            Some(relay) => check_rows(&relay.rate_overrides),
            None => Ok(()),
        }
    }

    fn validate_client(&self, roots: &Vec<RootDirState>) -> (r: Result<(), ConfigError>)
        ensures
            reports(r, client_violation(*self, roots@)),
    {
        self.check_credentials()?;
        self.check_names()?;
        self.check_entries(roots)
    }

    fn check_credentials(&self) -> (r: Result<(), ConfigError>)
        ensures
            reports(r, credentials_violation(*self)),
    {
        if self.relay.is_some() {
            return Err(
                ConfigError::Validate(
                    "[relay] is server-only and must not appear in client configs; the reply-bandwidth cap is administered by the server operator".to_owned(),
                ),
            );
        }
        match &self.server_node_id {
            None => {
                return Err(
                    ConfigError::Validate("client config missing server_node_id".to_owned()),
                );
            },
            Some(id) => if id.as_str().is_empty() {
                return Err(ConfigError::Validate("server_node_id is empty".to_owned()));
            },
        }
        match &self.group_token {
            None => Err(ConfigError::Validate("client config missing group_token".to_owned())),
            Some(token) => if token.as_str().is_empty() {
                Err(ConfigError::Validate("group_token is empty".to_owned()))
            } else {
                Ok(())
            },
        }
    }

    fn check_names(&self) -> (r: Result<(), ConfigError>)
        ensures
            reports(r, names_violation(*self)),
    {
        let exposed = self.expose_name_list();
        let consumed = self.consume_name_list();
        let files = self.static_name_list();
        check_repeats(Table::Expose, &exposed)?;
        check_repeats(Table::Consume, &consumed)?;
        check_repeats(Table::Static, &files)?;
        let mut published = self.expose_name_list();
        let mut more = self.static_name_list();
        published.append(&mut more);
        assert(texts(published@) =~= self.expose_names() + self.static_names());
        if let Some(i) = find_shared(&consumed, &published) {
            return Err(
                ConfigError::Validate(
                    "service ".to_owned().concat(quote(consumed[i].as_str()).as_str()).concat(
                        " appears in both [[expose]] or [[static]] and [[consume]]",
                    ),
                ),
            );
        }
        if let Some(i) = find_shared(&exposed, &files) {
            return Err(
                ConfigError::Validate(
                    "service ".to_owned().concat(quote(exposed[i].as_str()).as_str()).concat(
                        " appears in both [[expose]] and [[static]]",
                    ),
                ),
            );
        }
        Ok(())
    }

    fn check_entries(&self, roots: &Vec<RootDirState>) -> (r: Result<(), ConfigError>)
        ensures
            reports(r, entries_violation(*self, roots@)),
    {
        let ghost p = |i: int| expose_violation(*self, i) is Some;
        let mut i: usize = 0;
        while i < self.expose.len()
            invariant
                p == (|i: int| expose_violation(*self, i) is Some),
                i <= self.expose@.len(),
                first_index(0, self.expose@.len() as int, p) == first_index(
                    i as int,
                    self.expose@.len() as int,
                    p,
                ),
            decreases self.expose.len() - i,
        {
            let e = &self.expose[i];
            check_entry(Table::Expose, e.name.as_str(), e.shared_secret.as_str())?;
            assert(!p(i as int));
            i = i + 1;
        }
        let ghost q = |i: int| static_violation(*self, roots@, i) is Some;
        let mut i: usize = 0;
        while i < self.static_services.len()
            invariant
                first_index(
                    0,
                    self.expose@.len() as int,
                    |i: int| expose_violation(*self, i) is Some,
                ) is None,
                q == (|i: int| static_violation(*self, roots@, i) is Some),
                i <= self.static_services@.len(),
                first_index(0, self.static_services@.len() as int, q) == first_index(
                    i as int,
                    self.static_services@.len() as int,
                    q,
                ),
            decreases self.static_services.len() - i,
        {
            let s = &self.static_services[i];
            let state = if i < roots.len() {
                roots[i]
            } else {
                RootDirState::Missing
            };
            check_static(s, state)?;
            assert(!q(i as int));
            i = i + 1;
        }
        let ghost t = |i: int| consume_violation(*self, i) is Some;
        let mut i: usize = 0;
        while i < self.consume.len()
            invariant
                first_index(
                    0,
                    self.expose@.len() as int,
                    |i: int| expose_violation(*self, i) is Some,
                ) is None,
                first_index(
                    0,
                    self.static_services@.len() as int,
                    |i: int| static_violation(*self, roots@, i) is Some,
                ) is None,
                t == (|i: int| consume_violation(*self, i) is Some),
                i <= self.consume@.len(),
                first_index(0, self.consume@.len() as int, t) == first_index(
                    i as int,
                    self.consume@.len() as int,
                    t,
                ),
            decreases self.consume.len() - i,
        {
            let c = &self.consume[i];
            check_entry(Table::Consume, c.name.as_str(), c.shared_secret.as_str())?;
            assert(!t(i as int));
            i = i + 1;
        }
        Ok(())
    }

    fn expose_name_list(&self) -> (names: Vec<String>)
        ensures
            texts(names@) == self.expose_names(),
    {
        let mut names: Vec<String> = Vec::new();
        let mut i: usize = 0;
        while i < self.expose.len()
            invariant
                i == names@.len(),
                i <= self.expose@.len(),
                forall|k: int| 0 <= k < i ==> (#[trigger] names@[k])@ == self.expose@[k].name@,
            decreases self.expose.len() - i,
        {
            names.push(self.expose[i].name.clone());
            i = i + 1;
        }
        assert(texts(names@) =~= self.expose_names());
        names
    }

    fn static_name_list(&self) -> (names: Vec<String>)
        ensures
            texts(names@) == self.static_names(),
    {
        let mut names: Vec<String> = Vec::new();
        let mut i: usize = 0;
        while i < self.static_services.len()
            invariant
                i == names@.len(),
                i <= self.static_services@.len(),
                forall|k: int|
                    0 <= k < i ==> (#[trigger] names@[k])@ == self.static_services@[k].name@,
            decreases self.static_services.len() - i,
        {
            names.push(self.static_services[i].name.clone());
            i = i + 1;
        }
        assert(texts(names@) =~= self.static_names());
        names
    }

    fn consume_name_list(&self) -> (names: Vec<String>)
        ensures
            texts(names@) == self.consume_names(),
    {
        let mut names: Vec<String> = Vec::new();
        let mut i: usize = 0;
        while i < self.consume.len()
            invariant
                i == names@.len(),
                i <= self.consume@.len(),
                forall|k: int| 0 <= k < i ==> (#[trigger] names@[k])@ == self.consume@[k].name@,
            decreases self.consume.len() - i,
        {
            names.push(self.consume[i].name.clone());
            i = i + 1;
        }
        assert(texts(names@) =~= self.consume_names());
        names
    }
}

/// Checks a static service against what was found at its root directory.
fn check_static(s: &StaticConfig, state: RootDirState) -> (r: Result<(), ConfigError>)
    ensures
        reports(
            r,
            match entry_violation(Table::Static, s.name@, s.shared_secret@) {
                Some(v) => Some(v),
                None => match state {
                    RootDirState::Missing => Some(
                        Violation::RootMissing { name: s.name@, root_dir: s.root_dir@ },
                    ),
                    RootDirState::NotADirectory => Some(
                        Violation::RootNotADirectory { name: s.name@, root_dir: s.root_dir@ },
                    ),
                    RootDirState::Directory => None,
                },
            },
        ),
{
    check_entry(Table::Static, s.name.as_str(), s.shared_secret.as_str())?;
    match state {
        RootDirState::Missing => Err(
            ConfigError::Validate(
                "static ".to_owned().concat(quote(s.name.as_str()).as_str()).concat(
                    ": root_dir ",
                ).concat(quote(s.root_dir.as_str()).as_str()).concat(" does not exist"),
            ),
        ),
        RootDirState::NotADirectory => Err(
            ConfigError::Validate(
                "static ".to_owned().concat(quote(s.name.as_str()).as_str()).concat(
                    ": root_dir ",
                ).concat(quote(s.root_dir.as_str()).as_str()).concat(" is not a directory"),
            ),
        ),
        RootDirState::Directory => Ok(()),
    }
}

/// Whether `id` is one of `ids`.
fn has_id(ids: &Vec<EndpointId>, id: &EndpointId) -> (r: bool)
    ensures
        r == exists|j: int| 0 <= j < ids@.len() && (#[trigger] ids@[j])@ == id@,
{
    let mut j: usize = 0;
    while j < ids.len()
        invariant
            j <= ids@.len(),
            forall|k: int| 0 <= k < j ==> (#[trigger] ids@[k])@ != id@,
        decreases ids.len() - j,
    {
        if same_id(&ids[j], id) {
            return true;
        }
        j = j + 1;
    }
    false
}

/// Checks the override rows: each names an endpoint, and no two the same one.
fn check_rows(rows: &Vec<RelayRateOverride>) -> (r: Result<(), ConfigError>)
    ensures
        reports(r, rows_violation(rows@)),
{
    let ghost p = |i: int| override_violation(rows@, i) is Some;
    let mut seen: Vec<EndpointId> = Vec::new();
    let mut i: usize = 0;
    while i < rows.len()
        invariant
            p == (|i: int| override_violation(rows@, i) is Some),
            i <= rows@.len(),
            seen@.len() == i,
            forall|k: int|
                0 <= k < i ==> endpoint_id((#[trigger] rows@[k]).node_id@) == Some(seen@[k]@),
            first_index(0, rows@.len() as int, p) == first_index(
                i as int,
                rows@.len() as int,
                p,
            ),
        decreases rows.len() - i,
    {
        let node_id: &str = rows[i].node_id.as_str();
        match parse_endpoint_id(node_id) {
            None => {
                assert(p(i as int));
                return Err(
                    ConfigError::Validate(
                        "relay.rate_override[".to_owned().concat(
                            decimal_text(i as u64).as_str(),
                        ).concat("].node_id ").concat(quote(node_id).as_str()).concat(
                            " is not a valid EndpointID (expected canonical z-base32 or 64-char hex)",
                        ),
                    ),
                );
            },
            Some(id) => {
                if has_id(&seen, &id) {
                    proof {
                        let j = choose|j: int| 0 <= j < seen@.len() && (#[trigger] seen@[j])@ == id@;
                        assert(endpoint_id(rows@[j].node_id@) == Some(id@));
                        assert(p(i as int));
                    }
                    return Err(
                        ConfigError::Validate(
                            "relay.rate_override[".to_owned().concat(
                                decimal_text(i as u64).as_str(),
                            ).concat("]: duplicate node_id ").concat(quote(node_id).as_str()),
                        ),
                    );
                }
                proof {
                    assert forall|j: int| 0 <= j < i implies endpoint_id(
                        (#[trigger] rows@[j]).node_id@,
                    ) != Some(id@) by {
                        assert(seen@[j]@ != id@);
                    }
                    assert(!p(i as int));
                }
                seen.push(id);
            },
        }
        i = i + 1;
    }
    Ok(())
}

// ---------------------------------------------------------------------------
// What a valid configuration guarantees
// ---------------------------------------------------------------------------

/// No two positions hold the same name.
pub open spec fn all_distinct(names: Seq<Seq<char>>) -> bool {
    forall|i: int, j: int| 0 <= i < j < names.len() ==> #[trigger] names[i] != #[trigger] names[j]
}

proof fn lemma_no_repeat(names: Seq<Seq<char>>)
    requires
        first_repeat(names) is None,
    ensures
        all_distinct(names),
{
    let p = |i: int| repeats(names, i);
    lemma_first_index(0, names.len() as int, p);
    assert forall|i: int, j: int| 0 <= i < j < names.len() implies #[trigger] names[i]
        != #[trigger] names[j] by {
        assert(!p(j));
    }
}

/// A configuration has one role: server and client sections never meet in a
/// valid one, and one of them is there.
pub proof fn law_valid_config_has_one_role(cfg: RootConfig, roots: Seq<RootDirState>)
    requires
        violation(cfg, roots) is None,
    ensures
        cfg.is_server_config() != cfg.is_client_config(),
        cfg.is_client_config() == cfg.has_client_fields(),
        is_log_level(cfg.common.logging.level@),
        cfg.has_client_fields() ==> cfg.relay is None,
{
}

/// In a valid server configuration the groups have different names and tokens
/// that are not empty, and every override row names an endpoint of its own.
pub proof fn law_valid_server_config(cfg: RootConfig, roots: Seq<RootDirState>)
    requires
        violation(cfg, roots) is None,
        cfg.is_server_config(),
    ensures
        all_distinct(cfg.group_names()),
        forall|i: int|
            0 <= i < cfg.groups@.len() ==> (#[trigger] cfg.groups@[i]).group_token@.len() > 0,
        forall|i: int|
            0 <= i < cfg.overrides().len() ==> endpoint_id(
                (#[trigger] cfg.overrides()[i]).node_id@,
            ) is Some,
        forall|i: int, j: int|
            0 <= i < j < cfg.overrides().len() ==> endpoint_id(
                (#[trigger] cfg.overrides()[i]).node_id@,
            ) != endpoint_id((#[trigger] cfg.overrides()[j]).node_id@),
{
    let rows = cfg.overrides();
    let p = |i: int| group_violation(cfg, i) is Some;
    let q = |i: int| override_violation(rows, i) is Some;
    lemma_first_index(0, cfg.groups@.len() as int, p);
    lemma_first_index(0, rows.len() as int, q);
    assert forall|i: int, j: int| 0 <= i < j < cfg.group_names().len() implies #[trigger]
        cfg.group_names()[i] != #[trigger] cfg.group_names()[j] by {
        assert(!p(j));
    }
    assert forall|i: int| 0 <= i < cfg.groups@.len() implies (#[trigger]
    cfg.groups@[i]).group_token@.len() > 0 by {
        assert(!p(i));
    }
    assert forall|i: int| 0 <= i < rows.len() implies endpoint_id(
        (#[trigger] rows[i]).node_id@,
    ) is Some by {
        assert(!q(i));
    }
    assert forall|i: int, j: int| 0 <= i < j < rows.len() implies endpoint_id(
        (#[trigger] rows[i]).node_id@,
    ) != endpoint_id((#[trigger] rows[j]).node_id@) by {
        assert(!q(j));
    }
}

/// In a valid client configuration the server and the token are given, and no
/// service name stands twice, neither in one table nor in two.
pub proof fn law_valid_client_names(cfg: RootConfig, roots: Seq<RootDirState>)
    requires
        violation(cfg, roots) is None,
        cfg.has_client_fields(),
    ensures
        cfg.server_node_id matches Some(id) && id@.len() > 0,
        cfg.group_token matches Some(token) && token@.len() > 0,
        all_distinct(cfg.expose_names()),
        all_distinct(cfg.static_names()),
        all_distinct(cfg.consume_names()),
        forall|i: int|
            0 <= i < cfg.consume_names().len() ==> !cfg.expose_names().contains(
                #[trigger] cfg.consume_names()[i],
            ) && !cfg.static_names().contains(cfg.consume_names()[i]),
        forall|i: int|
            0 <= i < cfg.expose_names().len() ==> !cfg.static_names().contains(
                #[trigger] cfg.expose_names()[i],
            ),
{
    let exposed = cfg.expose_names();
    let consumed = cfg.consume_names();
    let files = cfg.static_names();
    lemma_no_repeat(exposed);
    lemma_no_repeat(consumed);
    lemma_no_repeat(files);
    let p = |i: int| (exposed + files).contains(consumed[i]);
    let q = |i: int| files.contains(exposed[i]);
    lemma_first_index(0, consumed.len() as int, p);
    lemma_first_index(0, exposed.len() as int, q);
    assert forall|i: int| 0 <= i < consumed.len() implies !exposed.contains(
        #[trigger] consumed[i],
    ) && !files.contains(consumed[i]) by {
        assert(!p(i));
        if exposed.contains(consumed[i]) {
            let k = exposed.index_of(consumed[i]);
            assert((exposed + files)[k] == consumed[i]);
        }
        if files.contains(consumed[i]) {
            let k = files.index_of(consumed[i]);
            assert((exposed + files)[exposed.len() + k] == consumed[i]);
        }
    }
    assert forall|i: int| 0 <= i < exposed.len() implies !files.contains(
        #[trigger] exposed[i],
    ) by {
        assert(!q(i));
    }
}

/// In a valid client configuration every service has a valid name and a secret,
/// and every static service a root directory.
pub proof fn law_valid_client_entries(cfg: RootConfig, roots: Seq<RootDirState>)
    requires
        violation(cfg, roots) is None,
        cfg.has_client_fields(),
    ensures
        forall|i: int|
            0 <= i < cfg.expose@.len() ==> crate::alpn::is_service_name(
                (#[trigger] cfg.expose@[i]).name@,
            ) && cfg.expose@[i].shared_secret@.len() > 0,
        forall|i: int|
            0 <= i < cfg.consume@.len() ==> crate::alpn::is_service_name(
                (#[trigger] cfg.consume@[i]).name@,
            ) && cfg.consume@[i].shared_secret@.len() > 0,
        forall|i: int|
            0 <= i < cfg.static_services@.len() ==> crate::alpn::is_service_name(
                (#[trigger] cfg.static_services@[i]).name@,
            ) && cfg.static_services@[i].shared_secret@.len() > 0 && root_state(roots, i)
                == RootDirState::Directory,
{
    let p = |i: int| expose_violation(cfg, i) is Some;
    let q = |i: int| static_violation(cfg, roots, i) is Some;
    let t = |i: int| consume_violation(cfg, i) is Some;
    lemma_first_index(0, cfg.expose@.len() as int, p);
    lemma_first_index(0, cfg.static_services@.len() as int, q);
    lemma_first_index(0, cfg.consume@.len() as int, t);
    assert forall|i: int| 0 <= i < cfg.expose@.len() implies crate::alpn::is_service_name(
        (#[trigger] cfg.expose@[i]).name@,
    ) && cfg.expose@[i].shared_secret@.len() > 0 by {
        assert(!p(i));
    }
    assert forall|i: int| 0 <= i < cfg.consume@.len() implies crate::alpn::is_service_name(
        (#[trigger] cfg.consume@[i]).name@,
    ) && cfg.consume@[i].shared_secret@.len() > 0 by {
        assert(!t(i));
    }
    assert forall|i: int| 0 <= i < cfg.static_services@.len() implies crate::alpn::is_service_name(
        (#[trigger] cfg.static_services@[i]).name@,
    ) && cfg.static_services@[i].shared_secret@.len() > 0 && root_state(roots, i)
        == RootDirState::Directory by {
        assert(!q(i));
    }
}

proof fn lemma_no_repeat_where_distinct(names: Seq<Seq<char>>)
    requires
        forall|i: int, j: int|
            0 <= i < j < names.len() ==> #[trigger] names[i] != #[trigger] names[j],
    ensures
        first_repeat(names) is None,
{
    let p = |i: int| repeats(names, i);
    lemma_first_index(0, names.len() as int, p);
    if let Some(i) = first_repeat(names) {
        assert(p(i));
        let j = choose|j: int| 0 <= j < i && #[trigger] names[j] == names[i];
        assert(names[j] != names[i]);
    }
}

/// A configuration that defines no group is accepted exactly where it has no `[relay]`
/// section, names a server and a token that are not empty, gives every service a name
/// of its own, within its table and across the tables, that a service may have, and a
/// secret that is not empty, has a directory for every static service, and logs at a
/// known level.
pub proof fn law_client_config_is_accepted(cfg: RootConfig, roots: Seq<RootDirState>)
    requires
        cfg.groups@.len() == 0,
    ensures
        violation(cfg, roots) is None <==> {
            &&& cfg.relay is None
            &&& cfg.server_node_id is Some && cfg.server_node_id->0@.len() > 0
            &&& cfg.group_token is Some && cfg.group_token->0@.len() > 0
            &&& forall|i: int, j: int|
                0 <= i < j < cfg.expose@.len() ==> (#[trigger] cfg.expose@[i]).name@ != (
                #[trigger] cfg.expose@[j]).name@
            &&& forall|i: int, j: int|
                0 <= i < j < cfg.static_services@.len() ==> (
                #[trigger] cfg.static_services@[i]).name@ != (
                #[trigger] cfg.static_services@[j]).name@
            &&& forall|i: int, j: int|
                0 <= i < j < cfg.consume@.len() ==> (#[trigger] cfg.consume@[i]).name@ != (
                #[trigger] cfg.consume@[j]).name@
            &&& forall|i: int, j: int|
                0 <= i < cfg.expose@.len() && 0 <= j < cfg.consume@.len() ==> (
                #[trigger] cfg.expose@[i]).name@ != (#[trigger] cfg.consume@[j]).name@
            &&& forall|i: int, j: int|
                0 <= i < cfg.static_services@.len() && 0 <= j < cfg.consume@.len() ==> (
                #[trigger] cfg.static_services@[i]).name@ != (#[trigger] cfg.consume@[j]).name@
            &&& forall|i: int, j: int|
                0 <= i < cfg.expose@.len() && 0 <= j < cfg.static_services@.len() ==> (
                #[trigger] cfg.expose@[i]).name@ != (#[trigger] cfg.static_services@[j]).name@
            &&& forall|i: int|
                0 <= i < cfg.expose@.len() ==> crate::alpn::is_service_name(
                    (#[trigger] cfg.expose@[i]).name@,
                ) && cfg.expose@[i].shared_secret@.len() > 0
            &&& forall|i: int|
                0 <= i < cfg.consume@.len() ==> crate::alpn::is_service_name(
                    (#[trigger] cfg.consume@[i]).name@,
                ) && cfg.consume@[i].shared_secret@.len() > 0
            &&& forall|i: int|
                0 <= i < cfg.static_services@.len() ==> crate::alpn::is_service_name(
                    (#[trigger] cfg.static_services@[i]).name@,
                ) && cfg.static_services@[i].shared_secret@.len() > 0 && i < roots.len()
                    && roots[i] is Directory
            &&& {
                let level = cfg.common.logging.level@;
                level == "trace"@ || level == "debug"@ || level == "info"@ || level == "warn"@
                    || level == "error"@
            }
        },
{
    let exposed = cfg.expose_names();
    let consumed = cfg.consume_names();
    let files = cfg.static_names();
    let p = |i: int| (exposed + files).contains(consumed[i]);
    let q = |i: int| files.contains(exposed[i]);
    let a = |i: int| expose_violation(cfg, i) is Some;
    let b = |i: int| static_violation(cfg, roots, i) is Some;
    let c = |i: int| consume_violation(cfg, i) is Some;
    if violation(cfg, roots) is None {
        law_valid_client_names(cfg, roots);
        law_valid_client_entries(cfg, roots);
        assert forall|i: int, j: int| 0 <= i < j < cfg.expose@.len() implies (
        #[trigger] cfg.expose@[i]).name@ != (#[trigger] cfg.expose@[j]).name@ by {
            assert(exposed[i] != exposed[j]);
        }
        assert forall|i: int, j: int| 0 <= i < j < cfg.static_services@.len() implies (
        #[trigger] cfg.static_services@[i]).name@ != (
        #[trigger] cfg.static_services@[j]).name@ by {
            assert(files[i] != files[j]);
        }
        assert forall|i: int, j: int| 0 <= i < j < cfg.consume@.len() implies (
        #[trigger] cfg.consume@[i]).name@ != (#[trigger] cfg.consume@[j]).name@ by {
            assert(consumed[i] != consumed[j]);
        }
        assert forall|i: int, j: int|
            0 <= i < cfg.expose@.len() && 0 <= j < cfg.consume@.len() implies (
        #[trigger] cfg.expose@[i]).name@ != (#[trigger] cfg.consume@[j]).name@ by {
            assert(!exposed.contains(consumed[j]));
            assert(exposed[i] == cfg.expose@[i].name@);
        }
        assert forall|i: int, j: int|
            0 <= i < cfg.static_services@.len() && 0 <= j < cfg.consume@.len() implies (
        #[trigger] cfg.static_services@[i]).name@ != (#[trigger] cfg.consume@[j]).name@ by {
            assert(!files.contains(consumed[j]));
            assert(files[i] == cfg.static_services@[i].name@);
        }
        assert forall|i: int, j: int|
            0 <= i < cfg.expose@.len() && 0 <= j < cfg.static_services@.len() implies (
        #[trigger] cfg.expose@[i]).name@ != (#[trigger] cfg.static_services@[j]).name@ by {
            assert(!files.contains(exposed[i]));
            assert(files[j] == cfg.static_services@[j].name@);
        }
    } else {
        lemma_first_index(0, consumed.len() as int, p);
        lemma_first_index(0, exposed.len() as int, q);
        lemma_first_index(0, cfg.expose@.len() as int, a);
        lemma_first_index(0, cfg.static_services@.len() as int, b);
        lemma_first_index(0, cfg.consume@.len() as int, c);
        if forall|i: int, j: int|
            0 <= i < j < cfg.expose@.len() ==> (#[trigger] cfg.expose@[i]).name@ != (
            #[trigger] cfg.expose@[j]).name@ {
            assert forall|i: int, j: int| 0 <= i < j < exposed.len() implies #[trigger] exposed[i]
                != #[trigger] exposed[j] by {
                assert(cfg.expose@[i].name@ != cfg.expose@[j].name@);
            }
            lemma_no_repeat_where_distinct(exposed);
        }
        if forall|i: int, j: int|
            0 <= i < j < cfg.static_services@.len() ==> (#[trigger] cfg.static_services@[i]).name@
                != (#[trigger] cfg.static_services@[j]).name@ {
            assert forall|i: int, j: int| 0 <= i < j < files.len() implies #[trigger] files[i]
                != #[trigger] files[j] by {
                assert(cfg.static_services@[i].name@ != cfg.static_services@[j].name@);
            }
            lemma_no_repeat_where_distinct(files);
        }
        if forall|i: int, j: int|
            0 <= i < j < cfg.consume@.len() ==> (#[trigger] cfg.consume@[i]).name@ != (
            #[trigger] cfg.consume@[j]).name@ {
            assert forall|i: int, j: int| 0 <= i < j < consumed.len() implies #[trigger] consumed[i]
                != #[trigger] consumed[j] by {
                assert(cfg.consume@[i].name@ != cfg.consume@[j].name@);
            }
            lemma_no_repeat_where_distinct(consumed);
        }
        if let Some(j) = first_shared(consumed, exposed + files) {
            assert(p(j));
            let k = (exposed + files).index_of(consumed[j]);
            assert((exposed + files)[k] == consumed[j]);
            assert(consumed[j] == cfg.consume@[j].name@);
            if k < exposed.len() {
                assert(exposed[k] == cfg.expose@[k].name@);
            } else {
                assert(files[k - exposed.len()] == cfg.static_services@[k - exposed.len()].name@);
            }
        }
        if let Some(i) = first_shared(exposed, files) {
            assert(q(i));
            let k = files.index_of(exposed[i]);
            assert(files[k] == exposed[i]);
            assert(exposed[i] == cfg.expose@[i].name@);
            assert(files[k] == cfg.static_services@[k].name@);
        }
    }
}

/// A configuration that defines a group is accepted exactly where it has nothing of a
/// client, its groups have names of their own and tokens that are not empty, every
/// override names an endpoint of its own, and it logs at a known level.
pub proof fn law_server_config_is_accepted(cfg: RootConfig, roots: Seq<RootDirState>)
    requires
        cfg.groups@.len() > 0,
    ensures
        violation(cfg, roots) is None <==> {
            &&& cfg.server_node_id is None && cfg.group_token is None
            &&& cfg.expose@.len() == 0 && cfg.static_services@.len() == 0 && cfg.consume@.len()
                == 0
            &&& forall|i: int, j: int|
                0 <= i < j < cfg.groups@.len() ==> (#[trigger] cfg.groups@[i]).name@ != (
                #[trigger] cfg.groups@[j]).name@
            &&& forall|i: int|
                0 <= i < cfg.groups@.len() ==> (#[trigger] cfg.groups@[i]).group_token@.len() > 0
            &&& cfg.relay matches Some(r) ==> {
                &&& forall|i: int|
                    0 <= i < r.rate_overrides@.len() ==> endpoint_id(
                        (#[trigger] r.rate_overrides@[i]).node_id@,
                    ) is Some
                &&& forall|i: int, j: int|
                    0 <= i < j < r.rate_overrides@.len() ==> endpoint_id(
                        (#[trigger] r.rate_overrides@[i]).node_id@,
                    ) != endpoint_id((#[trigger] r.rate_overrides@[j]).node_id@)
            }
            &&& {
                let level = cfg.common.logging.level@;
                level == "trace"@ || level == "debug"@ || level == "info"@ || level == "warn"@
                    || level == "error"@
            }
        },
{
    let rows = cfg.overrides();
    let names = cfg.group_names();
    let p = |i: int| group_violation(cfg, i) is Some;
    let q = |i: int| override_violation(rows, i) is Some;
    lemma_first_index(0, cfg.groups@.len() as int, p);
    lemma_first_index(0, rows.len() as int, q);
    if violation(cfg, roots) is None {
        law_valid_server_config(cfg, roots);
        assert forall|i: int, j: int| 0 <= i < j < cfg.groups@.len() implies (
        #[trigger] cfg.groups@[i]).name@ != (#[trigger] cfg.groups@[j]).name@ by {
            assert(names[i] != names[j]);
        }
        if let Some(r) = cfg.relay {
            assert(rows == r.rate_overrides@);
        }
    } else {
        if let Some(i) = first_index(0, cfg.groups@.len() as int, p) {
            assert(p(i));
            if repeats(names, i) {
                let j = choose|j: int| 0 <= j < i && #[trigger] names[j] == names[i];
                assert(cfg.groups@[j].name@ == cfg.groups@[i].name@);
            }
        }
        if let Some(i) = first_index(0, rows.len() as int, q) {
            assert(q(i));
            assert(cfg.relay is Some && cfg.relay->0.rate_overrides@ == rows);
            if endpoint_id(rows[i].node_id@) is Some {
                let j = choose|j: int|
                    0 <= j < i && endpoint_id((#[trigger] rows[j]).node_id@) == endpoint_id(
                        rows[i].node_id@,
                    );
                assert(endpoint_id(cfg.relay->0.rate_overrides@[j].node_id@) == endpoint_id(
                    cfg.relay->0.rate_overrides@[i].node_id@,
                ));
            }
        }
    }
}

/// The rule that is reported is broken: the roles are mixed or none is there, the names
/// that are called double stand twice, what is called empty or missing is so, and the
/// names, ids and levels that are called bad are not accepted.
pub proof fn law_reported_rule_is_broken(cfg: RootConfig, roots: Seq<RootDirState>)
    ensures
        match violation(cfg, roots) {
            None => true,
            Some(Violation::MixedRoles) => cfg.groups@.len() > 0 && (cfg.server_node_id is Some
                || cfg.group_token is Some || cfg.expose@.len() > 0 || cfg.static_services@.len()
                > 0 || cfg.consume@.len() > 0),
            Some(Violation::NoRole) => cfg.groups@.len() == 0 && cfg.server_node_id is None
                && cfg.expose@.len() == 0 && cfg.consume@.len() == 0,
            Some(Violation::DuplicateGroup { name }) => exists|i: int, j: int|
                0 <= i < j < cfg.groups@.len() && (#[trigger] cfg.groups@[i]).name@ == name && (
                #[trigger] cfg.groups@[j]).name@ == name,
            Some(Violation::EmptyGroupToken { name }) => exists|i: int|
                0 <= i < cfg.groups@.len() && (#[trigger] cfg.groups@[i]).name@ == name
                    && cfg.groups@[i].group_token@.len() == 0,
            Some(Violation::BadOverrideId { index, node_id }) => cfg.relay is Some && index
                < cfg.relay->0.rate_overrides@.len()
                && cfg.relay->0.rate_overrides@[index as int].node_id@ == node_id && endpoint_id(
                node_id,
            ) is None,
            Some(Violation::DuplicateOverride { index, node_id }) => cfg.relay is Some && index
                < cfg.relay->0.rate_overrides@.len()
                && cfg.relay->0.rate_overrides@[index as int].node_id@ == node_id && exists|j: int|
                0 <= j < index && endpoint_id(
                    (#[trigger] cfg.relay->0.rate_overrides@[j]).node_id@,
                ) == endpoint_id(node_id),
            Some(Violation::RelayInClient) => cfg.groups@.len() == 0 && cfg.relay is Some,
            Some(Violation::MissingServerNodeId) => cfg.server_node_id is None,
            Some(Violation::EmptyServerNodeId) => cfg.server_node_id matches Some(id) && id@.len()
                == 0,
            Some(Violation::MissingClientToken) => cfg.group_token is None,
            Some(Violation::EmptyClientToken) => cfg.group_token matches Some(token) && token@.len()
                == 0,
            Some(Violation::DuplicateService { table, name }) => match table {
                Table::Expose => exists|i: int, j: int|
                    0 <= i < j < cfg.expose@.len() && (#[trigger] cfg.expose@[i]).name@ == name && (
                    #[trigger] cfg.expose@[j]).name@ == name,
                Table::Static => exists|i: int, j: int|
                    0 <= i < j < cfg.static_services@.len() && (
                    #[trigger] cfg.static_services@[i]).name@ == name && (
                    #[trigger] cfg.static_services@[j]).name@ == name,
                Table::Consume => exists|i: int, j: int|
                    0 <= i < j < cfg.consume@.len() && (#[trigger] cfg.consume@[i]).name@ == name
                        && (#[trigger] cfg.consume@[j]).name@ == name,
            },
            Some(Violation::PublishedAndConsumed { name }) => cfg.consume_names().contains(name)
                && (cfg.expose_names().contains(name) || cfg.static_names().contains(name)),
            Some(Violation::ExposedAndStatic { name }) => cfg.expose_names().contains(name)
                && cfg.static_names().contains(name),
            Some(Violation::BadServiceName { table, name, fault }) => name_fault(name) == Some(
                fault,
            ) && match table {
                Table::Expose => cfg.expose_names().contains(name),
                Table::Static => cfg.static_names().contains(name),
                Table::Consume => cfg.consume_names().contains(name),
            },
            Some(Violation::EmptySecret { table, name }) => match table {
                Table::Expose => exists|i: int|
                    0 <= i < cfg.expose@.len() && (#[trigger] cfg.expose@[i]).name@ == name
                        && cfg.expose@[i].shared_secret@.len() == 0,
                Table::Static => exists|i: int|
                    0 <= i < cfg.static_services@.len() && (
                    #[trigger] cfg.static_services@[i]).name@ == name
                        && cfg.static_services@[i].shared_secret@.len() == 0,
                Table::Consume => exists|i: int|
                    0 <= i < cfg.consume@.len() && (#[trigger] cfg.consume@[i]).name@ == name
                        && cfg.consume@[i].shared_secret@.len() == 0,
            },
            Some(Violation::RootMissing { name, root_dir }) => exists|i: int|
                0 <= i < cfg.static_services@.len() && (#[trigger] cfg.static_services@[i]).name@
                    == name && cfg.static_services@[i].root_dir@ == root_dir && (i >= roots.len()
                    || roots[i] is Missing),
            Some(Violation::RootNotADirectory { name, root_dir }) => exists|i: int|
                0 <= i < cfg.static_services@.len() && (#[trigger] cfg.static_services@[i]).name@
                    == name && cfg.static_services@[i].root_dir@ == root_dir && i < roots.len()
                    && roots[i] is NotADirectory,
            Some(Violation::UnknownLogLevel { level }) => level == cfg.common.logging.level@
                && level != "trace"@ && level != "debug"@ && level != "info"@ && level != "warn"@
                && level != "error"@,
        },
{
    let exposed = cfg.expose_names();
    let consumed = cfg.consume_names();
    let files = cfg.static_names();
    let rows = cfg.overrides();
    let names = cfg.group_names();
    let both = exposed + files;
    let p = |i: int| both.contains(consumed[i]);
    let q = |i: int| files.contains(exposed[i]);
    let a = |i: int| expose_violation(cfg, i) is Some;
    let b = |i: int| static_violation(cfg, roots, i) is Some;
    let c = |i: int| consume_violation(cfg, i) is Some;
    let g = |i: int| group_violation(cfg, i) is Some;
    let o = |i: int| override_violation(rows, i) is Some;
    lemma_first_index(0, consumed.len() as int, p);
    lemma_first_index(0, exposed.len() as int, q);
    lemma_first_index(0, cfg.expose@.len() as int, a);
    lemma_first_index(0, cfg.static_services@.len() as int, b);
    lemma_first_index(0, cfg.consume@.len() as int, c);
    lemma_first_index(0, cfg.groups@.len() as int, g);
    lemma_first_index(0, rows.len() as int, o);
    lemma_first_index(0, exposed.len() as int, |i: int| repeats(exposed, i));
    lemma_first_index(0, files.len() as int, |i: int| repeats(files, i));
    lemma_first_index(0, consumed.len() as int, |i: int| repeats(consumed, i));
    if let Some(i) = first_repeat(exposed) {
        let j = choose|j: int| 0 <= j < i && #[trigger] exposed[j] == exposed[i];
        assert(cfg.expose@[j].name@ == exposed[i] && cfg.expose@[i].name@ == exposed[i]);
    }
    if let Some(i) = first_repeat(files) {
        let j = choose|j: int| 0 <= j < i && #[trigger] files[j] == files[i];
        assert(cfg.static_services@[j].name@ == files[i] && cfg.static_services@[i].name@
            == files[i]);
    }
    if let Some(i) = first_repeat(consumed) {
        let j = choose|j: int| 0 <= j < i && #[trigger] consumed[j] == consumed[i];
        assert(cfg.consume@[j].name@ == consumed[i] && cfg.consume@[i].name@ == consumed[i]);
    }
    if let Some(i) = first_index(0, cfg.groups@.len() as int, g) {
        assert(cfg.groups@[i].name@ == names[i]);
        if repeats(names, i) {
            let j = choose|j: int| 0 <= j < i && #[trigger] names[j] == names[i];
            assert(cfg.groups@[j].name@ == names[i]);
        }
    }
    if let Some(i) = first_shared(consumed, both) {
        let k = both.index_of(consumed[i]);
        assert(both[k] == consumed[i]);
        if k < exposed.len() {
            assert(exposed[k] == consumed[i]);
        } else {
            assert(files[k - exposed.len()] == consumed[i]);
        }
    }
    if let Some(i) = first_index(0, cfg.expose@.len() as int, a) {
        assert(exposed[i] == cfg.expose@[i].name@);
    }
    if let Some(i) = first_index(0, cfg.static_services@.len() as int, b) {
        assert(files[i] == cfg.static_services@[i].name@);
    }
    if let Some(i) = first_index(0, cfg.consume@.len() as int, c) {
        assert(consumed[i] == cfg.consume@[i].name@);
    }
}

/// The roles come first, then a client's `[relay]` section, its server and its token.
pub proof fn law_roles_and_credentials_come_first(cfg: RootConfig, roots: Seq<RootDirState>)
    ensures
        ({
            let v = violation(cfg, roots);
            let client = cfg.server_node_id is Some || cfg.expose@.len() > 0 || cfg.consume@.len()
                > 0;
            &&& cfg.groups@.len() > 0 && (client || cfg.group_token is Some
                || cfg.static_services@.len() > 0) ==> v == Some(Violation::MixedRoles)
            &&& cfg.groups@.len() == 0 && !client ==> v == Some(Violation::NoRole)
            &&& cfg.groups@.len() == 0 && client && cfg.relay is Some ==> v == Some(
                Violation::RelayInClient,
            )
            &&& cfg.groups@.len() == 0 && client && cfg.relay is None ==> {
                &&& cfg.server_node_id is None ==> v == Some(Violation::MissingServerNodeId)
                &&& cfg.server_node_id matches Some(id) ==> {
                    &&& id@.len() == 0 ==> v == Some(Violation::EmptyServerNodeId)
                    &&& id@.len() > 0 && cfg.group_token is None ==> v == Some(
                        Violation::MissingClientToken,
                    )
                    &&& id@.len() > 0 && cfg.group_token is Some && cfg.group_token->0@.len() == 0
                        ==> v == Some(Violation::EmptyClientToken)
                }
            }
        }),
{
}

/// The message of a broken rule holds what it is about: the name, the row's index and
/// id, the directory, the level, and for a service the table that it stands in.
pub proof fn law_message_names_the_offender(v: Violation)
    ensures
        ({
            let m = violation_message(v);
            match v {
                Violation::DuplicateGroup { name } | Violation::EmptyGroupToken { name }
                | Violation::PublishedAndConsumed { name } | Violation::ExposedAndStatic {
                    name,
                } => crate::text::contains_seq(m, quoted(name)),
                Violation::BadOverrideId { index, node_id }
                | Violation::DuplicateOverride { index, node_id } => crate::text::contains_seq(
                    m,
                    "["@ + decimal(index) + "]"@,
                ) && crate::text::contains_seq(m, quoted(node_id)),
                Violation::DuplicateService { table, name } => crate::text::contains_seq(
                    m,
                    quoted(name) + " in [["@ + table_name(table) + "]]"@,
                ),
                Violation::BadServiceName { table, name, fault } => crate::text::contains_seq(
                    m,
                    table_name(table) + " "@ + quoted(name),
                ) && crate::text::contains_seq(m, fault_message(fault)),
                Violation::EmptySecret { table, name } => crate::text::contains_seq(
                    m,
                    table_name(table) + " "@ + quoted(name),
                ),
                Violation::RootMissing { name, root_dir }
                | Violation::RootNotADirectory { name, root_dir } => crate::text::contains_seq(
                    m,
                    quoted(name) + ": root_dir "@ + quoted(root_dir),
                ),
                Violation::UnknownLogLevel { level } => crate::text::contains_seq(
                    m,
                    quoted(level),
                ),
                _ => true,
            }
        }),
        table_name(Table::Expose) == "expose"@,
        table_name(Table::Static) == "static"@,
        table_name(Table::Consume) == "consume"@,
{
    let m = violation_message(v);
    reveal_strlit("");
    match v {
        Violation::DuplicateGroup { name } => {
            crate::text::lemma_middle_is_contained("duplicate group name: "@, quoted(name), ""@);
        },
        Violation::EmptyGroupToken { name } => {
            crate::text::lemma_middle_is_contained("group "@, quoted(name), ": group_token is empty"@);
        },
        Violation::PublishedAndConsumed { name } => {
            crate::text::lemma_middle_is_contained(
                "service "@,
                quoted(name),
                " appears in both [[expose]] or [[static]] and [[consume]]"@,
            );
        },
        Violation::ExposedAndStatic { name } => {
            crate::text::lemma_middle_is_contained(
                "service "@,
                quoted(name),
                " appears in both [[expose]] and [[static]]"@,
            );
        },
        Violation::BadOverrideId { index, node_id } => {
            lemma_override_message(
                index,
                "].node_id "@,
                node_id,
                " is not a valid EndpointID (expected canonical z-base32 or 64-char hex)"@,
            );
        },
        Violation::DuplicateOverride { index, node_id } => {
            lemma_override_message(index, "]: duplicate node_id "@, node_id, ""@);
            assert(m + ""@ =~= m);
        },
        Violation::DuplicateService { table, name } => {
            let mid = quoted(name) + " in [["@ + table_name(table) + "]]"@;
            assert(m =~= "duplicate service name "@ + mid);
            crate::text::lemma_middle_is_contained("duplicate service name "@, mid, ""@);
        },
        Violation::BadServiceName { table, name, fault } => {
            let mid = table_name(table) + " "@ + quoted(name);
            let tail = ": "@ + fault_message(fault);
            assert(m =~= ""@ + mid + tail);
            crate::text::lemma_middle_is_contained(""@, mid, tail);
            crate::text::lemma_middle_is_contained(mid + ": "@, fault_message(fault), ""@);
        },
        Violation::EmptySecret { table, name } => {
            let mid = table_name(table) + " "@ + quoted(name);
            assert(m =~= ""@ + mid + ": shared_secret is empty"@);
            crate::text::lemma_middle_is_contained(""@, mid, ": shared_secret is empty"@);
        },
        Violation::RootMissing { name, root_dir } => {
            let mid = quoted(name) + ": root_dir "@ + quoted(root_dir);
            assert(m =~= "static "@ + mid + " does not exist"@);
            crate::text::lemma_middle_is_contained("static "@, mid, " does not exist"@);
        },
        Violation::RootNotADirectory { name, root_dir } => {
            let mid = quoted(name) + ": root_dir "@ + quoted(root_dir);
            assert(m =~= "static "@ + mid + " is not a directory"@);
            crate::text::lemma_middle_is_contained("static "@, mid, " is not a directory"@);
        },
        Violation::UnknownLogLevel { level } => {
            crate::text::lemma_middle_is_contained("unknown logging.level: "@, quoted(level), ""@);
        },
        _ => {},
    }
}

proof fn lemma_override_message(
    index: nat,
    lead: Seq<char>,
    node_id: Seq<char>,
    tail: Seq<char>,
)
    requires
        lead == "].node_id "@ || lead == "]: duplicate node_id "@,
    ensures
        ({
            let m = "relay.rate_override["@ + decimal(index) + lead + quoted(node_id) + tail;
            &&& crate::text::contains_seq(m, "["@ + decimal(index) + "]"@)
            &&& crate::text::contains_seq(m, quoted(node_id))
        }),
{
    reveal_strlit("relay.rate_override[");
    reveal_strlit("relay.rate_override");
    reveal_strlit("[");
    reveal_strlit("]");
    reveal_strlit("].node_id ");
    reveal_strlit("]: duplicate node_id ");
    let m = "relay.rate_override["@ + decimal(index) + lead + quoted(node_id) + tail;
    assert("relay.rate_override["@ =~= "relay.rate_override"@ + "["@);
    assert(lead[0] == ']');
    assert(lead =~= "]"@ + lead.skip(1));
    let mid = "["@ + decimal(index) + "]"@;
    let rest = lead.skip(1) + quoted(node_id) + tail;
    assert(m =~= "relay.rate_override"@ + mid + rest);
    crate::text::lemma_middle_is_contained("relay.rate_override"@, mid, rest);
    crate::text::lemma_middle_is_contained(
        "relay.rate_override["@ + decimal(index) + lead,
        quoted(node_id),
        tail,
    );
}

} // verus!
