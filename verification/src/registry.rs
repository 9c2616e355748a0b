//! In-memory registry of groups, sessions, services and relay streams.
//!
//! Sessions, services and relay rates live in `dashmap` tables. Every change
//! goes through `&mut self`; a program with several tasks shares the registry
//! behind a lock of its own. Times are milliseconds on one monotonic clock.
use crate::config::GroupConfig;
use crate::endpoint::{id_option, same_id, EndpointId};
use crate::ratelimit::RateLimitHandle;
use crate::text::same_text;
use dashmap::DashMap;
use vstd::prelude::*;
use vstd::utf8::encode_utf8;

verus! {

/// A concurrent hash table of the crate `dashmap`.
#[verifier::external_type_specification]
#[verifier::external_body]
#[verifier::reject_recursive_types(K)]
#[verifier::reject_recursive_types(V)]
#[verifier::reject_recursive_types(S)]
pub struct ExDashMap<K, V, S>(DashMap<K, V, S>);

/// A client's control session.
#[derive(Debug, Clone, Copy)]
pub struct Session {
    /// When the client was last heard of.
    pub last_heartbeat: u64,
}

/// Who provides a service.
#[derive(Debug, Clone, Copy)]
pub struct ServiceRecord {
    pub provider_id: EndpointId,
}

// ---------------------------------------------------------------------------
// Tables
// ---------------------------------------------------------------------------

/// What a table of sessions holds: for each client the last heartbeat.
pub uninterp spec fn session_map(m: DashMap<EndpointId, Session>) -> Map<Seq<u8>, u64>;

/// What a table of services holds: for each name the provider.
pub uninterp spec fn service_map(m: DashMap<String, ServiceRecord>) -> Map<Seq<char>, Seq<u8>>;

/// What a table of relay rates holds: for each stream its cap.
pub uninterp spec fn rate_map(m: DashMap<u64, RateLimitHandle>) -> Map<u64, u64>;

/// `DashMap::new` makes an empty table.
#[verifier::external_body]
fn sessions_new() -> (m: DashMap<EndpointId, Session>)
    ensures
        (session_map(m) == Map::<Seq<u8>, u64>::empty()),
{
    DashMap::new()
}

/// `DashMap::insert` sets the value under a key.
#[verifier::external_body]
fn sessions_insert(m: &mut DashMap<EndpointId, Session>, id: EndpointId, session: Session)
    ensures
        session_map(*final(m)) == session_map(*old(m)).insert(id@, session.last_heartbeat),
{
    m.insert(id, session);
}

/// `DashMap::remove` takes a key out, where it is there.
#[verifier::external_body]
fn sessions_remove(m: &mut DashMap<EndpointId, Session>, id: &EndpointId)
    ensures
        session_map(*final(m)) == session_map(*old(m)).remove(id@),
{
    m.remove(id);
}

/// `DashMap::len` counts the keys.
#[verifier::external_body]
fn sessions_len(m: &DashMap<EndpointId, Session>) -> (n: usize)
    ensures
        n == session_map(*m).len(),
{
    m.len()
}

/// `entries` lists what a table of sessions holds, each key once.
pub open spec fn lists_sessions(
    entries: Seq<(EndpointId, Session)>,
    m: Map<Seq<u8>, u64>,
) -> bool {
    &&& forall|i: int|
        0 <= i < entries.len() ==> m.dom().contains((#[trigger] entries[i]).0@) && m[entries[i].0@]
            == entries[i].1.last_heartbeat
    &&& forall|id: Seq<u8>| #[trigger]
        m.dom().contains(id) ==> exists|i: int|
            0 <= i < entries.len() && (#[trigger] entries[i]).0@ == id
    &&& forall|i: int, j: int|
        0 <= i < j < entries.len() ==> (#[trigger] entries[i]).0@ != (#[trigger] entries[j]).0@
}

/// `DashMap::iter` walks over every entry once, in an order that is not fixed.
#[verifier::external_body]
fn sessions_entries(m: &DashMap<EndpointId, Session>) -> (entries: Vec<(EndpointId, Session)>)
    ensures
        lists_sessions(entries@, session_map(*m)),
{
    m.iter().map(|e| (*e.key(), *e.value())).collect()
}

/// `DashMap::new` makes an empty table.
#[verifier::external_body]
fn services_new() -> (m: DashMap<String, ServiceRecord>)
    ensures
        (service_map(m) == Map::<Seq<char>, Seq<u8>>::empty()),
{
    DashMap::new()
}

/// `DashMap::insert` sets the value under a key and returns the one that was
/// there before.
#[verifier::external_body]
fn services_insert(
    m: &mut DashMap<String, ServiceRecord>,
    name: String,
    record: ServiceRecord,
) -> (previous: Option<ServiceRecord>)
    ensures
        service_map(*final(m)) == service_map(*old(m)).insert(name@, record.provider_id@),
        previous is Some <==> service_map(*old(m)).dom().contains(name@),
        previous matches Some(p) ==> p.provider_id@ == service_map(*old(m))[name@],
{
    m.insert(name, record)
}

/// `DashMap::get` looks a key up.
#[verifier::external_body]
fn services_get(m: &DashMap<String, ServiceRecord>, name: &str) -> (found: Option<ServiceRecord>)
    ensures
        found is Some <==> service_map(*m).dom().contains(name@),
        found matches Some(p) ==> p.provider_id@ == service_map(*m)[name@],
{
    m.get(name).map(|e| *e.value())
}

/// `DashMap::remove` takes a key out, where it is there.
#[verifier::external_body]
fn services_remove(m: &mut DashMap<String, ServiceRecord>, name: &str)
    ensures
        service_map(*final(m)) == service_map(*old(m)).remove(name@),
{
    m.remove(name);
}

/// `entries` lists what a table of services holds, each key once.
pub open spec fn lists_services(
    entries: Seq<(String, ServiceRecord)>,
    m: Map<Seq<char>, Seq<u8>>,
) -> bool {
    &&& forall|i: int|
        0 <= i < entries.len() ==> m.dom().contains((#[trigger] entries[i]).0@) && m[entries[i].0@]
            == entries[i].1.provider_id@
    &&& forall|name: Seq<char>| #[trigger]
        m.dom().contains(name) ==> exists|i: int|
            0 <= i < entries.len() && (#[trigger] entries[i]).0@ == name
    &&& forall|i: int, j: int|
        0 <= i < j < entries.len() ==> (#[trigger] entries[i]).0@ != (#[trigger] entries[j]).0@
}

/// `DashMap::iter` walks over every entry once, in an order that is not fixed.
#[verifier::external_body]
fn services_entries(m: &DashMap<String, ServiceRecord>) -> (entries: Vec<(String, ServiceRecord)>)
    ensures
        lists_services(entries@, service_map(*m)),
{
    m.iter().map(|e| (e.key().clone(), *e.value())).collect()
}

/// `DashMap::new` makes an empty table.
#[verifier::external_body]
fn rates_new() -> (m: DashMap<u64, RateLimitHandle>)
    ensures
        (rate_map(m) == Map::<u64, u64>::empty()),
{
    DashMap::new()
}

/// `DashMap::insert` sets the value under a key.
#[verifier::external_body]
fn rates_insert(m: &mut DashMap<u64, RateLimitHandle>, stream_id: u64, handle: RateLimitHandle)
    ensures
        rate_map(*final(m)) == rate_map(*old(m)).insert(stream_id, handle.bytes_per_sec),
{
    m.insert(stream_id, handle);
}

/// `DashMap::remove` takes a key out, where it is there.
#[verifier::external_body]
fn rates_remove(m: &mut DashMap<u64, RateLimitHandle>, stream_id: u64)
    ensures
        rate_map(*final(m)) == rate_map(*old(m)).remove(stream_id),
{
    m.remove(&stream_id);
}

/// `DashMap::get` looks a key up.
#[verifier::external_body]
fn rates_get(m: &DashMap<u64, RateLimitHandle>, stream_id: u64) -> (found: Option<RateLimitHandle>)
    ensures
        found is Some <==> rate_map(*m).dom().contains(stream_id),
        found matches Some(h) ==> h.bytes_per_sec == rate_map(*m)[stream_id],
{
    m.get(&stream_id).map(|e| *e.value())
}

/// `entries` lists what a table of rates holds, each key once.
pub open spec fn lists_rates(entries: Seq<(u64, u64)>, m: Map<u64, u64>) -> bool {
    &&& forall|i: int|
        0 <= i < entries.len() ==> m.dom().contains((#[trigger] entries[i]).0) && m[entries[i].0]
            == entries[i].1
    &&& forall|id: u64| #[trigger]
        m.dom().contains(id) ==> exists|i: int|
            0 <= i < entries.len() && (#[trigger] entries[i]).0 == id
    &&& forall|i: int, j: int|
        0 <= i < j < entries.len() ==> (#[trigger] entries[i]).0 != (#[trigger] entries[j]).0
}

/// `DashMap::iter` walks over every entry once, in an order that is not fixed.
#[verifier::external_body]
fn rates_entries(m: &DashMap<u64, RateLimitHandle>) -> (entries: Vec<(u64, u64)>)
    ensures
        lists_rates(entries@, rate_map(*m)),
{
    m.iter().map(|e| (*e.key(), e.value().bytes_per_sec)).collect()
}

// ---------------------------------------------------------------------------
// Groups
// ---------------------------------------------------------------------------

/// A group of clients that share a token.
#[derive(Debug)]
pub struct Group {
    pub name: String,
    pub token: String,
    sessions: DashMap<EndpointId, Session>,
    services: DashMap<String, ServiceRecord>,
}

/// What a [`Group`] holds.
#[verifier::ext_equal]
pub struct GroupView {
    pub name: Seq<char>,
    pub token: Seq<char>,
    pub sessions: Map<Seq<u8>, u64>,
    pub services: Map<Seq<char>, Seq<u8>>,
}

impl View for Group {
    type V = GroupView;

    closed spec fn view(&self) -> GroupView {
        GroupView {
            name: self.name@,
            token: self.token@,
            sessions: session_map(self.sessions),
            services: service_map(self.services),
        }
    }
}

/// Reasons a service registration can be rejected.
#[derive(Debug, Clone, Copy, PartialEq, Eq, Structural)]
pub enum RegisterError {
    BadName,
}

impl RegisterError {
    /// The message for the client.
    pub fn message(&self) -> (text: &'static str)
        ensures
            text@ == "invalid service name"@,
    {
        "invalid service name"
    }
}

/// The longest service name that can be registered, in bytes.
pub const MAX_SERVICE_NAME: usize = 32;

impl GroupView {
    /// The group once `client` was heard of at `now`.
    pub open spec fn touched(self, client: Seq<u8>, now: u64) -> GroupView {
        GroupView { sessions: self.sessions.insert(client, now), ..self }
    }

    /// The group once `provider` has registered `service`.
    pub open spec fn registered(self, service: Seq<char>, provider: Seq<u8>) -> GroupView {
        GroupView { services: self.services.insert(service, provider), ..self }
    }

    /// Who provides `service`.
    pub open spec fn provider(self, service: Seq<char>) -> Option<Seq<u8>> {
        if self.services.dom().contains(service) {
            Some(self.services[service])
        } else {
            None
        }
    }

    /// The group without the session of `client` and without the services that
    /// it provides.
    pub open spec fn dropped(self, client: Seq<u8>) -> GroupView {
        GroupView {
            sessions: self.sessions.remove(client),
            services: Map::new(
                |s: Seq<char>| self.services.dom().contains(s) && self.services[s] != client,
                |s: Seq<char>| self.services[s],
            ),
            ..self
        }
    }

    /// The session of `client` was last heard of more than `timeout` ago.
    pub open spec fn is_stale(self, client: Seq<u8>, now: u64, timeout: u64) -> bool {
        self.sessions.dom().contains(client) && self.sessions[client] + timeout < now
    }

    /// The group without its stale sessions and without the services that their
    /// clients provide.
    pub open spec fn swept(self, now: u64, timeout: u64) -> GroupView {
        GroupView {
            sessions: Map::new(
                |c: Seq<u8>| self.sessions.dom().contains(c) && !self.is_stale(c, now, timeout),
                |c: Seq<u8>| self.sessions[c],
            ),
            services: Map::new(
                |s: Seq<char>|
                    self.services.dom().contains(s) && !self.is_stale(
                        self.services[s],
                        now,
                        timeout,
                    ),
                |s: Seq<char>| self.services[s],
            ),
            ..self
        }
    }
}

impl Group {
    /// A group without sessions and services.
    pub fn new(name: String, token: String) -> (g: Group)
        ensures
            g@ == (GroupView {
                name: name@,
                token: token@,
                sessions: Map::empty(),
                services: Map::empty(),
            }),
    {
        Group { name, token, sessions: sessions_new(), services: services_new() }
    }

    /// Registers a service. Where it was registered already, returns the
    /// provider that it had.
    pub fn register_service(&mut self, service: &str, provider: EndpointId) -> (r: Result<
        Option<EndpointId>,
        RegisterError,
    >)
        ensures
            match r {
                Ok(previous) => {
                    &&& encode_utf8(service@).len() <= MAX_SERVICE_NAME
                    &&& id_option(previous) == old(self)@.provider(service@)
                    &&& final(self)@ == old(self)@.registered(service@, provider@)
                },
                Err(RegisterError::BadName) => {
                    &&& encode_utf8(service@).len() > MAX_SERVICE_NAME
                    &&& final(self)@ == old(self)@
                },
            },
    {
        if service.as_bytes().len() > MAX_SERVICE_NAME {
            return Err(RegisterError::BadName);
        }
        let previous = services_insert(
            &mut self.services,
            service.to_owned(),
            ServiceRecord { provider_id: provider },
        );
        match previous {
            Some(record) => Ok(Some(record.provider_id)),
            None => Ok(None),
        }
    }

    /// The name of the group.
    pub fn name_text(&self) -> (name: String)
        ensures
            name@ == self@.name,
    {
        self.name.clone()
    }

    /// Looks up who provides `service`.
    pub fn lookup(&self, service: &str) -> (provider: Option<EndpointId>)
        ensures
            id_option(provider) == self@.provider(service@),
    {
        match services_get(&self.services, service) {
            Some(record) => Some(record.provider_id),
            None => None,
        }
    }

    /// Inserts or updates the session of `client`.
    pub fn touch_session(&mut self, client: EndpointId, now: u64)
        ensures
            final(self)@ == old(self)@.touched(client@, now),
    {
        sessions_insert(&mut self.sessions, client, Session { last_heartbeat: now });
    }

    /// The number of sessions.
    pub fn session_count(&self) -> (n: usize)
        ensures
            n == self@.sessions.len(),
    {
        sessions_len(&self.sessions)
    }

    /// Drops a session, and the services registered by it.
    pub fn drop_session(&mut self, client: EndpointId)
        ensures
            final(self)@ == old(self)@.dropped(client@),
    {
        let ghost before = self@;
        sessions_remove(&mut self.sessions, &client);
        let entries = services_entries(&self.services);
        let mut i: usize = 0;
        while i < entries.len()
            invariant
                i <= entries@.len(),
                lists_services(entries@, before.services),
                self@.name == before.name,
                self@.token == before.token,
                self@.sessions == before.sessions.remove(client@),
                forall|s: Seq<char>| #[trigger]
                    self@.services.dom().contains(s) <==> before.services.dom().contains(s) && !(
                    exists|j: int|
                        0 <= j < i && (#[trigger] entries@[j]).0@ == s
                            && entries@[j].1.provider_id@ == client@),
                forall|s: Seq<char>| #[trigger]
                    self@.services.dom().contains(s) ==> self@.services[s] == before.services[s],
            decreases entries.len() - i,
        {
            let ghost at = entries@[i as int];
            let ghost old_services = self@.services;
            if same_id(&entries[i].1.provider_id, &client) {
                services_remove(&mut self.services, entries[i].0.as_str());
                assert(self@.services == old_services.remove(at.0@));
            }
            i = i + 1;
            proof {
                assert forall|s: Seq<char>| #[trigger]
                    self@.services.dom().contains(s) <==> before.services.dom().contains(s) && !(
                    exists|j: int|
                        0 <= j < i && (#[trigger] entries@[j]).0@ == s
                            && entries@[j].1.provider_id@ == client@) by {
                    if s == at.0@ && at.1.provider_id@ == client@ {
                        assert(entries@[i - 1].0@ == s);
                    }
                    if old_services.dom().contains(s) && !self@.services.dom().contains(s) {
                        assert(entries@[i - 1].0@ == s);
                    }
                }
            }
        }
        proof {
            assert forall|s: Seq<char>| #[trigger]
                self@.services.dom().contains(s) <==> before.services.dom().contains(s)
                    && before.services[s] != client@ by {
                if before.services.dom().contains(s) {
                    let j = choose|j: int| 0 <= j < entries@.len() && (#[trigger] entries@[j]).0@ == s;
                    assert(before.services[entries@[j].0@] == entries@[j].1.provider_id@);
                }
            }
            assert(self@.services =~= before.dropped(client@).services);
            assert(self@ =~= before.dropped(client@));
        }
    }

    /// Drops the sessions whose last heartbeat is older than `timeout`, and the
    /// services registered by them.
    pub fn sweep(&mut self, now: u64, timeout: u64)
        ensures
            final(self)@ == old(self)@.swept(now, timeout),
    {
        let ghost before = self@;
        let entries = sessions_entries(&self.sessions);
        let mut i: usize = 0;
        while i < entries.len()
            invariant
                i <= entries@.len(),
                lists_sessions(entries@, before.sessions),
                self@.name == before.name,
                self@.token == before.token,
                forall|c: Seq<u8>| #[trigger]
                    self@.sessions.dom().contains(c) <==> before.sessions.dom().contains(c)
                        && !stale_before(entries@, i as int, c, now, timeout),
                forall|c: Seq<u8>| #[trigger]
                    self@.sessions.dom().contains(c) ==> self@.sessions[c] == before.sessions[c],
                forall|s: Seq<char>| #[trigger]
                    self@.services.dom().contains(s) <==> before.services.dom().contains(s)
                        && !stale_before(entries@, i as int, before.services[s], now, timeout),
                forall|s: Seq<char>| #[trigger]
                    self@.services.dom().contains(s) ==> self@.services[s] == before.services[s],
            decreases entries.len() - i,
        {
            let last: u64 = entries[i].1.last_heartbeat;
            let ghost id = entries@[i as int].0@;
            let ghost prior = self@;
            if now >= timeout && last < now - timeout {
                self.drop_session(entries[i].0);
                assert(self@ == prior.dropped(id));
            }
            i = i + 1;
            proof {
                let gone = last + timeout < now;
                assert forall|c: Seq<u8>| #[trigger]
                    stale_before(entries@, i as int, c, now, timeout) == (stale_before(
                        entries@,
                        i - 1,
                        c,
                        now,
                        timeout,
                    ) || (c == id && gone)) by {
                    if c == id && gone {
                        assert(entries@[i - 1].0@ == c);
                    }
                }
                assert forall|s: Seq<char>| #[trigger]
                    self@.services.dom().contains(s) <==> before.services.dom().contains(s)
                        && !stale_before(
                        entries@,
                        i as int,
                        before.services[s],
                        now,
                        timeout,
                    ) by {
                    assert(self@.services.dom().contains(s) <==> prior.services.dom().contains(s)
                        && !(gone && prior.services[s] == id));
                    if prior.services.dom().contains(s) {
                        assert(prior.services[s] == before.services[s]);
                    }
                }
            }
        }
        proof {
            assert forall|c: Seq<u8>| stale_before(
                entries@,
                entries@.len() as int,
                c,
                now,
                timeout,
            ) == before.is_stale(c, now, timeout) by {
                if before.is_stale(c, now, timeout) {
                    let j = choose|j: int| 0 <= j < entries@.len() && (#[trigger] entries@[j]).0@ == c;
                    assert(before.sessions[entries@[j].0@] == entries@[j].1.last_heartbeat);
                }
            }
            assert(self@.sessions =~= before.swept(now, timeout).sessions);
            assert(self@.services =~= before.swept(now, timeout).services);
            assert(self@ =~= before.swept(now, timeout));
        }
    }
}

/// `client` is among the first `n` entries, with a heartbeat that is too old.
spec fn stale_before(
    entries: Seq<(EndpointId, Session)>,
    n: int,
    client: Seq<u8>,
    now: u64,
    timeout: u64,
) -> bool {
    exists|j: int|
        0 <= j < n && (#[trigger] entries[j]).0@ == client && entries[j].1.last_heartbeat + timeout
            < now
}

// ---------------------------------------------------------------------------
// The server
// ---------------------------------------------------------------------------

/// Top-level server state.
#[derive(Debug)]
pub struct ServerState {
    groups: GroupTable,
    next_stream_id: u64,
    relay_rates: DashMap<u64, RateLimitHandle>,
    relay_rate_overrides: OverrideTable,
}

/// Groups with distinct names.
#[derive(Debug)]
struct GroupTable {
    list: Vec<Group>,
}

/// Overrides for distinct consumers.
#[derive(Debug)]
struct OverrideTable {
    list: Vec<(EndpointId, u64)>,
}

impl GroupTable {
    #[verifier::type_invariant]
    spec fn well_formed(self) -> bool {
        distinct_groups(group_views(self.list@))
    }
}

impl OverrideTable {
    #[verifier::type_invariant]
    spec fn well_formed(self) -> bool {
        distinct_ids(self.list@)
    }
}

/// What a [`ServerState`] holds.
#[verifier::ext_equal]
pub struct ServerView {
    /// The groups, in the order in which their names were first configured.
    pub groups: Seq<GroupView>,
    /// The id that the next relay stream gets.
    pub next_stream_id: u64,
    /// The caps of the active relay streams.
    pub relay_rates: Map<u64, u64>,
    /// The caps configured for single consumers; 0 means unlimited.
    pub overrides: Map<Seq<u8>, u64>,
}

/// The cap for `id` in a list of overrides: the last that is given for it.
pub open spec fn find_override(list: Seq<(EndpointId, u64)>, id: Seq<u8>) -> Option<u64>
    decreases list.len(),
{
    if list.len() == 0 {
        None
    } else if list.last().0@ == id {
        Some(list.last().1)
    } else {
        find_override(list.drop_last(), id)
    }
}

/// A list of overrides as a map.
pub open spec fn override_map(list: Seq<(EndpointId, u64)>) -> Map<Seq<u8>, u64> {
    Map::new(
        |id: Seq<u8>| find_override(list, id) is Some,
        |id: Seq<u8>| find_override(list, id)->0,
    )
}

/// The token of the group `name` in a list of configured groups: the last that is
/// given for it.
pub open spec fn configured_token(groups: Seq<GroupConfig>, name: Seq<char>) -> Option<Seq<char>>
    decreases groups.len(),
{
    if groups.len() == 0 {
        None
    } else if groups.last().name@ == name {
        Some(groups.last().group_token@)
    } else {
        configured_token(groups.drop_last(), name)
    }
}

/// The names of configured groups, each where it came first.
pub open spec fn configured_names(groups: Seq<GroupConfig>) -> Seq<Seq<char>>
    decreases groups.len(),
{
    if groups.len() == 0 {
        Seq::empty()
    } else {
        let front = configured_names(groups.drop_last());
        if front.contains(groups.last().name@) {
            front
        } else {
            front.push(groups.last().name@)
        }
    }
}

/// The names of groups.
pub open spec fn names_of(groups: Seq<GroupView>) -> Seq<Seq<char>> {
    groups.map_values(|g: GroupView| g.name)
}

/// The index of the group `name`.
pub open spec fn group_index(groups: Seq<GroupView>, name: Seq<char>) -> Option<int>
    decreases groups.len(),
{
    if groups.len() == 0 {
        None
    } else if groups.last().name == name {
        Some(groups.len() - 1)
    } else {
        group_index(groups.drop_last(), name)
    }
}

/// No two groups have the same name.
pub open spec fn distinct_groups(groups: Seq<GroupView>) -> bool {
    forall|i: int, j: int|
        0 <= i < j < groups.len() ==> (#[trigger] groups[i]).name != (#[trigger] groups[j]).name
}

/// No two overrides are for the same consumer.
pub open spec fn distinct_ids(list: Seq<(EndpointId, u64)>) -> bool {
    forall|i: int, j: int|
        0 <= i < j < list.len() ==> (#[trigger] list[i]).0@ != (#[trigger] list[j]).0@
}

/// Views a list of groups.
pub open spec fn group_views(groups: Seq<Group>) -> Seq<GroupView> {
    groups.map_values(|g: Group| g@)
}

impl View for ServerState {
    type V = ServerView;

    closed spec fn view(&self) -> ServerView {
        ServerView {
            groups: group_views(self.groups.list@),
            next_stream_id: self.next_stream_id,
            relay_rates: rate_map(self.relay_rates),
            overrides: override_map(self.relay_rate_overrides.list@),
        }
    }
}

impl ServerView {
    /// The index of the group `name`.
    pub open spec fn group(self, name: Seq<char>) -> Option<int> {
        group_index(self.groups, name)
    }

    /// Who provides `service` in the group `name`.
    pub open spec fn service(self, name: Seq<char>, service: Seq<char>) -> Option<Seq<u8>> {
        match self.group(name) {
            Some(i) => self.groups[i].provider(service),
            None => None,
        }
    }

    /// The first of the groups from `from` on that has a property.
    pub open spec fn first_group(self, from: int, p: spec_fn(GroupView) -> bool) -> Option<int>
        decreases self.groups.len() - from,
    {
        if from >= self.groups.len() {
            None
        } else if p(self.groups[from]) {
            Some(from)
        } else {
            self.first_group(from + 1, p)
        }
    }

    /// The group that a token opens: the first that has it.
    pub open spec fn authenticated(self, token: Seq<char>) -> Option<int> {
        self.first_group(0, |g: GroupView| g.token == token)
    }

    /// Who provides `service` in the first group that has it.
    pub open spec fn service_in_any_group(self, service: Seq<char>) -> Option<Seq<u8>> {
        match self.first_group(0, |g: GroupView| g.services.dom().contains(service)) {
            Some(i) => Some(self.groups[i].services[service]),
            None => None,
        }
    }

    /// The server with another group at `i`.
    pub open spec fn with_group(self, i: int, g: GroupView) -> ServerView {
        ServerView { groups: self.groups.update(i, g), ..self }
    }

    /// The number of sessions in the groups from `from` on.
    pub open spec fn sessions_from(self, from: int) -> nat
        decreases self.groups.len() - from,
    {
        if from >= self.groups.len() {
            0
        } else {
            self.groups[from].sessions.len() + self.sessions_from(from + 1)
        }
    }
}

/// `rows` lists every registered service with its group and its provider, each
/// once.
pub open spec fn lists_all_services(rows: Seq<(String, String, EndpointId)>, v: ServerView) -> bool {
    &&& forall|i: int|
        0 <= i < rows.len() ==> v.service((#[trigger] rows[i]).0@, rows[i].1@) == Some(rows[i].2@)
    &&& forall|name: Seq<char>, service: Seq<char>|
        v.service(name, service) is Some ==> exists|i: int|
            0 <= i < rows.len() && (#[trigger] rows[i]).0@ == name && rows[i].1@ == service
    &&& forall|i: int, j: int|
        0 <= i < j < rows.len() ==> (#[trigger] rows[i]).0@ != (#[trigger] rows[j]).0@
            || rows[i].1@ != rows[j].1@
}

pub(crate) proof fn lemma_group_index(groups: Seq<GroupView>, name: Seq<char>)
    ensures
        match group_index(groups, name) {
            Some(i) => 0 <= i < groups.len() && groups[i].name == name,
            None => forall|i: int| 0 <= i < groups.len() ==> (#[trigger] groups[i]).name != name,
        },
    decreases groups.len(),
{
    if groups.len() > 0 && groups.last().name != name {
        lemma_group_index(groups.drop_last(), name);
        if group_index(groups, name) is None {
            assert forall|i: int| 0 <= i < groups.len() implies (#[trigger] groups[i]).name
                != name by {
                if i < groups.len() - 1 {
                    assert(groups.drop_last()[i] == groups[i]);
                }
            }
        }
    }
}

/// A change of a group that keeps its name changes no position.
pub(crate) proof fn lemma_group_index_update(
    groups: Seq<GroupView>,
    i: int,
    g: GroupView,
    name: Seq<char>,
)
    requires
        0 <= i < groups.len(),
        g.name == groups[i].name,
    ensures
        group_index(groups.update(i, g), name) == group_index(groups, name),
    decreases groups.len(),
{
    let next = groups.update(i, g);
    if i < groups.len() - 1 {
        assert(next.drop_last() =~= groups.drop_last().update(i, g));
        lemma_group_index_update(groups.drop_last(), i, g, name);
    } else {
        assert(next.drop_last() =~= groups.drop_last());
    }
}

/// Where names are distinct, a group is found under its own name.
proof fn lemma_group_index_at(groups: Seq<GroupView>, i: int)
    requires
        distinct_groups(groups),
        0 <= i < groups.len(),
    ensures
        group_index(groups, groups[i].name) == Some(i),
{
    lemma_group_index(groups, groups[i].name);
    let j = group_index(groups, groups[i].name)->0;
    if i < j {
        assert(groups[i].name != groups[j].name);
    }
    if j < i {
        assert(groups[j].name != groups[i].name);
    }
}

proof fn lemma_find_override(list: Seq<(EndpointId, u64)>, id: Seq<u8>)
    ensures
        match find_override(list, id) {
            Some(bps) => exists|i: int|
                0 <= i < list.len() && (#[trigger] list[i]).0@ == id && list[i].1 == bps,
            None => forall|i: int| 0 <= i < list.len() ==> (#[trigger] list[i]).0@ != id,
        },
    decreases list.len(),
{
    if list.len() > 0 && list.last().0@ != id {
        let front = list.drop_last();
        lemma_find_override(front, id);
        if find_override(list, id) is None {
            assert forall|i: int| 0 <= i < list.len() implies (#[trigger] list[i]).0@ != id by {
                if i < list.len() - 1 {
                    assert(front[i] == list[i]);
                }
            }
        } else {
            let i = choose|i: int|
                0 <= i < front.len() && (#[trigger] front[i]).0@ == id && front[i].1
                    == find_override(list, id)->0;
            assert(list[i] == front[i]);
        }
    }
}

/// Where ids are distinct, a cap is found under its own id.
proof fn lemma_find_override_at(list: Seq<(EndpointId, u64)>, i: int)
    requires
        distinct_ids(list),
        0 <= i < list.len(),
    ensures
        find_override(list, list[i].0@) == Some(list[i].1),
{
    lemma_find_override(list, list[i].0@);
    let id = list[i].0@;
    let bps = find_override(list, id)->0;
    let j = choose|j: int| 0 <= j < list.len() && (#[trigger] list[j]).0@ == id && list[j].1 == bps;
    if i < j {
        assert(list[i].0@ != list[j].0@);
    }
    if j < i {
        assert(list[j].0@ != list[i].0@);
    }
}

/// Setting the cap of a listed consumer changes what is found for it alone.
proof fn lemma_override_update(list: Seq<(EndpointId, u64)>, i: int, bps: u64, id: Seq<u8>)
    requires
        distinct_ids(list),
        0 <= i < list.len(),
    ensures
        distinct_ids(list.update(i, (list[i].0, bps))),
        find_override(list.update(i, (list[i].0, bps)), id) == if id == list[i].0@ {
            Some(bps)
        } else {
            find_override(list, id)
        },
{
    let next = list.update(i, (list[i].0, bps));
    assert forall|a: int, b: int| 0 <= a < b < next.len() implies (#[trigger] next[a]).0@ != (
    #[trigger] next[b]).0@ by {
        assert(list[a].0@ != list[b].0@);
    }
    if id == list[i].0@ {
        lemma_find_override_at(next, i);
    } else {
        lemma_find_override(list, id);
        lemma_find_override(next, id);
        if find_override(list, id) is Some {
            let j = choose|j: int|
                0 <= j < list.len() && (#[trigger] list[j]).0@ == id && list[j].1 == find_override(
                    list,
                    id,
                )->0;
            assert(next[j] == list[j]);
            lemma_find_override_at(next, j);
        }
        if find_override(next, id) is Some {
            let j = choose|j: int|
                0 <= j < next.len() && (#[trigger] next[j]).0@ == id && next[j].1 == find_override(
                    next,
                    id,
                )->0;
            assert(next[j] == list[j]);
        }
    }
}

/// Builds the override table: the last cap given for a consumer counts.
fn collect_overrides(rate_overrides: &Vec<(EndpointId, u64)>) -> (list: Vec<(EndpointId, u64)>)
    ensures
        distinct_ids(list@),
        override_map(list@) == override_map(rate_overrides@),
{
    let mut list: Vec<(EndpointId, u64)> = Vec::new();
    let mut k: usize = 0;
    assert(rate_overrides@.take(0) =~= Seq::empty());
    while k < rate_overrides.len()
        invariant
            k <= rate_overrides@.len(),
            distinct_ids(list@),
            forall|id: Seq<u8>|
                #![trigger find_override(list@, id)]
                find_override(list@, id) == find_override(rate_overrides@.take(k as int), id),
        decreases rate_overrides.len() - k,
    {
        let (id, bps) = rate_overrides[k];
        let ghost before = list@;
        let ghost prefix = rate_overrides@.take(k as int);
        let ghost next = rate_overrides@.take(k + 1);
        assert(next.drop_last() =~= prefix);
        assert(next.last() == rate_overrides@[k as int]);
        match position_of(&list, &id) {
            Some(i) => {
                list.set(i, (id, bps));
                proof {
                    assert(before[i as int].0 == id);
                    assert(list@ =~= before.update(i as int, (before[i as int].0, bps)));
                    assert forall|x: Seq<u8>|
                        #![trigger find_override(list@, x)]
                        find_override(list@, x) == find_override(next, x) by {
                        lemma_override_update(before, i as int, bps, x);
                        assert(find_override(before, x) == find_override(prefix, x));
                    }
                    lemma_override_update(before, i as int, bps, id@);
                }
            },
            None => {
                list.push((id, bps));
                proof {
                    assert(list@.drop_last() =~= before);
                    assert forall|x: Seq<u8>|
                        #![trigger find_override(list@, x)]
                        find_override(list@, x) == find_override(next, x) by {
                        assert(find_override(before, x) == find_override(prefix, x));
                    }
                    assert forall|a: int, b: int| 0 <= a < b < list@.len() implies (#[trigger]
                    list@[a]).0@ != (#[trigger] list@[b]).0@ by {
                        assert(list@[a] == before[a]);
                        if b < before.len() {
                            assert(list@[b] == before[b]);
                        }
                    }
                }
            },
        }
        k = k + 1;
    }
    proof {
        assert(rate_overrides@.take(rate_overrides@.len() as int) =~= rate_overrides@);
        assert(override_map(list@) =~= override_map(rate_overrides@));
    }
    list
}

/// Where `id` stands in a list of overrides.
fn position_of(list: &Vec<(EndpointId, u64)>, id: &EndpointId) -> (r: Option<usize>)
    ensures
        match r {
            Some(i) => i < list@.len() && list@[i as int].0 == *id,
            None => forall|i: int| 0 <= i < list@.len() ==> (#[trigger] list@[i]).0@ != id@,
        },
{
    let mut i: usize = 0;
    while i < list.len()
        invariant
            i <= list@.len(),
            forall|j: int| 0 <= j < i ==> (#[trigger] list@[j]).0@ != id@,
        decreases list.len() - i,
    {
        if same_id(&list[i].0, id) {
            return Some(i);
        }
        i = i + 1;
    }
    None
}

/// Builds the groups: where a name is given twice, the last token counts.
fn collect_groups(configs: &Vec<GroupConfig>) -> (groups: Vec<Group>)
    ensures
        distinct_groups(group_views(groups@)),
        names_of(group_views(groups@)) == configured_names(configs@),
        configs@.len() > 0 ==> groups@.len() > 0,
        forall|i: int|
            0 <= i < groups@.len() ==> ({
                let g = (#[trigger] groups@[i])@;
                &&& configured_token(configs@, g.name) == Some(g.token)
                &&& g.sessions == Map::<Seq<u8>, u64>::empty()
                &&& g.services == Map::<Seq<char>, Seq<u8>>::empty()
            }),
        forall|name: Seq<char>|
            configured_token(configs@, name) is Some ==> group_index(
                group_views(groups@),
                name,
            ) is Some,
{
    let mut groups: Vec<Group> = Vec::new();
    let mut k: usize = 0;
    assert(configs@.take(0) =~= Seq::empty());
    assert(names_of(group_views(groups@)) =~= Seq::empty());
    while k < configs.len()
        invariant
            k <= configs@.len(),
            k > 0 ==> groups@.len() > 0,
            names_of(group_views(groups@)) == configured_names(configs@.take(k as int)),
            distinct_groups(group_views(groups@)),
            forall|i: int|
                0 <= i < groups@.len() ==> ({
                    let g = (#[trigger] groups@[i])@;
                    &&& configured_token(configs@.take(k as int), g.name) == Some(g.token)
                    &&& g.sessions == Map::<Seq<u8>, u64>::empty()
                    &&& g.services == Map::<Seq<char>, Seq<u8>>::empty()
                }),
            forall|name: Seq<char>|
                #![trigger configured_token(configs@.take(k as int), name)]
                configured_token(configs@.take(k as int), name) is Some ==> exists|i: int|
                    0 <= i < groups@.len() && (#[trigger] groups@[i])@.name == name,
        decreases configs.len() - k,
    {
        let config = &configs[k];
        let ghost before = groups@;
        let ghost prefix = configs@.take(k as int);
        let ghost next = configs@.take(k + 1);
        assert(next.drop_last() =~= prefix);
        assert(next.last() == configs@[k as int]);
        let fresh = Group::new(config.name.clone(), config.group_token.clone());
        match group_position(&groups, config.name.as_str()) {
            Some(i) => {
                groups.set(i, fresh);
                proof {
                    let names = names_of(group_views(before));
                    assert(names[i as int] == config.name@);
                    assert(names_of(group_views(groups@)) =~= names);
                    assert forall|a: int, b: int| 0 <= a < b < groups@.len() implies (#[trigger]
                    group_views(groups@)[a]).name != (#[trigger] group_views(groups@)[b]).name by {
                        assert(group_views(before)[a].name != group_views(before)[b].name);
                    }
                    assert forall|a: int| 0 <= a < groups@.len() implies ({
                        let g = (#[trigger] groups@[a])@;
                        &&& configured_token(next, g.name) == Some(g.token)
                        &&& g.sessions == Map::<Seq<u8>, u64>::empty()
                        &&& g.services == Map::<Seq<char>, Seq<u8>>::empty()
                    }) by {
                        if a != i {
                            assert(groups@[a] == before[a]);
                            assert(group_views(before)[a].name != group_views(before)[i as int].name);
                        }
                    }
                    assert forall|name: Seq<char>|
                        #![trigger configured_token(next, name)]
                        configured_token(next, name) is Some implies exists|a: int|
                        0 <= a < groups@.len() && (#[trigger] groups@[a])@.name == name by {
                        if name == config.name@ {
                            assert(groups@[i as int]@.name == name);
                        } else {
                            assert(configured_token(prefix, name) is Some);
                            let a = choose|a: int|
                                0 <= a < before.len() && (#[trigger] before[a])@.name == name;
                            assert(groups@[a] == before[a]);
                        }
                    }
                }
            },
            None => {
                groups.push(fresh);
                proof {
                    let names = names_of(group_views(before));
                    assert(!names.contains(config.name@)) by {
                        if names.contains(config.name@) {
                            let a = names.index_of(config.name@);
                            assert(before[a]@.name == config.name@);
                        }
                    }
                    assert(names_of(group_views(groups@)) =~= names.push(config.name@));
                    assert forall|a: int, b: int| 0 <= a < b < groups@.len() implies (#[trigger]
                    group_views(groups@)[a]).name != (#[trigger] group_views(groups@)[b]).name by {
                        assert(groups@[a] == before[a]);
                        if b < before.len() {
                            assert(group_views(before)[a].name != group_views(before)[b].name);
                        }
                    }
                    assert forall|a: int| 0 <= a < groups@.len() implies ({
                        let g = (#[trigger] groups@[a])@;
                        &&& configured_token(next, g.name) == Some(g.token)
                        &&& g.sessions == Map::<Seq<u8>, u64>::empty()
                        &&& g.services == Map::<Seq<char>, Seq<u8>>::empty()
                    }) by {
                        if a < before.len() {
                            assert(groups@[a] == before[a]);
                        }
                    }
                    assert forall|name: Seq<char>|
                        #![trigger configured_token(next, name)]
                        configured_token(next, name) is Some implies exists|a: int|
                        0 <= a < groups@.len() && (#[trigger] groups@[a])@.name == name by {
                        if name == config.name@ {
                            assert(groups@[before.len() as int]@.name == name);
                        } else {
                            assert(configured_token(prefix, name) is Some);
                            let a = choose|a: int|
                                0 <= a < before.len() && (#[trigger] before[a])@.name == name;
                            assert(groups@[a] == before[a]);
                        }
                    }
                }
            },
        }
        k = k + 1;
    }
    proof {
        assert(configs@.take(configs@.len() as int) =~= configs@);
        assert forall|name: Seq<char>|
            configured_token(configs@, name) is Some implies group_index(
            group_views(groups@),
            name,
        ) is Some by {
            lemma_group_index(group_views(groups@), name);
            let a = choose|a: int| 0 <= a < groups@.len() && (#[trigger] groups@[a])@.name == name;
            assert(group_views(groups@)[a].name == name);
        }
    }
    groups
}

/// Where the group `name` stands.
fn group_position(groups: &Vec<Group>, name: &str) -> (r: Option<usize>)
    ensures
        match r {
            Some(i) => i < groups@.len() && groups@[i as int]@.name == name@,
            None => forall|i: int| 0 <= i < groups@.len() ==> (#[trigger] groups@[i])@.name != name@,
        },
{
    let mut i: usize = 0;
    while i < groups.len()
        invariant
            i <= groups@.len(),
            forall|j: int| 0 <= j < i ==> (#[trigger] groups@[j])@.name != name@,
        decreases groups.len() - i,
    {
        if same_text(groups[i].name.as_str(), name) {
            return Some(i);
        }
        i = i + 1;
    }
    None
}

impl ServerState {
    /// Builds a fresh registry from the configured groups and the overrides, a
    /// list of consumers with their caps. Of groups with one name, and of
    /// overrides for one consumer, the last counts.
    pub fn new(groups: &Vec<GroupConfig>, rate_overrides: &Vec<(EndpointId, u64)>) -> (s: ServerState)
        requires
            groups@.len() > 0,
        ensures
            s@.groups.len() > 0,
            distinct_groups(s@.groups),
            names_of(s@.groups) == configured_names(groups@),
            forall|i: int|
                0 <= i < s@.groups.len() ==> ({
                    let g = #[trigger] s@.groups[i];
                    &&& configured_token(groups@, g.name) == Some(g.token)
                    &&& g.sessions == Map::<Seq<u8>, u64>::empty()
                    &&& g.services == Map::<Seq<char>, Seq<u8>>::empty()
                }),
            forall|name: Seq<char>|
                configured_token(groups@, name) is Some ==> #[trigger] s@.group(name) is Some,
            s@.next_stream_id == 1,
            s@.relay_rates == Map::<u64, u64>::empty(),
            s@.overrides == override_map(rate_overrides@),
    {
        let groups = collect_groups(groups);
        let relay_rate_overrides = collect_overrides(rate_overrides);
        let ghost listed = groups@;
        let s = ServerState {
            groups: GroupTable { list: groups },
            next_stream_id: 1,
            relay_rates: rates_new(),
            relay_rate_overrides: OverrideTable { list: relay_rate_overrides },
        };
        proof {
            assert forall|i: int| 0 <= i < s@.groups.len() implies ({
                let g = #[trigger] s@.groups[i];
                &&& g == listed[i]@
            }) by {}
        }
        s
    }

    /// Looks up a group by name: its position, where it is known.
    pub fn group(&self, name: &str) -> (r: Option<usize>)
        ensures
            match r {
                Some(i) => self@.group(name@) == Some(i as int),
                None => self@.group(name@) is None,
            },
            r matches Some(i) ==> i < self@.groups.len(),
    {
        proof {
            use_type_invariant(&self.groups);
            lemma_group_index(self@.groups, name@);
        }
        let found = group_position(&self.groups.list, name);
        proof {
            match found {
                Some(i) => {
                    assert(self@.groups[i as int].name == name@);
                    lemma_group_index_at(self@.groups, i as int);
                },
                None => {
                    if let Some(i) = self@.group(name@) {
                        assert(self@.groups[i] == self.groups.list@[i]@);
                    }
                },
            }
        }
        found
    }

    /// The group at a position.
    pub fn group_at(&self, i: usize) -> (g: &Group)
        requires
            i < self@.groups.len(),
        ensures
            g@ == self@.groups[i as int],
    {
        &self.groups.list[i]
    }

    /// The number of groups.
    pub fn group_count(&self) -> (n: usize)
        ensures
            n == self@.groups.len(),
    {
        self.groups.list.len()
    }

    /// Authenticates by group token: the position of the first group that has
    /// it. The token doubles as the group's identifier on the wire.
    pub fn authenticate(&self, token: &str) -> (r: Option<usize>)
        ensures
            match r {
                Some(i) => i < self@.groups.len() && self@.authenticated(token@) == Some(i as int),
                None => self@.authenticated(token@) is None,
            },
    {
        let ghost p = |g: GroupView| g.token == token@;
        let mut i: usize = 0;
        while i < self.groups.list.len()
            invariant
                p == (|g: GroupView| g.token == token@),
                i <= self.groups.list@.len(),
                self@.groups.len() == self.groups.list@.len(),
                self@.first_group(0, p) == self@.first_group(i as int, p),
            decreases self.groups.list.len() - i,
        {
            assert(self@.groups[i as int] == self.groups.list@[i as int]@);
            if same_text(self.groups.list[i].token.as_str(), token) {
                return Some(i);
            }
            i = i + 1;
        }
        None
    }

    /// Resolves a service name within a group to the provider's endpoint id.
    pub fn lookup_service(&self, group_name: &str, service: &str) -> (provider: Option<EndpointId>)
        ensures
            id_option(provider) == self@.service(group_name@, service@),
    {
        match self.group(group_name) {
            Some(i) => self.groups.list[i].lookup(service),
            None => None,
        }
    }

    /// Resolves a service name in the first group that has it.
    pub fn lookup_service_any_group(&self, service: &str) -> (provider: Option<EndpointId>)
        ensures
            id_option(provider) == self@.service_in_any_group(service@),
    {
        let ghost p = |g: GroupView| g.services.dom().contains(service@);
        let mut i: usize = 0;
        while i < self.groups.list.len()
            invariant
                p == (|g: GroupView| g.services.dom().contains(service@)),
                i <= self.groups.list@.len(),
                self@.groups.len() == self.groups.list@.len(),
                self@.first_group(0, p) == self@.first_group(i as int, p),
            decreases self.groups.list.len() - i,
        {
            assert(self@.groups[i as int] == self.groups.list@[i as int]@);
            if let Some(provider) = self.groups.list[i].lookup(service) {
                return Some(provider);
            }
            i = i + 1;
        }
        None
    }

    /// Lists every registered service: its group, its name and its provider.
    pub fn dump_services(&self) -> (rows: Vec<(String, String, EndpointId)>)
        ensures
            lists_all_services(rows@, self@),
    {
        proof {
            use_type_invariant(&self.groups);
        }
        let mut rows: Vec<(String, String, EndpointId)> = Vec::new();
        let mut g: usize = 0;
        while g < self.groups.list.len()
            invariant
                g <= self.groups.list@.len(),
                self@.groups.len() == self.groups.list@.len(),
                distinct_groups(self@.groups),
                lists_services_of(rows@, self@, g as int, Seq::empty(), 0),
            decreases self.groups.list.len() - g,
        {
            let group = &self.groups.list[g];
            assert(self@.groups[g as int] == group@);
            let entries = services_entries(&group.services);
            let mut k: usize = 0;
            assert(lists_services_of(rows@, self@, g as int, entries@, 0));
            while k < entries.len()
                invariant
                    g < self.groups.list@.len(),
                    self@.groups.len() == self.groups.list@.len(),
                    distinct_groups(self@.groups),
                    self@.groups[g as int] == group@,
                    lists_services(entries@, group@.services),
                    k <= entries@.len(),
                    lists_services_of(rows@, self@, g as int, entries@, k as int),
                decreases entries.len() - k,
            {
                let ghost before = rows@;
                rows.push((group.name.clone(), entries[k].0.clone(), entries[k].1.provider_id));
                proof {
                    lemma_push_row(before, self@, g as int, entries@, k as int, rows@.last());
                    assert(rows@ =~= before.push(rows@.last()));
                }
                k = k + 1;
            }
            proof {
                lemma_next_group(rows@, self@, g as int, entries@);
            }
            g = g + 1;
        }
        proof {
            lemma_all_groups(rows@, self@);
        }
        rows
    }
}

impl ServerState {
    /// Number of active sessions across all groups.
    pub fn session_count(&self) -> (n: usize)
        ensures
            n == if self@.sessions_from(0) <= usize::MAX {
                self@.sessions_from(0) as int
            } else {
                usize::MAX as int
            },
    {
        let mut n: usize = 0;
        let mut i: usize = self.groups.list.len();
        while i > 0
            invariant
                i <= self.groups.list@.len(),
                self@.groups.len() == self.groups.list@.len(),
                n == if self@.sessions_from(i as int) <= usize::MAX {
                    self@.sessions_from(i as int) as int
                } else {
                    usize::MAX as int
                },
            decreases i,
        {
            i = i - 1;
            assert(self@.groups[i as int] == self.groups.list@[i as int]@);
            n = n.saturating_add(self.groups.list[i].session_count());
        }
        n
    }

    /// Records that `client` was heard of in a group.
    pub fn touch_session(&mut self, group: usize, client: EndpointId, now: u64)
        requires
            group < old(self)@.groups.len(),
        ensures
            final(self)@ == old(self)@.with_group(
                group as int,
                old(self)@.groups[group as int].touched(client@, now),
            ),
    {
        proof {
            use_type_invariant(&self.groups);
        }
        let ghost before = self@;
        let mut groups: Vec<Group> = Vec::new();
        std::mem::swap(&mut groups, &mut self.groups.list);
        let ghost taken = groups@;
        groups[group].touch_session(client, now);
        proof {
            lemma_views_update(taken, groups@, group as int);
        }
        self.groups = GroupTable { list: groups };
        assert(self@ =~= before.with_group(
            group as int,
            before.groups[group as int].touched(client@, now),
        ));
    }

    /// Registers a service in a group. Where it was registered already, returns
    /// the provider that it had.
    pub fn register_service(&mut self, group: usize, service: &str, provider: EndpointId) -> (r:
        Result<Option<EndpointId>, RegisterError>)
        requires
            group < old(self)@.groups.len(),
        ensures
            match r {
                Ok(previous) => {
                    &&& encode_utf8(service@).len() <= MAX_SERVICE_NAME
                    &&& id_option(previous) == old(self)@.groups[group as int].provider(service@)
                    &&& final(self)@ == old(self)@.with_group(
                        group as int,
                        old(self)@.groups[group as int].registered(service@, provider@),
                    )
                },
                Err(RegisterError::BadName) => {
                    &&& encode_utf8(service@).len() > MAX_SERVICE_NAME
                    &&& final(self)@ == old(self)@
                },
            },
    {
        proof {
            use_type_invariant(&self.groups);
        }
        let ghost before = self@;
        let mut groups: Vec<Group> = Vec::new();
        std::mem::swap(&mut groups, &mut self.groups.list);
        let ghost taken = groups@;
        let r = groups[group].register_service(service, provider);
        proof {
            lemma_views_update(taken, groups@, group as int);
        }
        self.groups = GroupTable { list: groups };
        proof {
            if r is Ok {
                assert(self@ =~= before.with_group(
                    group as int,
                    before.groups[group as int].registered(service@, provider@),
                ));
            } else {
                assert(self@ =~= before);
            }
        }
        r
    }

    /// Drops the session of `client` in a group, and the services registered by
    /// it.
    pub fn drop_session(&mut self, group: usize, client: EndpointId)
        requires
            group < old(self)@.groups.len(),
        ensures
            final(self)@ == old(self)@.with_group(
                group as int,
                old(self)@.groups[group as int].dropped(client@),
            ),
    {
        proof {
            use_type_invariant(&self.groups);
        }
        let ghost before = self@;
        let mut groups: Vec<Group> = Vec::new();
        std::mem::swap(&mut groups, &mut self.groups.list);
        let ghost taken = groups@;
        groups[group].drop_session(client);
        proof {
            lemma_views_update(taken, groups@, group as int);
        }
        self.groups = GroupTable { list: groups };
        assert(self@ =~= before.with_group(
            group as int,
            before.groups[group as int].dropped(client@),
        ));
    }

    /// Drops the sessions of all groups whose last heartbeat is older than
    /// `timeout`, and the services registered by them.
    pub fn sweep_dead_sessions(&mut self, now: u64, timeout: u64)
        ensures
            final(self)@ == old(self)@.swept(now, timeout),
    {
        proof {
            use_type_invariant(&self.groups);
        }
        let ghost before = self@;
        let mut groups: Vec<Group> = Vec::new();
        std::mem::swap(&mut groups, &mut self.groups.list);
        let mut i: usize = 0;
        while i < groups.len()
            invariant
                i <= groups@.len(),
                groups@.len() == before.groups.len(),
                forall|j: int|
                    0 <= j < i ==> (#[trigger] groups@[j])@ == before.groups[j].swept(now, timeout),
                forall|j: int| i <= j < groups@.len() ==> (#[trigger] groups@[j])@ == before.groups[j],
            decreases groups.len() - i,
        {
            groups[i].sweep(now, timeout);
            i = i + 1;
        }
        proof {
            assert(group_views(groups@) =~= before.swept(now, timeout).groups);
            assert forall|a: int, b: int| 0 <= a < b < groups@.len() implies (#[trigger]
            group_views(groups@)[a]).name != (#[trigger] group_views(groups@)[b]).name by {
                assert(before.groups[a].name != before.groups[b].name);
            }
        }
        self.groups = GroupTable { list: groups };
        assert(self@ =~= before.swept(now, timeout));
    }

    /// The cap configured for one consumer, in bytes per second; 0 means
    /// unlimited. Where there is none, the caller falls back to its default.
    pub fn lookup_relay_rate_override(&self, consumer: &EndpointId) -> (bps: Option<u64>)
        ensures
            bps == self@.override_for(consumer@),
    {
        proof {
            use_type_invariant(&self.relay_rate_overrides);
            lemma_find_override(self.relay_rate_overrides.list@, consumer@);
        }
        match position_of(&self.relay_rate_overrides.list, consumer) {
            Some(i) => {
                proof {
                    lemma_find_override_at(self.relay_rate_overrides.list@, i as int);
                }
                Some(self.relay_rate_overrides.list[i].1)
            },
            None => None,
        }
    }

    /// Every override, each consumer once.
    pub fn relay_rate_overrides_snapshot(&self) -> (rows: Vec<(EndpointId, u64)>)
        ensures
            lists_overrides(rows@, self@.overrides),
    {
        proof {
            use_type_invariant(&self.relay_rate_overrides);
        }
        let mut rows: Vec<(EndpointId, u64)> = Vec::new();
        let mut i: usize = 0;
        while i < self.relay_rate_overrides.list.len()
            invariant
                i <= self.relay_rate_overrides.list@.len(),
                rows@ == self.relay_rate_overrides.list@.take(i as int),
            decreases self.relay_rate_overrides.list.len() - i,
        {
            rows.push(self.relay_rate_overrides.list[i]);
            i = i + 1;
        }
        proof {
            let list = self.relay_rate_overrides.list@;
            assert(rows@ =~= list);
            assert forall|i: int| 0 <= i < list.len() implies self@.overrides.dom().contains(
                (#[trigger] list[i]).0@,
            ) && self@.overrides[list[i].0@] == list[i].1 by {
                lemma_find_override_at(list, i);
            }
            assert forall|id: Seq<u8>| #[trigger]
                self@.overrides.dom().contains(id) implies exists|i: int|
                0 <= i < list.len() && (#[trigger] list[i]).0@ == id by {
                lemma_find_override(list, id);
            }
        }
        rows
    }

    /// Allocates the id of a new relay stream. Ids count up from 1.
    pub fn alloc_stream_id(&mut self) -> (id: u64)
        ensures
            id == old(self)@.next_stream_id,
            final(self)@ == old(self)@.allocated(),
    {
        let ghost before = self@;
        let id: u64 = self.next_stream_id;
        self.next_stream_id = if id == u64::MAX {
            0
        } else {
            id + 1
        };
        assert(self@ =~= before.allocated());
        id
    }

    /// Registers the cap of a relay stream.
    pub fn register_relay_rate(&mut self, stream_id: u64, handle: RateLimitHandle)
        ensures
            final(self)@ == old(self)@.with_rate(stream_id, handle.bytes_per_sec),
    {
        rates_insert(&mut self.relay_rates, stream_id, handle);
    }

    /// Removes the cap of a relay stream when it ends. Doing so again changes
    /// nothing.
    pub fn unregister_relay_rate(&mut self, stream_id: u64)
        ensures
            final(self)@ == old(self)@.without_rate(stream_id),
    {
        rates_remove(&mut self.relay_rates, stream_id);
    }

    /// The cap of an active relay stream.
    pub fn relay_rate(&self, stream_id: u64) -> (bps: Option<u64>)
        ensures
            bps == self@.rate(stream_id),
    {
        match rates_get(&self.relay_rates, stream_id) {
            Some(handle) => Some(handle.bytes_per_sec),
            None => None,
        }
    }

    /// Changes the reply cap of one active relay stream. Returns whether there is
    /// such a stream. 0 disables throttling for it.
    pub fn update_relay_rate(&mut self, stream_id: u64, bytes_per_sec: u64) -> (found: bool)
        ensures
            found == old(self)@.rate(stream_id) is Some,
            final(self)@ == old(self)@.rate_updated(stream_id, bytes_per_sec),
    {
        match rates_get(&self.relay_rates, stream_id) {
            Some(_) => {
                rates_insert(&mut self.relay_rates, stream_id, RateLimitHandle { bytes_per_sec });
                true
            },
            None => false,
        }
    }

    /// The stream id and the cap of every active relay stream, each stream once.
    pub fn relay_rates_snapshot(&self) -> (rows: Vec<(u64, u64)>)
        ensures
            lists_rates(rows@, self@.relay_rates),
    {
        rates_entries(&self.relay_rates)
    }
}

impl ServerView {
    /// The server once a stream id was allocated.
    pub open spec fn allocated(self) -> ServerView {
        ServerView {
            next_stream_id: ((self.next_stream_id + 1) % 0x1_0000_0000_0000_0000) as u64,
            ..self
        }
    }

    /// The cap of an active relay stream.
    pub open spec fn rate(self, stream_id: u64) -> Option<u64> {
        if self.relay_rates.dom().contains(stream_id) {
            Some(self.relay_rates[stream_id])
        } else {
            None
        }
    }

    /// The server with a cap for a relay stream.
    pub open spec fn with_rate(self, stream_id: u64, bps: u64) -> ServerView {
        ServerView { relay_rates: self.relay_rates.insert(stream_id, bps), ..self }
    }

    /// The server without a cap for a relay stream.
    pub open spec fn without_rate(self, stream_id: u64) -> ServerView {
        ServerView { relay_rates: self.relay_rates.remove(stream_id), ..self }
    }

    /// The server once the cap of an active relay stream was changed; the same
    /// server where there is no such stream.
    pub open spec fn rate_updated(self, stream_id: u64, bps: u64) -> ServerView {
        if self.rate(stream_id) is Some {
            self.with_rate(stream_id, bps)
        } else {
            self
        }
    }

    /// The cap configured for one consumer.
    pub open spec fn override_for(self, consumer: Seq<u8>) -> Option<u64> {
        if self.overrides.dom().contains(consumer) {
            Some(self.overrides[consumer])
        } else {
            None
        }
    }

    /// The server with the stale sessions of every group dropped.
    pub open spec fn swept(self, now: u64, timeout: u64) -> ServerView {
        ServerView {
            groups: self.groups.map_values(|g: GroupView| g.swept(now, timeout)),
            ..self
        }
    }
}

/// `rows` lists an override table, each consumer once.
pub open spec fn lists_overrides(rows: Seq<(EndpointId, u64)>, m: Map<Seq<u8>, u64>) -> bool {
    &&& forall|i: int|
        0 <= i < rows.len() ==> m.dom().contains((#[trigger] rows[i]).0@) && m[rows[i].0@]
            == rows[i].1
    &&& forall|id: Seq<u8>| #[trigger]
        m.dom().contains(id) ==> exists|i: int| 0 <= i < rows.len() && (#[trigger] rows[i]).0@ == id
    &&& distinct_ids(rows)
}

/// A change of one group that keeps its name keeps the names distinct.
proof fn lemma_views_update(before: Seq<Group>, after: Seq<Group>, i: int)
    requires
        distinct_groups(group_views(before)),
        0 <= i < before.len(),
        after.len() == before.len(),
        after == before.update(i, after[i]),
        after[i]@.name == before[i]@.name,
    ensures
        distinct_groups(group_views(after)),
        group_views(after) == group_views(before).update(i, after[i]@),
{
    assert(group_views(after) =~= group_views(before).update(i, after[i]@));
    assert forall|a: int, b: int| 0 <= a < b < after.len() implies (#[trigger] group_views(
        after,
    )[a]).name != (#[trigger] group_views(after)[b]).name by {
        assert(group_views(before)[a].name != group_views(before)[b].name);
    }
}

// ---------------------------------------------------------------------------
// What the registry guarantees
// ---------------------------------------------------------------------------

/// A service that was registered is found, with the provider that registered it
/// last, and no other service of the group changes.
pub proof fn law_register_and_lookup(
    g: GroupView,
    service: Seq<char>,
    provider: Seq<u8>,
    other: Seq<char>,
)
    ensures
        g.registered(service, provider).provider(service) == Some(provider),
        other != service ==> g.registered(service, provider).provider(other) == g.provider(other),
        g.registered(service, provider).sessions == g.sessions,
{
}

/// Dropping a session removes exactly the services of its client: none of them
/// is left, and every service of another client stays.
pub proof fn law_drop_removes_own_services_only(g: GroupView, client: Seq<u8>, service: Seq<char>)
    ensures
        g.dropped(client).provider(service) != Some(client),
        g.provider(service) != Some(client) ==> g.dropped(client).provider(service) == g.provider(
            service,
        ),
        !g.dropped(client).sessions.dom().contains(client),
{
}

/// Dropping a session twice is the same as dropping it once.
pub proof fn law_drop_is_idempotent(g: GroupView, client: Seq<u8>)
    ensures
        g.dropped(client).dropped(client) == g.dropped(client),
{
    assert(g.dropped(client).dropped(client) =~= g.dropped(client));
}

/// After a sweep no session is stale and no service is provided by a client whose
/// session was, while every client heard of in time keeps its session and its
/// services.
pub proof fn law_sweep_drops_exactly_the_stale(
    g: GroupView,
    now: u64,
    timeout: u64,
    client: Seq<u8>,
    service: Seq<char>,
)
    ensures
        !g.swept(now, timeout).is_stale(client, now, timeout),
        g.is_stale(client, now, timeout) ==> g.swept(now, timeout).provider(service) != Some(client)
            && !g.swept(now, timeout).sessions.dom().contains(client),
        g.sessions.dom().contains(client) && !g.is_stale(client, now, timeout) ==> {
            &&& g.swept(now, timeout).sessions.dom().contains(client)
            &&& g.provider(service) == Some(client) ==> g.swept(now, timeout).provider(service)
                == Some(client)
        },
{
}

/// A client that was just heard of survives a sweep.
pub proof fn law_touched_session_survives(g: GroupView, client: Seq<u8>, now: u64, timeout: u64)
    ensures
        g.touched(client, now).swept(now, timeout).sessions.dom().contains(client),
{
}

/// The server once `n` stream ids were allocated.
pub open spec fn after_allocations(v: ServerView, n: nat) -> ServerView
    decreases n,
{
    if n == 0 {
        v
    } else {
        after_allocations(v, (n - 1) as nat).allocated()
    }
}

proof fn lemma_nth_stream_id(v: ServerView, n: nat)
    ensures
        after_allocations(v, n).next_stream_id == (v.next_stream_id + n) % 0x1_0000_0000_0000_0000,
    decreases n,
{
    if n > 0 {
        lemma_nth_stream_id(v, (n - 1) as nat);
    }
}

/// Stream ids are not reused: any two allocations less than 2^64 apart give
/// different ids. Up to the end of the number range they count upwards.
pub proof fn law_stream_ids_are_unique(v: ServerView, a: nat, b: nat)
    requires
        a < b < a + 0x1_0000_0000_0000_0000,
    ensures
        after_allocations(v, a).next_stream_id != after_allocations(v, b).next_stream_id,
        v.next_stream_id + b <= u64::MAX ==> after_allocations(v, a).next_stream_id
            < after_allocations(v, b).next_stream_id,
{
    lemma_nth_stream_id(v, a);
    lemma_nth_stream_id(v, b);
}

/// An updated cap is the one that is read back, and neither another stream nor
/// anything else of the server changes.
pub proof fn law_rate_update_is_local(v: ServerView, stream: u64, bps: u64, other: u64)
    requires
        v.rate(stream) is Some,
        other != stream,
    ensures
        v.rate_updated(stream, bps).rate(stream) == Some(bps),
        v.rate_updated(stream, bps).rate(other) == v.rate(other),
        v.rate_updated(stream, bps).groups == v.groups,
        v.rate_updated(stream, bps).overrides == v.overrides,
{
}

/// Removing a cap is final, and removing it again changes nothing.
pub proof fn law_unregister_is_idempotent(v: ServerView, stream: u64)
    ensures
        v.without_rate(stream).rate(stream) is None,
        v.without_rate(stream).without_rate(stream) == v.without_rate(stream),
{
    assert(v.without_rate(stream).without_rate(stream) =~= v.without_rate(stream));
}

/// `rows` lists the services of the first `g` groups and the first `k` of the
/// entries of group `g`.
spec fn lists_services_of(
    rows: Seq<(String, String, EndpointId)>,
    v: ServerView,
    g: int,
    entries: Seq<(String, ServiceRecord)>,
    k: int,
) -> bool {
    &&& forall|i: int|
        0 <= i < rows.len() ==> row_is_listed(#[trigger] rows[i], v, g, entries, k)
    &&& forall|a: int, service: Seq<char>|
        #![trigger v.groups[a].services.dom().contains(service)]
        0 <= a < g && v.groups[a].services.dom().contains(service) ==> has_row(
            rows,
            v.groups[a].name,
            service,
        )
    &&& forall|j: int|
        0 <= j < k ==> has_row(rows, v.groups[g].name, (#[trigger] entries[j]).0@)
    &&& forall|i: int, j: int|
        0 <= i < j < rows.len() ==> (#[trigger] rows[i]).0@ != (#[trigger] rows[j]).0@
            || rows[i].1@ != rows[j].1@
}

spec fn has_row(
    rows: Seq<(String, String, EndpointId)>,
    name: Seq<char>,
    service: Seq<char>,
) -> bool {
    exists|i: int| 0 <= i < rows.len() && (#[trigger] rows[i]).0@ == name && rows[i].1@ == service
}

spec fn row_is_listed(
    row: (String, String, EndpointId),
    v: ServerView,
    g: int,
    entries: Seq<(String, ServiceRecord)>,
    k: int,
) -> bool {
    ||| exists|a: int|
        0 <= a < g && (#[trigger] v.groups[a]).name == row.0@ && v.groups[a].provider(row.1@)
            == Some(row.2@)
    ||| row.0@ == v.groups[g].name && exists|j: int|
        0 <= j < k && (#[trigger] entries[j]).0@ == row.1@ && entries[j].1.provider_id@ == row.2@
}

proof fn lemma_push_row(
    rows: Seq<(String, String, EndpointId)>,
    v: ServerView,
    g: int,
    entries: Seq<(String, ServiceRecord)>,
    k: int,
    row: (String, String, EndpointId),
)
    requires
        0 <= g < v.groups.len(),
        distinct_groups(v.groups),
        lists_services(entries, v.groups[g].services),
        0 <= k < entries.len(),
        lists_services_of(rows, v, g, entries, k),
        row.0@ == v.groups[g].name,
        row.1@ == entries[k].0@,
        row.2@ == entries[k].1.provider_id@,
    ensures
        lists_services_of(rows.push(row), v, g, entries, k + 1),
{
    let next = rows.push(row);
    assert forall|i: int| 0 <= i < next.len() implies row_is_listed(
        #[trigger] next[i],
        v,
        g,
        entries,
        k + 1,
    ) by {
        if i < rows.len() {
            assert(next[i] == rows[i]);
            assert(row_is_listed(rows[i], v, g, entries, k));
        } else {
            assert(entries[k].0@ == row.1@);
        }
    }
    assert forall|a: int, service: Seq<char>|
        #![trigger v.groups[a].services.dom().contains(service)]
        0 <= a < g && v.groups[a].services.dom().contains(service) implies has_row(
        next,
        v.groups[a].name,
        service,
    ) by {
        lemma_has_row_push(rows, row, v.groups[a].name, service);
    }
    assert forall|j: int| 0 <= j < k + 1 implies has_row(
        next,
        v.groups[g].name,
        (#[trigger] entries[j]).0@,
    ) by {
        if j < k {
            lemma_has_row_push(rows, row, v.groups[g].name, entries[j].0@);
        } else {
            assert(next[rows.len() as int] == row);
        }
    }
    assert forall|i: int, j: int| 0 <= i < j < next.len() implies (#[trigger] next[i]).0@ != (
    #[trigger] next[j]).0@ || next[i].1@ != next[j].1@ by {
        assert(next[i] == rows[i]);
        if j == rows.len() {
            assert(row_is_listed(rows[i], v, g, entries, k));
        } else {
            assert(next[j] == rows[j]);
        }
    }
}

proof fn lemma_has_row_push(
    rows: Seq<(String, String, EndpointId)>,
    row: (String, String, EndpointId),
    name: Seq<char>,
    service: Seq<char>,
)
    requires
        has_row(rows, name, service),
    ensures
        has_row(rows.push(row), name, service),
{
    let i = choose|i: int|
        0 <= i < rows.len() && (#[trigger] rows[i]).0@ == name && rows[i].1@ == service;
    assert(rows.push(row)[i] == rows[i]);
}

proof fn lemma_next_group(
    rows: Seq<(String, String, EndpointId)>,
    v: ServerView,
    g: int,
    entries: Seq<(String, ServiceRecord)>,
)
    requires
        0 <= g < v.groups.len(),
        lists_services(entries, v.groups[g].services),
        lists_services_of(rows, v, g, entries, entries.len() as int),
    ensures
        lists_services_of(rows, v, g + 1, Seq::empty(), 0),
{
    assert forall|i: int| 0 <= i < rows.len() implies row_is_listed(
        #[trigger] rows[i],
        v,
        g + 1,
        Seq::empty(),
        0,
    ) by {
        assert(row_is_listed(rows[i], v, g, entries, entries.len() as int));
        if exists|a: int|
            0 <= a < g && (#[trigger] v.groups[a]).name == rows[i].0@ && v.groups[a].provider(
                rows[i].1@,
            ) == Some(rows[i].2@) {
            let a = choose|a: int|
                0 <= a < g && (#[trigger] v.groups[a]).name == rows[i].0@ && v.groups[a].provider(
                    rows[i].1@,
                ) == Some(rows[i].2@);
            assert(0 <= a < g + 1 && v.groups[a].name == rows[i].0@);
        } else {
            assert(v.groups[g].name == rows[i].0@);
            let j = choose|j: int|
                0 <= j < entries.len() && (#[trigger] entries[j]).0@ == rows[i].1@
                    && entries[j].1.provider_id@ == rows[i].2@;
            assert(v.groups[g].services[entries[j].0@] == entries[j].1.provider_id@);
        }
    }
    assert forall|a: int, service: Seq<char>|
        #![trigger v.groups[a].services.dom().contains(service)]
        0 <= a < g + 1 && v.groups[a].services.dom().contains(service) implies has_row(
        rows,
        v.groups[a].name,
        service,
    ) by {
        if a == g {
            let j = choose|j: int| 0 <= j < entries.len() && (#[trigger] entries[j]).0@ == service;
            assert(has_row(rows, v.groups[g].name, entries[j].0@));
        }
    }
}

proof fn lemma_all_groups(rows: Seq<(String, String, EndpointId)>, v: ServerView)
    requires
        distinct_groups(v.groups),
        lists_services_of(rows, v, v.groups.len() as int, Seq::empty(), 0),
    ensures
        lists_all_services(rows, v),
{
    assert forall|i: int| 0 <= i < rows.len() implies v.service(
        (#[trigger] rows[i]).0@,
        rows[i].1@,
    ) == Some(rows[i].2@) by {
        assert(row_is_listed(rows[i], v, v.groups.len() as int, Seq::empty(), 0));
        let a = choose|a: int|
            0 <= a < v.groups.len() && (#[trigger] v.groups[a]).name == rows[i].0@
                && v.groups[a].provider(rows[i].1@) == Some(rows[i].2@);
        lemma_group_index_at(v.groups, a);
    }
    assert forall|name: Seq<char>, service: Seq<char>|
        v.service(name, service) is Some implies exists|i: int|
        0 <= i < rows.len() && (#[trigger] rows[i]).0@ == name && rows[i].1@ == service by {
        lemma_group_index(v.groups, name);
        let a = v.group(name)->0;
        assert(v.groups[a].services.dom().contains(service));
        assert(has_row(rows, v.groups[a].name, service));
    }
}

/// Hearing of a client sets the time of its session and changes nothing else of the
/// group.
pub proof fn law_touch_changes_one_session(
    g: GroupView,
    client: Seq<u8>,
    now: u64,
    other: Seq<u8>,
)
    ensures
        ({
            let t = g.touched(client, now);
            &&& t.sessions.dom().contains(client) && t.sessions[client] == now
            &&& other != client ==> t.sessions.dom().contains(other) == g.sessions.dom().contains(
                other,
            ) && t.sessions[other] == g.sessions[other]
            &&& t.services == g.services && t.name == g.name && t.token == g.token
        }),
{
}

/// Dropping a client takes its session and keeps every other one as it is, and the
/// group's name and token too.
pub proof fn law_drop_keeps_other_sessions(g: GroupView, client: Seq<u8>, other: Seq<u8>)
    ensures
        ({
            let d = g.dropped(client);
            &&& !d.sessions.dom().contains(client)
            &&& other != client ==> d.sessions.dom().contains(other) == g.sessions.dom().contains(
                other,
            )
            &&& other != client && g.sessions.dom().contains(other) ==> d.sessions[other]
                == g.sessions[other]
            &&& d.name == g.name && d.token == g.token
            &&& forall|s: Seq<char>| #[trigger]
                d.services.dom().contains(s) <==> g.services.dom().contains(s) && g.services[s]
                    != client
        }),
{
}

/// A sweep keeps a session exactly where it was heard of no longer than the timeout
/// ago, with its time, and a service exactly where its provider has no session that is
/// older. The group's name and token stay.
pub proof fn law_sweep_goes_by_the_timeout(
    g: GroupView,
    now: u64,
    timeout: u64,
    client: Seq<u8>,
    service: Seq<char>,
)
    ensures
        ({
            let s = g.swept(now, timeout);
            let old = g.sessions.dom().contains(client) && now - g.sessions[client] > timeout;
            &&& s.sessions.dom().contains(client) <==> g.sessions.dom().contains(client) && !old
            &&& s.sessions.dom().contains(client) ==> s.sessions[client] == g.sessions[client]
            &&& g.provider(service) == Some(client) ==> s.provider(service) == if old {
                None
            } else {
                Some(client)
            }
            &&& g.provider(service) is None ==> s.provider(service) is None
            &&& s.name == g.name && s.token == g.token
        }),
{
}

/// A server's sweep is that of each of its groups, in their places; nothing else of the
/// server changes.
pub proof fn law_server_sweep_is_per_group(v: ServerView, now: u64, timeout: u64, i: int)
    requires
        0 <= i < v.groups.len(),
    ensures
        v.swept(now, timeout).groups.len() == v.groups.len(),
        v.swept(now, timeout).groups[i] == v.groups[i].swept(now, timeout),
        v.swept(now, timeout).relay_rates == v.relay_rates,
        v.swept(now, timeout).overrides == v.overrides,
        v.swept(now, timeout).next_stream_id == v.next_stream_id,
{
}

/// A change of one group leaves every other group and all else of the server as it was.
pub proof fn law_group_change_is_local(v: ServerView, i: int, g: GroupView, j: int)
    requires
        0 <= i < v.groups.len(),
        0 <= j < v.groups.len(),
    ensures
        v.with_group(i, g).groups.len() == v.groups.len(),
        v.with_group(i, g).groups[i] == g,
        j != i ==> v.with_group(i, g).groups[j] == v.groups[j],
        v.with_group(i, g).relay_rates == v.relay_rates,
        v.with_group(i, g).overrides == v.overrides,
        v.with_group(i, g).next_stream_id == v.next_stream_id,
{
}

/// Who provides a service is what its group holds for it, and groups do not see each
/// other's services.
pub proof fn law_services_are_looked_up_in_their_group(
    v: ServerView,
    i: int,
    service: Seq<char>,
    name: Seq<char>,
)
    requires
        forall|a: int, b: int|
            0 <= a < b < v.groups.len() ==> (#[trigger] v.groups[a]).name != (
            #[trigger] v.groups[b]).name,
        0 <= i < v.groups.len(),
        forall|a: int| 0 <= a < v.groups.len() ==> (#[trigger] v.groups[a]).name != name,
    ensures
        v.group(v.groups[i].name) == Some(i),
        v.groups[i].services.dom().contains(service) ==> v.service(v.groups[i].name, service)
            == Some(v.groups[i].services[service]),
        !v.groups[i].services.dom().contains(service) ==> v.service(
            v.groups[i].name,
            service,
        ) is None,
        v.group(name) is None,
        v.service(name, service) is None,
{
    lemma_group_index_at(v.groups, i);
    lemma_group_index(v.groups, name);
}

proof fn lemma_first_group(v: ServerView, from: int, p: spec_fn(GroupView) -> bool)
    requires
        0 <= from,
    ensures
        match v.first_group(from, p) {
            Some(i) => from <= i < v.groups.len() && p(v.groups[i]) && forall|j: int|
                from <= j < i ==> !p(#[trigger] v.groups[j]),
            None => forall|j: int| from <= j < v.groups.len() ==> !p(#[trigger] v.groups[j]),
        },
    decreases v.groups.len() - from,
{
    if from < v.groups.len() && !p(v.groups[from]) {
        lemma_first_group(v, from + 1, p);
    }
}

/// A token opens the first group that has exactly this token, and no other token opens
/// it; a token of no group opens none.
pub proof fn law_token_opens_its_group(v: ServerView, token: Seq<char>)
    ensures
        match v.authenticated(token) {
            Some(i) => 0 <= i < v.groups.len() && v.groups[i].token == token && forall|j: int|
                0 <= j < i ==> (#[trigger] v.groups[j]).token != token,
            None => forall|j: int| 0 <= j < v.groups.len() ==> (#[trigger] v.groups[j]).token
                != token,
        },
{
    lemma_first_group(v, 0, |g: GroupView| g.token == token);
}

/// Across the groups a service is provided by the one that the first group with it
/// holds, and by nobody exactly where no group has it.
pub proof fn law_service_of_any_group(v: ServerView, service: Seq<char>)
    ensures
        match v.service_in_any_group(service) {
            Some(id) => exists|i: int|
                0 <= i < v.groups.len() && (#[trigger] v.groups[i]).provider(service) == Some(id)
                    && forall|j: int|
                    0 <= j < i ==> (#[trigger] v.groups[j]).provider(service) is None,
            None => forall|j: int|
                0 <= j < v.groups.len() ==> (#[trigger] v.groups[j]).provider(service) is None,
        },
{
    let p = |g: GroupView| g.services.dom().contains(service);
    lemma_first_group(v, 0, p);
    match v.first_group(0, p) {
        Some(i) => {
            assert forall|j: int| 0 <= j < i implies (#[trigger] v.groups[j]).provider(
                service,
            ) is None by {
                assert(!p(v.groups[j]));
            }
            assert(v.groups[i].provider(service) == v.service_in_any_group(service));
        },
        None => {
            assert forall|j: int| 0 <= j < v.groups.len() implies (#[trigger] v.groups[j]).provider(
                service,
            ) is None by {
                assert(!p(v.groups[j]));
            }
        },
    }
}

proof fn lemma_sessions_of_two(v: ServerView, w: ServerView, from: int, i: int)
    requires
        0 <= from,
        0 <= i < v.groups.len() == w.groups.len(),
        forall|j: int| 0 <= j < v.groups.len() && j != i ==> #[trigger] v.groups[j] == w.groups[j],
    ensures
        from > i ==> v.sessions_from(from) == w.sessions_from(from),
        from <= i ==> v.sessions_from(from) - v.groups[i].sessions.len() == w.sessions_from(from)
            - w.groups[i].sessions.len(),
    decreases v.groups.len() - from,
{
    if from < v.groups.len() {
        lemma_sessions_of_two(v, w, from + 1, i);
        if from != i {
            assert(v.groups[from] == w.groups[from]);
        }
    }
}

/// The sessions are counted group by group: a server without groups has none, and as
/// many as a group gains or loses the server does too.
pub proof fn law_sessions_are_counted(v: ServerView, i: int, g: GroupView)
    requires
        0 <= i < v.groups.len(),
    ensures
        v.with_group(i, g).sessions_from(0) - g.sessions.len() == v.sessions_from(0)
            - v.groups[i].sessions.len(),
        (forall|j: int| 0 <= j < v.groups.len() ==> (#[trigger] v.groups[j]).sessions.len() == 0)
            ==> v.sessions_from(0) == 0,
{
    lemma_sessions_of_two(v, v.with_group(i, g), 0, i);
    if forall|j: int| 0 <= j < v.groups.len() ==> (#[trigger] v.groups[j]).sessions.len() == 0 {
        lemma_no_sessions(v, 0);
    }
}

proof fn lemma_no_sessions(v: ServerView, from: int)
    requires
        0 <= from,
        forall|j: int| 0 <= j < v.groups.len() ==> (#[trigger] v.groups[j]).sessions.len() == 0,
    ensures
        v.sessions_from(from) == 0,
    decreases v.groups.len() - from,
{
    if from < v.groups.len() {
        assert(v.groups[from].sessions.len() == 0);
        lemma_no_sessions(v, from + 1);
    }
}

/// Of the caps that are given for one consumer the last counts, and a consumer that
/// none is given for has none.
pub proof fn law_last_override_counts(
    list: Seq<(EndpointId, u64)>,
    row: (EndpointId, u64),
    id: Seq<u8>,
)
    ensures
        override_map(list.push(row)).dom().contains(row.0@),
        override_map(list.push(row))[row.0@] == row.1,
        id != row.0@ ==> override_map(list.push(row)).dom().contains(id) == override_map(
            list,
        ).dom().contains(id),
        id != row.0@ && override_map(list).dom().contains(id) ==> override_map(list.push(row))[id]
            == override_map(list)[id],
        !override_map(Seq::<(EndpointId, u64)>::empty()).dom().contains(id),
{
    assert(list.push(row).drop_last() =~= list);
}

/// Of the tokens that are given for one group the last counts, and every name is taken
/// once, where it came first.
pub proof fn law_last_token_counts(groups: Seq<GroupConfig>, g: GroupConfig, name: Seq<char>)
    ensures
        configured_token(groups.push(g), g.name@) == Some(g.group_token@),
        name != g.name@ ==> configured_token(groups.push(g), name) == configured_token(
            groups,
            name,
        ),
        configured_token(Seq::<GroupConfig>::empty(), name) is None,
        configured_names(Seq::<GroupConfig>::empty()).len() == 0,
        configured_names(groups).contains(g.name@) ==> configured_names(groups.push(g))
            == configured_names(groups),
        !configured_names(groups).contains(g.name@) ==> configured_names(groups.push(g))
            == configured_names(groups).push(g.name@),
{
    assert(groups.push(g).drop_last() =~= groups);
}

/// Stream ids go up by one, and what is known of the groups, the caps and the overrides
/// stays.
pub proof fn law_allocation_takes_the_next_id(v: ServerView)
    ensures
        v.next_stream_id < u64::MAX ==> v.allocated().next_stream_id == v.next_stream_id + 1,
        v.allocated().groups == v.groups,
        v.allocated().relay_rates == v.relay_rates,
        v.allocated().overrides == v.overrides,
{
}

/// The cap of a stream is the one that was registered for it last, until it is removed;
/// the caps of other streams stay, and a stream without a cap gets none by an update.
pub proof fn law_caps_are_kept_per_stream(v: ServerView, stream: u64, bps: u64, other: u64)
    ensures
        v.with_rate(stream, bps).rate(stream) == Some(bps),
        v.without_rate(stream).rate(stream) is None,
        other != stream ==> v.with_rate(stream, bps).rate(other) == v.rate(other),
        other != stream ==> v.without_rate(stream).rate(other) == v.rate(other),
        v.rate(stream) is None ==> v.rate_updated(stream, bps) == v,
        v.rate(stream) is Some ==> v.rate_updated(stream, bps).rate(stream) == Some(bps),
        v.with_rate(stream, bps).groups == v.groups,
        v.with_rate(stream, bps).overrides == v.overrides,
        v.with_rate(stream, bps).next_stream_id == v.next_stream_id,
        v.without_rate(stream).groups == v.groups,
        v.without_rate(stream).overrides == v.overrides,
        v.without_rate(stream).next_stream_id == v.next_stream_id,
        v.rate(stream) is Some <==> v.relay_rates.dom().contains(stream),
        v.rate(stream) matches Some(cap) ==> cap == v.relay_rates[stream],
{
}

/// The override of a consumer is the one that is configured for it.
pub proof fn law_override_is_the_configured_one(v: ServerView, consumer: Seq<u8>)
    ensures
        v.override_for(consumer) is Some <==> v.overrides.dom().contains(consumer),
        v.override_for(consumer) matches Some(bps) ==> bps == v.overrides[consumer],
{
}

/// The groups of a fresh server: each configured name once, with the last token that is
/// given for it.
pub proof fn law_configured_names_are_all_there(groups: Seq<GroupConfig>, name: Seq<char>)
    ensures
        configured_names(groups).contains(name) <==> exists|i: int|
            0 <= i < groups.len() && (#[trigger] groups[i]).name@ == name,
        configured_token(groups, name) is Some <==> configured_names(groups).contains(name),
        configured_names(groups).no_duplicates(),
    decreases groups.len(),
{
    if groups.len() > 0 {
        let front = groups.drop_last();
        law_configured_names_are_all_there(front, name);
        let before = configured_names(front);
        let after = configured_names(groups);
        let last = groups.last().name@;
        if before.contains(name) {
            let i = choose|i: int| 0 <= i < front.len() && (#[trigger] front[i]).name@ == name;
            assert(groups[i].name@ == name);
            let k = before.index_of(name);
            assert(after[k] == name);
        }
        if last == name {
            assert(groups[groups.len() - 1].name@ == name);
            if !before.contains(last) {
                assert(after[before.len() as int] == last);
            }
        }
        if exists|i: int| 0 <= i < groups.len() && (#[trigger] groups[i]).name@ == name {
            let i = choose|i: int| 0 <= i < groups.len() && (#[trigger] groups[i]).name@ == name;
            if i < groups.len() - 1 {
                assert(front[i].name@ == name);
            }
        }
        if after.contains(name) {
            let k = after.index_of(name);
            if k < before.len() {
                assert(before[k] == name);
            }
        }
    }
}

/// A dump lists every service of every group once, with its group and its provider, and
/// nothing else.
pub proof fn law_dump_lists_every_service(
    rows: Seq<(String, String, EndpointId)>,
    v: ServerView,
    g: int,
    service: Seq<char>,
    k: int,
)
    requires
        lists_all_services(rows, v),
        forall|a: int, b: int|
            0 <= a < b < v.groups.len() ==> (#[trigger] v.groups[a]).name != (
            #[trigger] v.groups[b]).name,
        0 <= g < v.groups.len(),
        0 <= k < rows.len(),
    ensures
        v.groups[g].services.dom().contains(service) ==> exists|i: int|
            0 <= i < rows.len() && (#[trigger] rows[i]).0@ == v.groups[g].name && rows[i].1@
                == service && rows[i].2@ == v.groups[g].services[service],
        exists|a: int|
            0 <= a < v.groups.len() && (#[trigger] v.groups[a]).name == rows[k].0@
                && v.groups[a].services.dom().contains(rows[k].1@)
                && v.groups[a].services[rows[k].1@] == rows[k].2@,
        forall|i: int|
            0 <= i < rows.len() && i != k ==> (#[trigger] rows[i]).0@ != rows[k].0@ || rows[i].1@
                != rows[k].1@,
{
    lemma_group_index_at(v.groups, g);
    if v.groups[g].services.dom().contains(service) {
        assert(v.service(v.groups[g].name, service) is Some);
        let i = choose|i: int|
            0 <= i < rows.len() && (#[trigger] rows[i]).0@ == v.groups[g].name && rows[i].1@
                == service;
        assert(v.service(rows[i].0@, rows[i].1@) == Some(rows[i].2@));
    }
    assert(v.service(rows[k].0@, rows[k].1@) == Some(rows[k].2@));
    lemma_group_index(v.groups, rows[k].0@);
    let a = v.group(rows[k].0@)->0;
    assert(v.groups[a].name == rows[k].0@);
}

/// A list of caps has every stream, and a list of overrides every consumer, once and
/// with its cap, and nothing else.
pub proof fn law_caps_are_listed_once(
    rates: Seq<(u64, u64)>,
    overrides: Seq<(EndpointId, u64)>,
    v: ServerView,
    stream: u64,
    consumer: Seq<u8>,
)
    requires
        lists_rates(rates, v.relay_rates),
        lists_overrides(overrides, v.overrides),
    ensures
        v.rate(stream) matches Some(bps) ==> exists|i: int|
            0 <= i < rates.len() && #[trigger] rates[i] == (stream, bps),
        forall|i: int|
            0 <= i < rates.len() ==> v.rate((#[trigger] rates[i]).0) == Some(rates[i].1),
        forall|i: int, j: int|
            0 <= i < j < rates.len() ==> (#[trigger] rates[i]).0 != (#[trigger] rates[j]).0,
        v.override_for(consumer) matches Some(bps) ==> exists|i: int|
            0 <= i < overrides.len() && (#[trigger] overrides[i]).0@ == consumer && overrides[i].1
                == bps,
        forall|i: int|
            0 <= i < overrides.len() ==> v.override_for((#[trigger] overrides[i]).0@) == Some(
                overrides[i].1,
            ),
        forall|i: int, j: int|
            0 <= i < j < overrides.len() ==> (#[trigger] overrides[i]).0@ != (
            #[trigger] overrides[j]).0@,
{
    if v.rate(stream) is Some {
        let i = choose|i: int| 0 <= i < rates.len() && (#[trigger] rates[i]).0 == stream;
        assert(rates[i] == (stream, v.rate(stream)->0));
    }
    if v.override_for(consumer) is Some {
        let i = choose|i: int| 0 <= i < overrides.len() && (#[trigger] overrides[i]).0@ == consumer;
        assert(overrides[i].1 == v.override_for(consumer)->0);
    }
}

} // verus!
