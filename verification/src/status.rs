//! Runtime status of a client, for `--status` and other observers.
//!
//! The control-plane registration and each consumed service report their state
//! transitions here. Times are milliseconds since the Unix epoch.
use crate::text::{
    lemma_precedes_irreflexive, lemma_precedes_total, lemma_precedes_transitive, precedes, same_text,
    text_option, text_precedes,
};
use vstd::prelude::*;

verus! {

/// State of the control-plane session.
#[derive(Debug, Clone, Copy, PartialEq, Eq, Structural)]
pub enum ControlState {
    Unregistered,
    Registering,
    Registered,
    Reconnecting,
}

/// State of a single consumed service.
#[derive(Debug, Clone, Copy, PartialEq, Eq, Structural)]
pub enum ConsumerState {
    Idle,
    Dialing,
    Live,
    Failed,
}

impl Default for ControlState {
    fn default() -> (r: Self)
        ensures
            r == ControlState::Unregistered,
    {
        ControlState::Unregistered
    }
}

impl Default for ConsumerState {
    fn default() -> (r: Self)
        ensures
            r == ConsumerState::Idle,
    {
        ConsumerState::Idle
    }
}

/// Status of the control plane.
#[derive(Debug)]
pub struct ControlStatus {
    pub state: ControlState,
    pub last_registered_at_ms: Option<i64>,
    pub last_heartbeat_at_ms: Option<i64>,
    pub last_error: Option<String>,
}

/// Status of a consumed service.
#[derive(Debug)]
pub struct ConsumerStatus {
    pub state: ConsumerState,
    /// `"direct"` or `"relay"`, set on the most recent successful dial.
    pub mode: Option<String>,
    pub last_attempt_at_ms: Option<i64>,
    pub last_success_at_ms: Option<i64>,
    pub last_error: Option<String>,
    pub forwarded_streams: u64,
}

/// What a [`ControlStatus`] stands for.
pub struct ControlStatusView {
    pub state: ControlState,
    pub last_registered_at_ms: Option<i64>,
    pub last_heartbeat_at_ms: Option<i64>,
    pub last_error: Option<Seq<char>>,
}

/// What a [`ConsumerStatus`] stands for.
pub struct ConsumerStatusView {
    pub state: ConsumerState,
    pub mode: Option<Seq<char>>,
    pub last_attempt_at_ms: Option<i64>,
    pub last_success_at_ms: Option<i64>,
    pub last_error: Option<Seq<char>>,
    pub forwarded_streams: u64,
}

impl View for ControlStatus {
    type V = ControlStatusView;

    open spec fn view(&self) -> ControlStatusView {
        ControlStatusView {
            state: self.state,
            last_registered_at_ms: self.last_registered_at_ms,
            last_heartbeat_at_ms: self.last_heartbeat_at_ms,
            last_error: text_option(self.last_error),
        }
    }
}

impl View for ConsumerStatus {
    type V = ConsumerStatusView;

    open spec fn view(&self) -> ConsumerStatusView {
        ConsumerStatusView {
            state: self.state,
            mode: text_option(self.mode),
            last_attempt_at_ms: self.last_attempt_at_ms,
            last_success_at_ms: self.last_success_at_ms,
            last_error: text_option(self.last_error),
            forwarded_streams: self.forwarded_streams,
        }
    }
}

/// The control plane before anything has happened.
pub open spec fn initial_control() -> ControlStatusView {
    ControlStatusView {
        state: ControlState::Unregistered,
        last_registered_at_ms: None,
        last_heartbeat_at_ms: None,
        last_error: None,
    }
}

/// A consumed service before its first dial.
pub open spec fn initial_consumer() -> ConsumerStatusView {
    ConsumerStatusView {
        state: ConsumerState::Idle,
        mode: None,
        last_attempt_at_ms: None,
        last_success_at_ms: None,
        last_error: None,
        forwarded_streams: 0,
    }
}

/// Copies an optional string.
fn copy_text(s: &Option<String>) -> (r: Option<String>)
    ensures
        text_option(r) == text_option(*s),
{
    match s {
        Some(t) => Some(t.clone()),
        None => None,
    }
}

/// An optional string slice, viewed.
pub open spec fn str_option(s: Option<&str>) -> Option<Seq<char>> {
    match s {
        Some(t) => Some(t@),
        None => None,
    }
}

/// Owns an optional string slice.
fn own_text(s: Option<&str>) -> (r: Option<String>)
    ensures
        text_option(r) == str_option(s),
{
    match s {
        Some(t) => Some(t.to_owned()),
        None => None,
    }
}

impl Default for ControlStatus {
    fn default() -> (r: Self)
        ensures
            r@ == initial_control(),
    {
        ControlStatus {
            state: ControlState::Unregistered,
            last_registered_at_ms: None,
            last_heartbeat_at_ms: None,
            last_error: None,
        }
    }
}

impl Default for ConsumerStatus {
    fn default() -> (r: Self)
        ensures
            r@ == initial_consumer(),
    {
        ConsumerStatus {
            state: ConsumerState::Idle,
            mode: None,
            last_attempt_at_ms: None,
            last_success_at_ms: None,
            last_error: None,
            forwarded_streams: 0,
        }
    }
}

impl Clone for ControlStatus {
    fn clone(&self) -> (r: Self)
        ensures
            r@ == self@,
    {
        ControlStatus {
            state: self.state,
            last_registered_at_ms: self.last_registered_at_ms,
            last_heartbeat_at_ms: self.last_heartbeat_at_ms,
            last_error: copy_text(&self.last_error),
        }
    }
}

impl Clone for ConsumerStatus {
    fn clone(&self) -> (r: Self)
        ensures
            r@ == self@,
    {
        ConsumerStatus {
            state: self.state,
            mode: copy_text(&self.mode),
            last_attempt_at_ms: self.last_attempt_at_ms,
            last_success_at_ms: self.last_success_at_ms,
            last_error: copy_text(&self.last_error),
            forwarded_streams: self.forwarded_streams,
        }
    }
}

/// A list of named statuses, in the order of the names, each name once.
pub open spec fn in_name_order(list: Seq<(String, ConsumerStatus)>) -> bool {
    forall|i: int, j: int|
        0 <= i < j < list.len() ==> precedes((#[trigger] list[i]).0@, (#[trigger] list[j]).0@)
}

/// `name` stands at position `i`.
pub open spec fn named_at(
    list: Seq<(String, ConsumerStatus)>,
    name: Seq<char>,
    i: int,
) -> bool {
    0 <= i < list.len() && list[i].0@ == name
}

/// A list of named statuses as a map.
pub open spec fn status_map(list: Seq<(String, ConsumerStatus)>) -> Map<
    Seq<char>,
    ConsumerStatusView,
> {
    Map::new(
        |name: Seq<char>| exists|i: int| named_at(list, name, i),
        |name: Seq<char>| list[choose|i: int| named_at(list, name, i)].1@,
    )
}

proof fn lemma_status_at(list: Seq<(String, ConsumerStatus)>, i: int)
    requires
        in_name_order(list),
        0 <= i < list.len(),
    ensures
        status_map(list).dom().contains(list[i].0@),
        status_map(list)[list[i].0@] == list[i].1@,
{
    let name = list[i].0@;
    assert(named_at(list, name, i));
    let j = choose|j: int| named_at(list, name, j);
    lemma_precedes_irreflexive(name);
    if i < j {
        assert(precedes(list[i].0@, list[j].0@));
    }
    if j < i {
        assert(precedes(list[j].0@, list[i].0@));
    }
}

/// Status of the whole client.
#[derive(Debug)]
pub struct RuntimeStatus {
    control: ControlStatus,
    consumers: Vec<(String, ConsumerStatus)>,
}

/// What a [`RuntimeStatus`] stands for.
#[verifier::ext_equal]
pub struct RuntimeStatusView {
    pub control: ControlStatusView,
    pub consumers: Map<Seq<char>, ConsumerStatusView>,
}

impl View for RuntimeStatus {
    type V = RuntimeStatusView;

    closed spec fn view(&self) -> RuntimeStatusView {
        RuntimeStatusView { control: self.control@, consumers: status_map(self.consumers@) }
    }
}

/// A copy of the status at one moment, the services in the order of their names.
#[derive(Debug)]
pub struct RuntimeSnapshot {
    pub control: ControlStatus,
    pub consumers: Vec<(String, ConsumerStatus)>,
}

/// The control status once `state` was entered.
pub open spec fn control_after(
    c: ControlStatusView,
    state: ControlState,
    err: Option<Seq<char>>,
    now_ms: i64,
) -> ControlStatusView {
    ControlStatusView {
        state,
        last_error: err,
        last_registered_at_ms: if state == ControlState::Registered {
            Some(now_ms)
        } else {
            c.last_registered_at_ms
        },
        last_heartbeat_at_ms: c.last_heartbeat_at_ms,
    }
}

/// The status of a consumed service once `state` was entered. The mode is that of
/// the most recent successful dial; an error stays until another one comes or the
/// service is live.
pub open spec fn consumer_after(
    c: ConsumerStatusView,
    state: ConsumerState,
    mode: Option<Seq<char>>,
    err: Option<Seq<char>>,
    now_ms: i64,
) -> ConsumerStatusView {
    let live = state == ConsumerState::Live;
    ConsumerStatusView {
        state,
        mode: if live {
            mode
        } else {
            c.mode
        },
        last_attempt_at_ms: Some(now_ms),
        last_error: if err is Some {
            err
        } else if live {
            None
        } else {
            c.last_error
        },
        last_success_at_ms: if live {
            Some(now_ms)
        } else {
            c.last_success_at_ms
        },
        forwarded_streams: if live && c.forwarded_streams < u64::MAX {
            (c.forwarded_streams + 1) as u64
        } else {
            c.forwarded_streams
        },
    }
}

/// The status of the service `name`, the initial one where it is not known yet.
pub open spec fn consumer_or_initial(
    consumers: Map<Seq<char>, ConsumerStatusView>,
    name: Seq<char>,
) -> ConsumerStatusView {
    if consumers.dom().contains(name) {
        consumers[name]
    } else {
        initial_consumer()
    }
}

/// Puts an initial status for `name` where there is none, and returns where the
/// status of `name` stands.
fn place_of(list: &mut Vec<(String, ConsumerStatus)>, name: &str) -> (at: usize)
    requires
        in_name_order(old(list)@),
    ensures
        in_name_order(final(list)@),
        at < final(list)@.len(),
        final(list)@[at as int].0@ == name@,
        status_map(final(list)@) == status_map(old(list)@).insert(
            name@,
            consumer_or_initial(status_map(old(list)@), name@),
        ),
{
    let ghost before = list@;
    let mut i: usize = 0;
    while i < list.len() && text_precedes(list[i].0.as_str(), name)
        invariant
            list@ == before,
            in_name_order(before),
            i <= before.len(),
            forall|j: int| 0 <= j < i ==> precedes((#[trigger] before[j]).0@, name@),
        decreases list.len() - i,
    {
        i = i + 1;
    }
    if i < list.len() && same_text(list[i].0.as_str(), name) {
        proof {
            lemma_status_at(before, i as int);
            assert(status_map(before) =~= status_map(before).insert(
                name@,
                consumer_or_initial(status_map(before), name@),
            ));
        }
        return i;
    }
    proof {
        assert forall|j: int| 0 <= j < before.len() implies (#[trigger] before[j]).0@ != name@ by {
            lemma_precedes_irreflexive(name@);
            if j > i {
                assert(precedes(before[i as int].0@, before[j].0@));
            }
        }
        assert forall|j: int| i <= j < before.len() implies precedes(
            name@,
            (#[trigger] before[j]).0@,
        ) by {
            lemma_precedes_total(before[i as int].0@, name@);
            if j > i {
                lemma_precedes_transitive(name@, before[i as int].0@, before[j].0@);
            }
        }
    }
    list.insert(i, (name.to_owned(), ConsumerStatus::default()));
    proof {
        let after = list@;
        assert forall|a: int, b: int| 0 <= a < b < after.len() implies precedes(
            (#[trigger] after[a]).0@,
            (#[trigger] after[b]).0@,
        ) by {
            let x = if a < i {
                a
            } else {
                a - 1
            };
            let y = if b < i {
                b
            } else {
                b - 1
            };
            if a != i && b != i {
                assert(after[a] == before[x]);
                assert(after[b] == before[y]);
            } else if a == i {
                assert(after[b] == before[b - 1]);
            } else {
                assert(after[a] == before[a]);
            }
        }
        lemma_insert_status(before, after, i as int);
    }
    i
}

proof fn lemma_insert_status(
    before: Seq<(String, ConsumerStatus)>,
    after: Seq<(String, ConsumerStatus)>,
    i: int,
)
    requires
        0 <= i <= before.len(),
        after == before.insert(i, after[i]),
        in_name_order(before),
        in_name_order(after),
        forall|j: int| 0 <= j < before.len() ==> (#[trigger] before[j]).0@ != after[i].0@,
    ensures
        status_map(after) == status_map(before).insert(after[i].0@, after[i].1@),
        !status_map(before).dom().contains(after[i].0@),
{
    let name = after[i].0@;
    if status_map(before).dom().contains(name) {
        let j = choose|j: int| named_at(before, name, j);
        assert(before[j].0@ == name);
    }
    assert forall|n: Seq<char>| status_map(after).dom().contains(n) <==> #[trigger] status_map(
        before,
    ).insert(name, after[i].1@).dom().contains(n) by {
        if status_map(after).dom().contains(n) {
            let j = choose|j: int| named_at(after, n, j);
            if j != i {
                let k = if j < i {
                    j
                } else {
                    j - 1
                };
                assert(after[j] == before[k]);
                assert(named_at(before, n, k));
            }
        }
        if status_map(before).dom().contains(n) {
            let j = choose|j: int| named_at(before, n, j);
            let k = if j < i {
                j
            } else {
                j + 1
            };
            assert(after[k] == before[j]);
            assert(named_at(after, n, k));
        }
        assert(named_at(after, name, i));
    }
    assert forall|n: Seq<char>| #[trigger]
        status_map(after).dom().contains(n) implies status_map(after)[n] == status_map(
        before,
    ).insert(name, after[i].1@)[n] by {
        let j = choose|j: int| named_at(after, n, j);
        lemma_status_at(after, j);
        if j != i {
            let k = if j < i {
                j
            } else {
                j - 1
            };
            assert(after[j] == before[k]);
            lemma_status_at(before, k);
        }
    }
    assert(status_map(after) =~= status_map(before).insert(name, after[i].1@));
}

proof fn lemma_update_status(
    before: Seq<(String, ConsumerStatus)>,
    after: Seq<(String, ConsumerStatus)>,
    i: int,
)
    requires
        0 <= i < before.len(),
        after == before.update(i, after[i]),
        after[i].0@ == before[i].0@,
        in_name_order(before),
    ensures
        in_name_order(after),
        status_map(after) == status_map(before).insert(after[i].0@, after[i].1@),
{
    let name = after[i].0@;
    assert forall|a: int, b: int| 0 <= a < b < after.len() implies precedes(
        (#[trigger] after[a]).0@,
        (#[trigger] after[b]).0@,
    ) by {
        assert(precedes(before[a].0@, before[b].0@));
    }
    assert forall|n: Seq<char>| status_map(after).dom().contains(n) <==> #[trigger] status_map(
        before,
    ).insert(name, after[i].1@).dom().contains(n) by {
        if status_map(after).dom().contains(n) {
            let j = choose|j: int| named_at(after, n, j);
            assert(named_at(before, n, j));
        }
        if status_map(before).dom().contains(n) {
            let j = choose|j: int| named_at(before, n, j);
            assert(named_at(after, n, j));
        }
        assert(named_at(after, name, i));
    }
    assert forall|n: Seq<char>| #[trigger]
        status_map(after).dom().contains(n) implies status_map(after)[n] == status_map(
        before,
    ).insert(name, after[i].1@)[n] by {
        let j = choose|j: int| named_at(after, n, j);
        lemma_status_at(after, j);
        if j != i {
            assert(after[j] == before[j]);
            lemma_status_at(before, j);
            lemma_status_at(after, i);
        }
    }
    assert(status_map(after) =~= status_map(before).insert(name, after[i].1@));
}

/// The map that lists every name with the initial status.
pub open spec fn initial_consumers(names: Seq<String>) -> Map<Seq<char>, ConsumerStatusView> {
    Map::new(
        |n: Seq<char>| exists|i: int| 0 <= i < names.len() && (#[trigger] names[i])@ == n,
        |n: Seq<char>| initial_consumer(),
    )
}

impl RuntimeStatus {
    /// The services stand in the order of their names, each once.
    #[verifier::type_invariant]
    spec fn well_formed(self) -> bool {
        in_name_order(self.consumers@)
    }

    /// Starts with an idle entry for each configured service, so that every one
    /// is listed even before its first dial.
    pub fn new(consumer_names: &Vec<String>) -> (s: RuntimeStatus)
        ensures
            s@.control == initial_control(),
            s@.consumers == initial_consumers(consumer_names@),
    {
        let mut consumers: Vec<(String, ConsumerStatus)> = Vec::new();
        let mut i: usize = 0;
        assert(status_map(consumers@) =~= initial_consumers(consumer_names@.take(0)));
        while i < consumer_names.len()
            invariant
                i <= consumer_names@.len(),
                in_name_order(consumers@),
                status_map(consumers@) == initial_consumers(consumer_names@.take(i as int)),
            decreases consumer_names.len() - i,
        {
            let ghost prefix = consumer_names@.take(i as int);
            let ghost next = consumer_names@.take(i + 1);
            place_of(&mut consumers, consumer_names[i].as_str());
            proof {
                let name = consumer_names@[i as int]@;
                assert forall|n: Seq<char>| initial_consumers(next).dom().contains(n)
                    <==> #[trigger] initial_consumers(prefix).insert(
                    name,
                    initial_consumer(),
                ).dom().contains(n) by {
                    if initial_consumers(next).dom().contains(n) {
                        let j = choose|j: int| 0 <= j < next.len() && (#[trigger] next[j])@ == n;
                        if j < i {
                            assert(prefix[j]@ == n);
                        }
                    }
                    if initial_consumers(prefix).dom().contains(n) {
                        let j = choose|j: int| 0 <= j < prefix.len() && (#[trigger] prefix[j])@ == n;
                        assert(next[j]@ == n);
                    }
                    assert(next[i as int]@ == name);
                }
                assert(initial_consumers(next) =~= initial_consumers(prefix).insert(
                    name,
                    initial_consumer(),
                ));
            }
            i = i + 1;
        }
        assert(consumer_names@.take(consumer_names@.len() as int) =~= consumer_names@);
        RuntimeStatus { control: ControlStatus::default(), consumers }
    }

    /// Copies the status.
    pub fn snapshot(&self) -> (r: RuntimeSnapshot)
        ensures
            r.control@ == self@.control,
            status_map(r.consumers@) == self@.consumers,
            in_name_order(r.consumers@),
    {
        proof {
            use_type_invariant(self);
        }
        let mut consumers: Vec<(String, ConsumerStatus)> = Vec::new();
        let mut i: usize = 0;
        while i < self.consumers.len()
            invariant
                i <= self.consumers@.len(),
                consumers@.len() == i,
                forall|j: int|
                    0 <= j < i ==> (#[trigger] consumers@[j]).0@ == self.consumers@[j].0@
                        && consumers@[j].1@ == self.consumers@[j].1@,
            decreases self.consumers.len() - i,
        {
            let (name, status) = &self.consumers[i];
            consumers.push((name.clone(), status.clone()));
            i = i + 1;
        }
        proof {
            let a = self.consumers@;
            let b = consumers@;
            assert forall|i: int, j: int| 0 <= i < j < b.len() implies precedes(
                (#[trigger] b[i]).0@,
                (#[trigger] b[j]).0@,
            ) by {
                assert(precedes(a[i].0@, a[j].0@));
            }
            assert forall|n: Seq<char>| status_map(b).dom().contains(n) <==> #[trigger] status_map(
                a,
            ).dom().contains(n) by {
                if status_map(b).dom().contains(n) {
                    let j = choose|j: int| named_at(b, n, j);
                    assert(named_at(a, n, j));
                }
                if status_map(a).dom().contains(n) {
                    let j = choose|j: int| named_at(a, n, j);
                    assert(named_at(b, n, j));
                }
            }
            assert forall|n: Seq<char>| #[trigger]
                status_map(b).dom().contains(n) implies status_map(b)[n] == status_map(a)[n] by {
                let j = choose|j: int| named_at(b, n, j);
                lemma_status_at(b, j);
                lemma_status_at(a, j);
            }
            assert(status_map(b) =~= status_map(a));
        }
        RuntimeSnapshot { control: self.control.clone(), consumers }
    }

    /// The state of the control plane.
    pub fn control_state(&self) -> (state: ControlState)
        ensures
            state == self@.control.state,
    {
        self.control.state
    }

    /// Enters a state of the control plane.
    pub fn set_control_state(&mut self, state: ControlState, err: Option<&str>, now_ms: i64)
        ensures
            final(self)@ == (RuntimeStatusView {
                control: control_after(old(self)@.control, state, str_option(err), now_ms),
                ..old(self)@
            }),
    {
        proof {
            use_type_invariant(&*self);
        }
        let registered_at = match state {
            ControlState::Registered => Some(now_ms),
            _ => self.control.last_registered_at_ms,
        };
        let control = ControlStatus {
            state,
            last_registered_at_ms: registered_at,
            last_heartbeat_at_ms: self.control.last_heartbeat_at_ms,
            last_error: own_text(err),
        };
        self.control = control;
    }

    /// Records that a heartbeat was sent.
    pub fn record_heartbeat(&mut self, now_ms: i64)
        ensures
            final(self)@ == (RuntimeStatusView {
                control: ControlStatusView {
                    last_heartbeat_at_ms: Some(now_ms),
                    ..old(self)@.control
                },
                ..old(self)@
            }),
    {
        proof {
            use_type_invariant(&*self);
        }
        let control = ControlStatus {
            state: self.control.state,
            last_registered_at_ms: self.control.last_registered_at_ms,
            last_heartbeat_at_ms: Some(now_ms),
            last_error: copy_text(&self.control.last_error),
        };
        self.control = control;
    }

    /// Enters a state of a consumed service.
    pub fn set_consumer_state(
        &mut self,
        name: &str,
        state: ConsumerState,
        mode: Option<&str>,
        err: Option<&str>,
        now_ms: i64,
    )
        ensures
            final(self)@ == (RuntimeStatusView {
                consumers: old(self)@.consumers.insert(
                    name@,
                    consumer_after(
                        consumer_or_initial(old(self)@.consumers, name@),
                        state,
                        str_option(mode),
                        str_option(err),
                        now_ms,
                    ),
                ),
                ..old(self)@
            }),
    {
        proof {
            use_type_invariant(&*self);
        }
        let ghost before = self@;
        let mut list: Vec<(String, ConsumerStatus)> = Vec::new();
        std::mem::swap(&mut list, &mut self.consumers);
        let i: usize = place_of(&mut list, name);
        let ghost placed = list@;
        let next = updated_consumer(&list[i].1, state, mode, err, now_ms);
        list.set(i, (name.to_owned(), next));
        proof {
            lemma_status_at(placed, i as int);
            lemma_update_status(placed, list@, i as int);
        }
        self.consumers = list;
        assert(self@.consumers =~= before.consumers.insert(
            name@,
            consumer_after(
                consumer_or_initial(before.consumers, name@),
                state,
                str_option(mode),
                str_option(err),
                now_ms,
            ),
        ));
    }
}

/// The status of a consumed service once `state` was entered.
fn updated_consumer(
    c: &ConsumerStatus,
    state: ConsumerState,
    mode: Option<&str>,
    err: Option<&str>,
    now_ms: i64,
) -> (r: ConsumerStatus)
    ensures
        r@ == consumer_after(c@, state, str_option(mode), str_option(err), now_ms),
{
    let live = match state {
        ConsumerState::Live => true,
        _ => false,
    };
    ConsumerStatus {
        state,
        mode: if live {
            own_text(mode)
        } else {
            copy_text(&c.mode)
        },
        last_attempt_at_ms: Some(now_ms),
        last_error: if err.is_some() {
            own_text(err)
        } else if live {
            None
        } else {
            copy_text(&c.last_error)
        },
        last_success_at_ms: if live {
            Some(now_ms)
        } else {
            c.last_success_at_ms
        },
        forwarded_streams: if live {
            c.forwarded_streams.saturating_add(1)
        } else {
            c.forwarded_streams
        },
    }
}

/// Only a service that becomes live counts a stream, and then exactly one.
pub proof fn law_streams_are_counted_when_live(
    c: ConsumerStatusView,
    state: ConsumerState,
    mode: Option<Seq<char>>,
    err: Option<Seq<char>>,
    now_ms: i64,
)
    requires
        c.forwarded_streams < u64::MAX,
    ensures
        consumer_after(c, state, mode, err, now_ms).forwarded_streams == c.forwarded_streams
            + if state == ConsumerState::Live {
            1int
        } else {
            0int
        },
{
}

/// The mode is that of the most recent successful dial: entering any other state,
/// whatever it is reported with, leaves it as it was.
pub proof fn law_mode_is_of_the_last_success(
    c: ConsumerStatusView,
    mode: Option<Seq<char>>,
    other: ConsumerState,
    other_mode: Option<Seq<char>>,
    err: Option<Seq<char>>,
    now_ms: i64,
    later_ms: i64,
)
    requires
        other != ConsumerState::Live,
    ensures
        ({
            let live = consumer_after(c, ConsumerState::Live, mode, None, now_ms);
            let after = consumer_after(live, other, other_mode, err, later_ms);
            &&& live.mode == mode
            &&& after.mode == mode
            &&& after.last_success_at_ms == Some(now_ms)
            &&& after.forwarded_streams == live.forwarded_streams
        }),
{
}

/// A service that becomes live without an error has none.
pub proof fn law_live_clears_the_error(
    c: ConsumerStatusView,
    mode: Option<Seq<char>>,
    now_ms: i64,
)
    ensures
        consumer_after(c, ConsumerState::Live, mode, None, now_ms).last_error is None,
        consumer_after(c, ConsumerState::Live, mode, None, now_ms).last_success_at_ms == Some(
            now_ms,
        ),
{
}

/// What entering a state leaves of a service: the state, the time of the attempt, an
/// error that came with it or else the one that stood, unless the service is live, and
/// the time and the mode of the last success.
pub proof fn law_consumer_state_is_shown(
    c: ConsumerStatusView,
    state: ConsumerState,
    mode: Option<Seq<char>>,
    err: Option<Seq<char>>,
    now_ms: i64,
)
    ensures
        ({
            let after = consumer_after(c, state, mode, err, now_ms);
            &&& after.state == state
            &&& after.last_attempt_at_ms == Some(now_ms)
            &&& err is Some ==> after.last_error == err
            &&& err is None && state is Live ==> after.last_error is None
            &&& err is None && !(state is Live) ==> after.last_error == c.last_error
            &&& state is Live ==> after.mode == mode && after.last_success_at_ms == Some(now_ms)
            &&& !(state is Live) ==> after.mode == c.mode && after.last_success_at_ms
                == c.last_success_at_ms && after.forwarded_streams == c.forwarded_streams
            &&& c.forwarded_streams == u64::MAX ==> after.forwarded_streams == u64::MAX
        }),
{
}

/// What entering a state leaves of the control plane: the state and its error, the time
/// of the last registration, which only a registration sets, and that of the last
/// heartbeat.
pub proof fn law_control_state_is_shown(
    c: ControlStatusView,
    state: ControlState,
    err: Option<Seq<char>>,
    now_ms: i64,
)
    ensures
        ({
            let after = control_after(c, state, err, now_ms);
            &&& after.state == state
            &&& after.last_error == err
            &&& state is Registered ==> after.last_registered_at_ms == Some(now_ms)
            &&& !(state is Registered) ==> after.last_registered_at_ms == c.last_registered_at_ms
            &&& after.last_heartbeat_at_ms == c.last_heartbeat_at_ms
        }),
{
}

/// A fresh status lists every configured service, and no other, as idle: never tried,
/// without a mode, an error or a stream. The control plane is not registered.
pub proof fn law_fresh_status_is_idle(names: Seq<String>, name: Seq<char>)
    ensures
        initial_consumers(names).dom().contains(name) <==> exists|i: int|
            0 <= i < names.len() && (#[trigger] names[i])@ == name,
        initial_consumers(names).dom().contains(name) ==> {
            let c = initial_consumers(names)[name];
            &&& c.state is Idle
            &&& c.mode is None
            &&& c.last_attempt_at_ms is None
            &&& c.last_error is None
            &&& c.last_success_at_ms is None
            &&& c.forwarded_streams == 0
        },
        initial_control().state is Unregistered,
        initial_control().last_error is None,
        initial_control().last_registered_at_ms is None,
        initial_control().last_heartbeat_at_ms is None,
        consumer_or_initial(Map::empty(), name) == initial_consumer(),
        initial_consumers(names).dom().contains(name) ==> consumer_or_initial(
            initial_consumers(names),
            name,
        ) == initial_consumers(names)[name],
{
}

/// A list of statuses in the order of the names has every name once, with its status.
pub proof fn law_snapshot_lists_every_service(
    list: Seq<(String, ConsumerStatus)>,
    name: Seq<char>,
    i: int,
    j: int,
)
    requires
        in_name_order(list),
        0 <= i < j < list.len(),
    ensures
        precedes(list[i].0@, list[j].0@),
        list[i].0@ != list[j].0@,
        status_map(list).dom().contains(name) <==> exists|k: int|
            0 <= k < list.len() && (#[trigger] list[k]).0@ == name,
        status_map(list)[list[i].0@] == list[i].1@,
        status_map(list)[list[j].0@] == list[j].1@,
{
    lemma_status_at(list, i);
    lemma_status_at(list, j);
    assert(precedes(list[i].0@, list[j].0@));
    crate::text::lemma_precedes_irreflexive(list[i].0@);
    if status_map(list).dom().contains(name) {
        let k = choose|k: int| named_at(list, name, k);
        assert(list[k].0@ == name);
    }
    if exists|k: int| 0 <= k < list.len() && (#[trigger] list[k]).0@ == name {
        let k = choose|k: int| 0 <= k < list.len() && (#[trigger] list[k]).0@ == name;
        assert(named_at(list, name, k));
    }
}

} // verus!
