//! Admission to the data relay (ALPN `meshly-core/data`).
//!
//! A consumer opens a stream and writes one `DataOpen` frame. The server checks
//! that the frame's `consumer_node_id` is the peer that it is connected to, and
//! that the target service is registered with the target provider. It then picks
//! the stream's reply cap, dials the provider on `meshly-core/<service>` and
//! copies bytes both ways, the replies under the cap.
use crate::endpoint::{endpoint_id, id_option, parse_endpoint_id, same_id, EndpointId};
use crate::protocol::{Frame, FrameView};
use crate::ratelimit::{new_handle, RateLimitHandle};
use crate::registry::{ServerState, ServerView};
use vstd::prelude::*;

verus! {

/// Why a stream is not relayed. The stream is shut down without an answer.
#[derive(Debug, Clone, Copy, PartialEq, Eq, Structural)]
pub enum RelayRefusal {
    /// The first frame is not an open request.
    NotDataOpen,
    /// The target provider is not an endpoint id.
    MalformedProvider,
    /// The consumer's own id is not an endpoint id.
    MalformedConsumer,
    /// The consumer claims to be another endpoint than its peer.
    ConsumerMismatch,
    /// No group has the target service.
    NotRegistered,
    /// The target service is registered with another provider.
    ProviderMismatch,
}

/// A stream that is to be relayed.
#[derive(Debug)]
pub struct RelayPlan {
    /// The provider to dial.
    pub provider: EndpointId,
    /// The service to reach there.
    pub service: String,
    /// The cap on replies at the start; none where the master switch is off.
    pub initial_reply_bps: Option<u64>,
}

/// What a [`RelayPlan`] stands for.
pub struct RelayPlanView {
    pub provider: Seq<u8>,
    pub service: Seq<char>,
    pub initial_reply_bps: Option<u64>,
}

impl View for RelayPlan {
    type V = RelayPlanView;

    open spec fn view(&self) -> RelayPlanView {
        RelayPlanView {
            provider: self.provider@,
            service: self.service@,
            initial_reply_bps: self.initial_reply_bps,
        }
    }
}

/// The cap that a consumer starts with: none where rate limiting is off, and else
/// the consumer's override before the default.
pub open spec fn initial_rate(
    server: ServerView,
    default_bps: Option<RateLimitHandle>,
    consumer: Seq<u8>,
) -> Option<u64> {
    match default_bps {
        Some(handle) => match server.override_for(consumer) {
            Some(bps) => Some(bps),
            None => Some(handle.bytes_per_sec),
        },
        None => None,
    }
}

/// The checks on an open request once its ids are parsed: `provider` and
/// `consumer` are what the texts in the frame stand for.
pub open spec fn checked_open(
    server: ServerView,
    default_bps: Option<RateLimitHandle>,
    remote: Seq<u8>,
    service: Seq<char>,
    provider: Option<Seq<u8>>,
    consumer: Option<Seq<u8>>,
) -> Result<RelayPlanView, RelayRefusal> {
    if provider is None {
        Err(RelayRefusal::MalformedProvider)
    } else if consumer is None {
        Err(RelayRefusal::MalformedConsumer)
    } else if consumer != Some(remote) {
        Err(RelayRefusal::ConsumerMismatch)
    } else if server.service_in_any_group(service) is None {
        Err(RelayRefusal::NotRegistered)
    } else if server.service_in_any_group(service) != provider {
        Err(RelayRefusal::ProviderMismatch)
    } else {
        Ok(
            RelayPlanView {
                provider: provider->0,
                service,
                initial_reply_bps: initial_rate(server, default_bps, remote),
            },
        )
    }
}

/// What becomes of a stream whose first frame is `frame`.
pub open spec fn admission(
    server: ServerView,
    default_bps: Option<RateLimitHandle>,
    remote: Seq<u8>,
    frame: FrameView,
) -> Result<RelayPlanView, RelayRefusal> {
    match frame {
        FrameView::DataOpen { target_service, target_provider, consumer_node_id, .. } => {
            checked_open(
                server,
                default_bps,
                remote,
                target_service,
                endpoint_id(target_provider),
                endpoint_id(consumer_node_id),
            )
        },
        _ => Err(RelayRefusal::NotDataOpen),
    }
}

/// A result that holds a plan, with the plan viewed.
pub open spec fn plan_result(r: Result<RelayPlan, RelayRefusal>) -> Result<
    RelayPlanView,
    RelayRefusal,
> {
    match r {
        Ok(plan) => Ok(plan@),
        Err(e) => Err(e),
    }
}

/// Picks the cap that a consumer starts with.
pub fn pick_initial_rate(
    server: &ServerState,
    default_bps: Option<RateLimitHandle>,
    consumer: &EndpointId,
) -> (bps: Option<u64>)
    ensures
        bps == initial_rate(server@, default_bps, consumer@),
{
    match default_bps {
        Some(handle) => match server.lookup_relay_rate_override(consumer) {
            Some(bps) => Some(bps),
            None => Some(handle.bytes_per_sec),
        },
        None => None,
    }
}

/// Checks an open request whose ids are parsed.
pub fn check_open(
    server: &ServerState,
    default_bps: Option<RateLimitHandle>,
    remote: &EndpointId,
    service: &str,
    provider: Option<EndpointId>,
    consumer: Option<EndpointId>,
) -> (r: Result<RelayPlan, RelayRefusal>)
    ensures
        plan_result(r) == checked_open(
            server@,
            default_bps,
            remote@,
            service@,
            id_option(provider),
            id_option(consumer),
        ),
{
    let target = match provider {
        Some(id) => id,
        None => {
            return Err(RelayRefusal::MalformedProvider);
        },
    };
    let claimed = match consumer {
        Some(id) => id,
        None => {
            return Err(RelayRefusal::MalformedConsumer);
        },
    };
    if !same_id(&claimed, remote) {
        return Err(RelayRefusal::ConsumerMismatch);
    }
    match server.lookup_service_any_group(service) {
        None => Err(RelayRefusal::NotRegistered),
        Some(registered) => if same_id(&registered, &target) {
            Ok(
                RelayPlan {
                    provider: target,
                    service: service.to_owned(),
                    initial_reply_bps: pick_initial_rate(server, default_bps, remote),
                },
            )
        } else {
            Err(RelayRefusal::ProviderMismatch)
        },
    }
}

/// Decides on a stream by its first frame.
pub fn decide_open(
    server: &ServerState,
    default_bps: Option<RateLimitHandle>,
    remote: &EndpointId,
    frame: &Frame,
) -> (r: Result<RelayPlan, RelayRefusal>)
    ensures
        plan_result(r) == admission(server@, default_bps, remote@, frame@),
{
    match frame {
        Frame::DataOpen { target_service, target_provider, consumer_node_id, .. } => check_open(
            server,
            default_bps,
            remote,
            target_service.as_str(),
            parse_endpoint_id(target_provider.as_str()),
            parse_endpoint_id(consumer_node_id.as_str()),
        ),
        _ => Err(RelayRefusal::NotDataOpen),
    }
}

/// The server once a relay stream has started under a fresh id.
pub open spec fn with_stream(server: ServerView, initial: Option<u64>) -> ServerView {
    match initial {
        Some(bps) => server.allocated().with_rate(server.next_stream_id, bps),
        None => server.allocated(),
    }
}

/// Starts a relay stream: gives it an id and, where it has a cap, registers that.
pub fn start_stream(server: &mut ServerState, initial_reply_bps: Option<u64>) -> (id: u64)
    ensures
        id == old(server)@.next_stream_id,
        final(server)@ == with_stream(old(server)@, initial_reply_bps),
{
    let id: u64 = server.alloc_stream_id();
    if let Some(bps) = initial_reply_bps {
        server.register_relay_rate(id, new_handle(bps));
    }
    id
}

/// Ends a relay stream, however it came to its end.
pub fn end_stream(server: &mut ServerState, id: u64)
    ensures
        final(server)@ == old(server)@.without_rate(id),
{
    server.unregister_relay_rate(id);
}

/// Only the peer itself opens streams in its name, and only to the provider with
/// which the service is registered.
pub proof fn law_relayed_streams_are_genuine(
    server: ServerView,
    default_bps: Option<RateLimitHandle>,
    remote: Seq<u8>,
    frame: FrameView,
)
    requires
        admission(server, default_bps, remote, frame) is Ok,
    ensures
        frame matches FrameView::DataOpen {
            target_service,
            target_provider,
            consumer_node_id,
            ..
        } && endpoint_id(consumer_node_id) == Some(remote) && endpoint_id(target_provider)
            == server.service_in_any_group(target_service) && endpoint_id(target_provider) == Some(
            admission(server, default_bps, remote, frame)->Ok_0.provider,
        ),
{
}

/// With the master switch off no stream is capped, whatever the overrides say;
/// with it on, a consumer's own override goes before the default.
pub proof fn law_rate_precedence(server: ServerView, default_bps: u64, consumer: Seq<u8>)
    ensures
        initial_rate(server, None, consumer) is None,
        server.overrides.dom().contains(consumer) ==> initial_rate(
            server,
            Some(RateLimitHandle { bytes_per_sec: default_bps }),
            consumer,
        ) == Some(server.overrides[consumer]),
        !server.overrides.dom().contains(consumer) ==> initial_rate(
            server,
            Some(RateLimitHandle { bytes_per_sec: default_bps }),
            consumer,
        ) == Some(default_bps),
{
}

/// A consumer that names itself and the registered provider of a service is
/// relayed to it, in whatever form the ids are written.
pub proof fn law_registered_service_is_relayed(
    server: ServerView,
    default_bps: Option<RateLimitHandle>,
    consumer: Seq<u8>,
    provider: Seq<u8>,
    service: Seq<char>,
    provider_text: Seq<char>,
    consumer_text: Seq<char>,
    proof: Seq<u8>,
)
    requires
        server.service_in_any_group(service) == Some(provider),
        endpoint_id(provider_text) == Some(provider),
        endpoint_id(consumer_text) == Some(consumer),
    ensures
        admission(
            server,
            default_bps,
            consumer,
            FrameView::DataOpen {
                target_service: service,
                target_provider: provider_text,
                consumer_node_id: consumer_text,
                proof,
            },
        ) == Ok::<RelayPlanView, RelayRefusal>(
            RelayPlanView {
                provider,
                service,
                initial_reply_bps: initial_rate(server, default_bps, consumer),
            },
        ),
{
}

/// A stream that starts and ends leaves no cap behind: where its id was free, the
/// caps are what they were.
pub proof fn law_stream_leaves_no_rate(server: ServerView, initial: Option<u64>)
    requires
        server.rate(server.next_stream_id) is None,
    ensures
        with_stream(server, initial).without_rate(server.next_stream_id) == server.allocated(),
{
    assert(with_stream(server, initial).without_rate(server.next_stream_id)
        =~= server.allocated());
}

/// Every reason to refuse a stream, in the order in which they are looked for: the
/// frame is no open request, an id in it is none, the consumer is not the peer, no
/// group has the service, or another provider has it. Without a reason it is relayed.
pub proof fn law_streams_are_refused_for_a_reason(
    server: ServerView,
    default_bps: Option<RateLimitHandle>,
    remote: Seq<u8>,
    frame: FrameView,
)
    ensures
        match frame {
            FrameView::DataOpen { target_service, target_provider, consumer_node_id, proof } => {
                let r = admission(server, default_bps, remote, frame);
                let provider = endpoint_id(target_provider);
                let consumer = endpoint_id(consumer_node_id);
                let held = server.service_in_any_group(target_service);
                &&& r == Err::<RelayPlanView, RelayRefusal>(RelayRefusal::MalformedProvider) <==> provider is None
                &&& r == Err::<RelayPlanView, RelayRefusal>(RelayRefusal::MalformedConsumer) <==> provider is Some
                    && consumer is None
                &&& r == Err::<RelayPlanView, RelayRefusal>(RelayRefusal::ConsumerMismatch) <==> provider is Some
                    && consumer is Some && consumer->0 != remote
                &&& r == Err::<RelayPlanView, RelayRefusal>(RelayRefusal::NotRegistered) <==> provider is Some && consumer
                    == Some(remote) && held is None
                &&& r == Err::<RelayPlanView, RelayRefusal>(RelayRefusal::ProviderMismatch) <==> provider is Some && consumer
                    == Some(remote) && held is Some && held->0 != provider->0
                &&& r is Ok <==> provider is Some && consumer == Some(remote) && held == provider
                &&& r != Err::<RelayPlanView, RelayRefusal>(RelayRefusal::NotDataOpen)
                &&& r matches Ok(plan) ==> Some(plan.provider) == held && plan.service
                    == target_service
            },
            _ => admission(server, default_bps, remote, frame) == Err::<
                RelayPlanView,
                RelayRefusal,
            >(RelayRefusal::NotDataOpen),
        },
{
}

/// A stream that starts takes the next id and, where it has a cap, that cap alone is
/// added.
pub proof fn law_stream_starts_with_its_cap(server: ServerView, initial: Option<u64>, other: u64)
    ensures
        ({
            let after = with_stream(server, initial);
            let id = server.next_stream_id;
            &&& initial is Some ==> after.rate(id) == initial
            &&& initial is None ==> after.rate(id) == server.rate(id)
            &&& other != id ==> after.rate(other) == server.rate(other)
            &&& id < u64::MAX ==> after.next_stream_id == id + 1
            &&& after.groups == server.groups
            &&& after.overrides == server.overrides
        }),
{
}

} // verus!
