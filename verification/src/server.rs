//! What a server starts with, read out of its configuration.
use crate::config::{RelayRateOverride, RootConfig};
use crate::control::ControlConfig;
use crate::endpoint::{endpoint_id, parse_endpoint_id, EndpointId};
use crate::ratelimit::{new_handle, RateLimitHandle};
use vstd::prelude::*;

verus! {

/// What a server starts with.
#[derive(Debug)]
pub struct ServerPlan {
    /// Caps for single consumers.
    pub rate_overrides: Vec<(EndpointId, u64)>,
    /// The default cap on replies; none where rate limiting is off.
    pub default_reply_bps: Option<RateLimitHandle>,
    /// Times of the control plane.
    pub control: ControlConfig,
}

/// The rows that name an endpoint, in order.
pub open spec fn parsed_overrides(rows: Seq<RelayRateOverride>) -> Seq<(Seq<u8>, u64)>
    decreases rows.len(),
{
    if rows.len() == 0 {
        Seq::empty()
    } else {
        let front = parsed_overrides(rows.drop_last());
        match endpoint_id(rows.last().node_id@) {
            Some(id) => front.push((id, rows.last().bytes_per_sec)),
            None => front,
        }
    }
}

/// Views a list of overrides.
pub open spec fn override_views(list: Seq<(EndpointId, u64)>) -> Seq<(Seq<u8>, u64)> {
    list.map_values(|o: (EndpointId, u64)| (o.0@, o.1))
}

/// Parses the override rows. A row without a valid id is skipped; validation has
/// rejected it before.
pub fn parse_overrides(rows: &Vec<RelayRateOverride>) -> (list: Vec<(EndpointId, u64)>)
    ensures
        override_views(list@) == parsed_overrides(rows@),
{
    let mut list: Vec<(EndpointId, u64)> = Vec::new();
    let mut i: usize = 0;
    assert(rows@.take(0) =~= Seq::empty());
    assert(override_views(list@) =~= Seq::empty());
    while i < rows.len()
        invariant
            i <= rows@.len(),
            override_views(list@) == parsed_overrides(rows@.take(i as int)),
        decreases rows.len() - i,
    {
        let ghost before = list@;
        assert(rows@.take(i + 1).drop_last() =~= rows@.take(i as int));
        if let Some(id) = parse_endpoint_id(rows[i].node_id.as_str()) {
            list.push((id, rows[i].bytes_per_sec));
            assert(override_views(list@) =~= override_views(before).push(
                (id@, rows@[i as int].bytes_per_sec),
            ));
        }
        i = i + 1;
    }
    assert(rows@.take(rows@.len() as int) =~= rows@);
    list
}

/// The default cap: that of the `[relay]` section where its master switch is on.
pub open spec fn default_rate(cfg: RootConfig) -> Option<RateLimitHandle> {
    match cfg.relay {
        Some(relay) => if relay.enabled {
            Some(RateLimitHandle { bytes_per_sec: relay.bytes_per_sec })
        } else {
            None
        },
        None => None,
    }
}

/// Reads what a server starts with; nothing where the configuration defines no
/// group and is not a server's.
pub fn plan_server(cfg: &RootConfig) -> (plan: Option<ServerPlan>)
    ensures
        plan is Some <==> cfg.is_server_config(),
        plan matches Some(p) ==> {
            &&& override_views(p.rate_overrides@) == parsed_overrides(cfg.overrides())
            &&& p.default_reply_bps == default_rate(*cfg)
            &&& p.control.heartbeat_interval == if cfg.heartbeat.interval_secs < 1 {
                1
            } else {
                cfg.heartbeat.interval_secs
            }
            &&& p.control.heartbeat_timeout == if cfg.heartbeat.timeout_secs < 1 {
                1
            } else {
                cfg.heartbeat.timeout_secs
            }
        },
{
    if !cfg.is_server() {
        return None;
    }
    let rate_overrides = match &cfg.relay {
        Some(relay) => parse_overrides(&relay.rate_overrides),
        None => {
            let none: Vec<RelayRateOverride> = Vec::new();
            parse_overrides(&none)
        },
    };
    let default_reply_bps = match &cfg.relay {
        Some(relay) => if relay.enabled {
            Some(new_handle(relay.bytes_per_sec))
        } else {
            None
        },
        None => None,
    };
    proof {
        if cfg.relay is None {
            assert(cfg.overrides() =~= Seq::empty());
        }
    }
    Some(
        ServerPlan {
            rate_overrides,
            default_reply_bps,
            control: ControlConfig::from_heartbeat(&cfg.heartbeat),
        },
    )
}

/// With the master switch off, or without a `[relay]` section, there is no
/// default cap.
pub proof fn law_rate_limiting_is_opt_in(cfg: RootConfig)
    ensures
        cfg.relay is None ==> default_rate(cfg) is None,
        cfg.relay matches Some(relay) && !relay.enabled ==> default_rate(cfg) is None,
{
}

/// The overrides are the rows that name an endpoint, in their order, each with its cap;
/// the others are passed over.
pub proof fn law_overrides_are_parsed_in_order(
    rows: Seq<RelayRateOverride>,
    row: RelayRateOverride,
)
    ensures
        parsed_overrides(Seq::<RelayRateOverride>::empty()).len() == 0,
        endpoint_id(row.node_id@) matches Some(id) ==> parsed_overrides(rows.push(row))
            == parsed_overrides(rows).push((id, row.bytes_per_sec)),
        endpoint_id(row.node_id@) is None ==> parsed_overrides(rows.push(row)) == parsed_overrides(
            rows,
        ),
{
    assert(rows.push(row).drop_last() =~= rows);
}

/// With the master switch on, the default cap is that of the `[relay]` section.
pub proof fn law_default_cap_is_the_configured_one(cfg: RootConfig)
    ensures
        default_rate(cfg) is Some <==> cfg.relay is Some && cfg.relay->0.enabled,
        default_rate(cfg) matches Some(cap) ==> cap.bytes_per_sec == cfg.relay->0.bytes_per_sec,
{
}

} // verus!
