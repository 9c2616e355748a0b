//! Bandwidth cap for the relay's reply direction (provider to consumer).
//!
//! The cap is a token bucket that holds at most one second's worth of tokens.
//! Tokens are counted in billionths of a byte, so that every refill is exact:
//! one nanosecond at one byte per second is worth one unit. The rate is read
//! afresh at every attempt, so that an update takes effect on the next write.
//! A rate of 0 means unlimited.
use vstd::prelude::*;

verus! {

/// Units of credit per byte.
pub const UNITS_PER_BYTE: u128 = 1_000_000_000;

/// The shortest wait, so that a large write against a small cap does not spin
/// while the bucket catches up.
pub const MIN_WAIT_NS: u128 = 1_000_000;

/// One connection's bandwidth cap in bytes per second. 0 disables throttling.
#[derive(Debug, Clone, Copy, PartialEq, Eq, Structural)]
pub struct RateLimitHandle {
    pub bytes_per_sec: u64,
}

/// Builds a rate handle with an initial cap.
pub fn new_handle(initial_bps: u64) -> (handle: RateLimitHandle)
    ensures
        handle.bytes_per_sec == initial_bps,
{
    RateLimitHandle { bytes_per_sec: initial_bps }
}

/// A token bucket: its credit, and when it was last refilled.
#[derive(Debug, Clone, Copy, PartialEq, Eq, Structural)]
pub struct Bucket {
    pub credit: u128,
    pub last_refill_ns: u64,
}

/// What became of a request for tokens.
#[derive(Debug, Clone, Copy, PartialEq, Eq, Structural)]
pub enum Grant {
    /// The tokens were taken.
    Now,
    /// Nothing was taken; ask again after so many nanoseconds.
    Wait(u128),
}

/// The credit of one second at a rate.
pub open spec fn one_second(bps: u64) -> int {
    bps * UNITS_PER_BYTE
}

/// The credit after a refill: what came in since the last one is added, up to
/// one second's worth. At rate 0 nothing changes.
pub open spec fn refilled(b: Bucket, bps: u64, now_ns: u64) -> int {
    let elapsed: int = if now_ns >= b.last_refill_ns {
        now_ns - b.last_refill_ns
    } else {
        0
    };
    let sum = b.credit + elapsed * bps;
    if sum <= one_second(bps) {
        sum
    } else {
        one_second(bps)
    }
}

/// How long until `missing` credit has come in, at least the shortest wait.
pub open spec fn wait_for(missing: int, bps: u64) -> int {
    let exact = (missing + bps - 1) / (bps as int);
    if exact < MIN_WAIT_NS {
        MIN_WAIT_NS as int
    } else {
        exact
    }
}

/// The outcome of asking a bucket for `n` bytes at this rate and time: the
/// credit left, the time of the last refill, and the grant.
pub open spec fn acquired(b: Bucket, bps: u64, now_ns: u64, n: u64) -> (int, u64, Grant) {
    let have = refilled(b, bps, now_ns);
    if bps == 0 || n == 0 {
        (b.credit as int, b.last_refill_ns, Grant::Now)
    } else if have >= n * UNITS_PER_BYTE {
        (have - n * UNITS_PER_BYTE, now_ns, Grant::Now)
    } else {
        (have, now_ns, Grant::Wait(wait_for(n * UNITS_PER_BYTE - have, bps) as u128))
    }
}

impl Bucket {
    /// Starts with one full second's worth of tokens, so that the first burst of
    /// a new connection is not delayed.
    pub fn new(bps: u64, now_ns: u64) -> (b: Bucket)
        ensures
            b.credit == one_second(bps),
            b.last_refill_ns == now_ns,
    {
        assert(0 <= bps * UNITS_PER_BYTE <= u64::MAX * UNITS_PER_BYTE) by (nonlinear_arith)
            requires
                0 <= bps <= u64::MAX,
                UNITS_PER_BYTE >= 0,
        ;
        Bucket { credit: bps as u128 * UNITS_PER_BYTE, last_refill_ns: now_ns }
    }

    /// Adds the credit that came in since the last refill.
    fn refill(&mut self, bps: u64, now_ns: u64)
        requires
            bps > 0,
        ensures
            final(self).credit == refilled(*old(self), bps, now_ns),
            final(self).last_refill_ns == now_ns,
    {
        let elapsed: u64 = if now_ns >= self.last_refill_ns {
            now_ns - self.last_refill_ns
        } else {
            0
        };
        proof {
            assert(0 <= bps * UNITS_PER_BYTE <= u64::MAX * UNITS_PER_BYTE) by (nonlinear_arith)
                requires
                    0 <= bps <= u64::MAX,
                    UNITS_PER_BYTE >= 0,
            ;
            assert(0 <= elapsed * bps <= u64::MAX * u64::MAX) by (nonlinear_arith)
                requires
                    0 <= elapsed <= u64::MAX,
                    0 <= bps <= u64::MAX,
            ;
        }
        let cap: u128 = bps as u128 * UNITS_PER_BYTE;
        let sum: u128 = self.credit.saturating_add(elapsed as u128 * bps as u128);
        self.credit = if sum <= cap {
            sum
        } else {
            cap
        };
        self.last_refill_ns = now_ns;
    }

    /// Takes `n` bytes' worth of tokens, or tells how long to wait for them.
    pub fn acquire(&mut self, bps: u64, now_ns: u64, n: u64) -> (grant: Grant)
        ensures
            (final(self).credit as int, final(self).last_refill_ns, grant) == acquired(
                *old(self),
                bps,
                now_ns,
                n,
            ),
    {
        if bps == 0 || n == 0 {
            return Grant::Now;
        }
        assert(0 <= n * UNITS_PER_BYTE <= u64::MAX * UNITS_PER_BYTE) by (nonlinear_arith)
            requires
                0 <= n <= u64::MAX,
                UNITS_PER_BYTE >= 0,
        ;
        let needed: u128 = n as u128 * UNITS_PER_BYTE;
        self.refill(bps, now_ns);
        if self.credit >= needed {
            self.credit = self.credit - needed;
            return Grant::Now;
        }
        let missing: u128 = needed - self.credit;
        let exact: u128 = (missing + (bps as u128 - 1)) / (bps as u128);
        if exact < MIN_WAIT_NS {
            Grant::Wait(MIN_WAIT_NS)
        } else {
            Grant::Wait(exact)
        }
    }
}

/// How many of `n` waiting bytes to ask for at once: never more than the bucket
/// can hold, so that every cap lets data through.
pub fn chunk_len(bps: u64, n: u64) -> (len: u64)
    ensures
        len == if bps == 0 || n <= bps {
            n
        } else {
            bps
        },
{
    if bps == 0 || n <= bps {
        n
    } else {
        bps
    }
}

/// Credit is never made up: what a request takes and what it leaves is at most
/// what was there and what came in meanwhile.
pub proof fn law_credit_is_conserved(b: Bucket, bps: u64, now_ns: u64, n: u64)
    requires
        bps > 0,
        now_ns >= b.last_refill_ns,
    ensures
        ({
            let (left, _, grant) = acquired(b, bps, now_ns, n);
            let taken = if grant == Grant::Now {
                n * UNITS_PER_BYTE
            } else {
                0
            };
            &&& 0 <= left
            &&& left + taken <= b.credit + (now_ns - b.last_refill_ns) * bps
        }),
{
    assert(0 <= (now_ns - b.last_refill_ns) * bps) by (nonlinear_arith)
        requires
            now_ns >= b.last_refill_ns,
            bps > 0,
    ;
    assert(0 <= bps * UNITS_PER_BYTE) by (nonlinear_arith)
        requires
            bps > 0,
            UNITS_PER_BYTE >= 0,
    ;
}

/// A request that was told to wait is granted when it asks again after that
/// long, where it asks for no more than one second's worth.
pub proof fn law_wait_is_long_enough(b: Bucket, after: Bucket, bps: u64, now_ns: u64, n: u64, later_ns: u64)
    requires
        bps > 0,
        n <= bps,
        now_ns >= b.last_refill_ns,
        acquired(b, bps, now_ns, n) == (after.credit as int, after.last_refill_ns, acquired(
            b,
            bps,
            now_ns,
            n,
        ).2),
        acquired(b, bps, now_ns, n).2 matches Grant::Wait(ns) && later_ns >= now_ns + ns,
    ensures
        acquired(after, bps, later_ns, n).2 == Grant::Now,
{
    let have = refilled(b, bps, now_ns);
    let missing = n * UNITS_PER_BYTE - have;
    let exact = (missing + bps - 1) / (bps as int);
    assert(0 <= have) by (nonlinear_arith)
        requires
            have == refilled(b, bps, now_ns),
            now_ns >= b.last_refill_ns,
            bps > 0,
            refilled(b, bps, now_ns) == (if b.credit + (now_ns - b.last_refill_ns) * bps
                <= bps * UNITS_PER_BYTE {
                b.credit + (now_ns - b.last_refill_ns) * bps
            } else {
                bps * UNITS_PER_BYTE
            }),
            UNITS_PER_BYTE >= 0,
            b.credit >= 0,
    ;
    assert(n * UNITS_PER_BYTE <= u64::MAX * UNITS_PER_BYTE) by (nonlinear_arith)
        requires
            n <= u64::MAX,
            UNITS_PER_BYTE >= 0,
    ;
    assert(exact <= missing + bps - 1) by (nonlinear_arith)
        requires
            exact == (missing + bps - 1) / (bps as int),
            bps > 0,
            missing > 0,
    ;
    let waited = later_ns - now_ns;
    assert(exact * bps >= missing) by (nonlinear_arith)
        requires
            exact == (missing + bps - 1) / (bps as int),
            bps > 0,
    ;
    assert(waited * bps >= exact * bps) by (nonlinear_arith)
        requires
            waited >= exact,
            bps > 0,
    ;
    assert(n * UNITS_PER_BYTE <= bps * UNITS_PER_BYTE) by (nonlinear_arith)
        requires
            n <= bps,
            UNITS_PER_BYTE >= 0,
    ;
}

/// One request in a connection's history: when it was made, and for how much.
pub struct Request {
    pub now_ns: u64,
    pub bytes: u64,
}

/// The requests come in the order of time, none before the last refill.
pub open spec fn in_order(from_ns: u64, requests: Seq<Request>) -> bool
    decreases requests.len(),
{
    requests.len() == 0 || (requests[0].now_ns >= from_ns && in_order(
        requests[0].now_ns,
        requests.drop_first(),
    ))
}

/// How many bytes a bucket lets through over a history of requests.
pub open spec fn passed(credit: int, last_ns: u64, bps: u64, requests: Seq<Request>) -> int
    decreases requests.len(),
{
    if requests.len() == 0 {
        0
    } else {
        let r = requests[0];
        let b = Bucket { credit: credit as u128, last_refill_ns: last_ns };
        let (left, at, grant) = acquired(b, bps, r.now_ns, r.bytes);
        (if grant == Grant::Now {
            r.bytes as int
        } else {
            0
        }) + passed(left, at, bps, requests.drop_first())
    }
}

/// The cap: over any history of requests at a constant rate, a bucket lets
/// through at most what its credit at the start and the time that went by are
/// worth.
pub proof fn law_rate_is_capped(b: Bucket, bps: u64, requests: Seq<Request>, end_ns: u64)
    requires
        bps > 0,
        b.credit <= one_second(bps),
        in_order(b.last_refill_ns, requests),
        requests.len() > 0 ==> requests.last().now_ns <= end_ns,
        b.last_refill_ns <= end_ns,
    ensures
        passed(b.credit as int, b.last_refill_ns, bps, requests) * UNITS_PER_BYTE <= b.credit + (
        end_ns - b.last_refill_ns) * bps,
    decreases requests.len(),
{
    if requests.len() == 0 {
        assert(0 <= (end_ns - b.last_refill_ns) * bps) by (nonlinear_arith)
            requires
                end_ns >= b.last_refill_ns,
                bps > 0,
        ;
    } else {
        let r = requests[0];
        let (left, at, grant) = acquired(b, bps, r.now_ns, r.bytes);
        law_credit_is_conserved(b, bps, r.now_ns, r.bytes);
        assert(bps * UNITS_PER_BYTE <= u64::MAX * UNITS_PER_BYTE) by (nonlinear_arith)
            requires
                bps <= u64::MAX,
                UNITS_PER_BYTE >= 0,
        ;
        assert(r.bytes * UNITS_PER_BYTE >= 0) by (nonlinear_arith)
            requires
                r.bytes >= 0,
                UNITS_PER_BYTE >= 0,
        ;
        let next = Bucket { credit: left as u128, last_refill_ns: at };
        lemma_in_order_bound(b.last_refill_ns, requests, end_ns);
        lemma_in_order_weaken(at, r.now_ns, requests.drop_first());
        if requests.len() > 1 {
            assert(requests.drop_first().last() == requests.last());
        }
        law_rate_is_capped(next, bps, requests.drop_first(), end_ns);
        let rest = passed(left, at, bps, requests.drop_first());
        let taken: int = if grant == Grant::Now {
            r.bytes as int
        } else {
            0
        };
        assert((taken + rest) * UNITS_PER_BYTE == taken * UNITS_PER_BYTE + rest * UNITS_PER_BYTE)
            by (nonlinear_arith);
        assert((at - b.last_refill_ns) * bps + (end_ns - at) * bps == (end_ns - b.last_refill_ns)
            * bps) by (nonlinear_arith);
    }
}

proof fn lemma_in_order_bound(from_ns: u64, requests: Seq<Request>, end_ns: u64)
    requires
        in_order(from_ns, requests),
        requests.len() > 0,
        requests.last().now_ns <= end_ns,
    ensures
        requests[0].now_ns <= end_ns,
    decreases requests.len(),
{
    if requests.len() > 1 {
        reveal_with_fuel(in_order, 2);
        assert(requests.drop_first().last() == requests.last());
        lemma_in_order_bound(requests[0].now_ns, requests.drop_first(), end_ns);
    }
}

proof fn lemma_in_order_weaken(from_ns: u64, later_ns: u64, requests: Seq<Request>)
    requires
        from_ns <= later_ns,
        in_order(later_ns, requests),
    ensures
        in_order(from_ns, requests),
{
}

/// A request is granted exactly where the bucket holds enough: the credit that was
/// there and what came in since at this rate, but no more than one second's worth. It
/// then takes what it asked for, and else takes nothing. Without a cap, and for no
/// bytes, it is granted and the bucket stays.
pub proof fn law_enough_credit_is_granted(b: Bucket, bps: u64, now_ns: u64, n: u64)
    requires
        now_ns >= b.last_refill_ns,
    ensures
        ({
            let (left, at, grant) = acquired(b, bps, now_ns, n);
            let came = b.credit + (now_ns - b.last_refill_ns) * bps;
            let full = bps * 1_000_000_000;
            let have = if came < full {
                came
            } else {
                full
            };
            if bps == 0 || n == 0 {
                grant is Now && left == b.credit && at == b.last_refill_ns
            } else if have >= n * 1_000_000_000 {
                grant is Now && left == have - n * 1_000_000_000 && at == now_ns
            } else {
                grant is Wait && left == have && at == now_ns
            }
        }),
{
}

/// A clock that went back adds nothing.
pub proof fn law_time_does_not_run_backwards(b: Bucket, bps: u64, now_ns: u64)
    requires
        now_ns < b.last_refill_ns,
        b.credit <= bps * 1_000_000_000,
    ensures
        refilled(b, bps, now_ns) == b.credit,
{
    assert(0 * bps == 0) by (nonlinear_arith);
}

/// A request that has to wait waits at least a millisecond, and otherwise no longer
/// than until what is missing has come in.
pub proof fn law_wait_is_no_longer_than_needed(b: Bucket, bps: u64, now_ns: u64, n: u64, ns: int)
    requires
        bps > 0,
        n > 0,
        acquired(b, bps, now_ns, n).2 is Wait,
        ns == wait_for(n * 1_000_000_000 - acquired(b, bps, now_ns, n).0, bps),
    ensures
        acquired(b, bps, now_ns, n).2 == Grant::Wait(ns as u128),
        ns >= 1_000_000,
        ns == 1_000_000 || (ns - 1) * bps < n * 1_000_000_000 - acquired(b, bps, now_ns, n).0,
        ns * bps >= n * 1_000_000_000 - acquired(b, bps, now_ns, n).0,
{
    let missing = n * 1_000_000_000 - acquired(b, bps, now_ns, n).0;
    let d = bps as int;
    let exact = (missing + d - 1) / d;
    assert((exact - 1) * d < missing && exact * d >= missing) by (nonlinear_arith)
        requires
            d > 0,
            exact == (missing + d - 1) / d,
    ;
    if exact < 1_000_000 {
        assert(1_000_000 * d >= exact * d) by (nonlinear_arith)
            requires
                exact < 1_000_000,
                d > 0,
        ;
    }
}

} // verus!
