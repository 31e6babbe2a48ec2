//! Origin endpoints, their tracked state, and the load balancers that choose
//! among them.
pub mod round_robin;
pub mod weighted;

pub use round_robin::RoundRobinBalancer;
pub use weighted::{WeightedLatencyBalancer, WeightedMetricsBalancer};

use crate::origin_url::OriginUrl;
use crate::tables::origin_table;
use crate::text::{trim_end_slashes, trim_trailing_slashes};
use dashmap::DashMap;
use vstd::prelude::*;

verus! {

/// One origin a route may send to.
pub struct OriginEndpoint {
    pub url: OriginUrl,
    /// The URL string that origin state is kept under.
    pub url_key: String,
    /// The URL string without trailing slashes, that request paths follow.
    pub url_base: String,
    pub weight: Option<u32>,
    pub health_check_path: Option<String>,
}

impl OriginEndpoint {
    /// The key and base agree with the URL.
    pub open spec fn wf(&self) -> bool {
        &&& self.url_key@ == self.url@.serialization
        &&& self.url_base@ == trim_trailing_slashes(self.url@.serialization)
    }

    /// The endpoint of `url`, keyed by its serialization.
    pub fn new(url: OriginUrl, weight: Option<u32>, health_check_path: Option<String>) -> (r: Self)
        ensures
            r.wf(),
            r.url@ == url@,
            r.weight == weight,
            r.health_check_path.deep_view() == health_check_path.deep_view(),
    {
        let url_key = url.serialization.clone();
        let url_base = trim_end_slashes(url.serialization.as_str());
        OriginEndpoint { url, url_key, url_base, weight, health_check_path }
    }
}

impl Clone for OriginEndpoint {
    fn clone(&self) -> (r: Self)
        ensures
            r.url@ == self.url@,
            r.url_key@ == self.url_key@,
            r.url_base@ == self.url_base@,
            r.weight == self.weight,
            r.health_check_path.deep_view() == self.health_check_path.deep_view(),
    {
        OriginEndpoint {
            url: self.url.clone(),
            url_key: self.url_key.clone(),
            url_base: self.url_base.clone(),
            weight: self.weight,
            health_check_path: match &self.health_check_path {
                Some(p) => Some(p.clone()),
                None => None,
            },
        }
    }
}

/// What the proxy tracks of one origin.
#[derive(Clone, Copy, Debug, PartialEq, Eq, Structural)]
pub struct OriginState {
    pub ewma_latency_ns: u64,
    pub consecutive_successes: u32,
    pub consecutive_failures: u32,
    pub total_requests: u64,
    pub total_failures: u64,
    pub healthy: bool,
}

/// A state with nothing recorded: healthy, all counters zero.
pub open spec fn fresh_origin_state() -> OriginState {
    OriginState {
        ewma_latency_ns: 0,
        consecutive_successes: 0,
        consecutive_failures: 0,
        total_requests: 0,
        total_failures: 0,
        healthy: true,
    }
}

/// The latency average after one more sample: one tenth of the sample and
/// nine tenths of the old average, rounded down.
pub open spec fn ewma_next(old: u64, sample: u64) -> u64 {
    ((sample + 9 * old) / 10) as u64
}

/// One more, wrapping to zero after the largest `u32`.
pub open spec fn inc32(x: u32) -> u32 {
    if x == u32::MAX {
        0
    } else {
        (x + 1) as u32
    }
}

/// One more, wrapping to zero after the largest `u64`.
pub open spec fn inc64(x: u64) -> u64 {
    if x == u64::MAX {
        0
    } else {
        (x + 1) as u64
    }
}

/// One success: the success streak grows, the failure streak ends, and the
/// origin turns healthy once the streak reaches `threshold`.
pub open spec fn after_success(s: OriginState, threshold: u32) -> OriginState {
    let successes = inc32(s.consecutive_successes);
    OriginState {
        consecutive_successes: successes,
        consecutive_failures: 0,
        healthy: if successes >= threshold {
            true
        } else {
            s.healthy
        },
        ..s
    }
}

/// One failure: the failure streak and the failure total grow, the success
/// streak ends, and the origin turns unhealthy once the streak reaches
/// `threshold`.
pub open spec fn after_failure(s: OriginState, threshold: u32) -> OriginState {
    let failures = inc32(s.consecutive_failures);
    OriginState {
        consecutive_failures: failures,
        consecutive_successes: 0,
        total_failures: inc64(s.total_failures),
        healthy: if failures >= threshold {
            false
        } else {
            s.healthy
        },
        ..s
    }
}

/// `n` failures in a row.
pub open spec fn failures(s: OriginState, threshold: u32, n: nat) -> OriginState
    decreases n,
{
    if n == 0 {
        s
    } else {
        after_failure(failures(s, threshold, (n - 1) as nat), threshold)
    }
}

/// `n` successes in a row.
pub open spec fn successes(s: OriginState, threshold: u32, n: nat) -> OriginState
    decreases n,
{
    if n == 0 {
        s
    } else {
        after_success(successes(s, threshold, (n - 1) as nat), threshold)
    }
}

impl Default for OriginState {
    fn default() -> (r: Self)
        ensures
            r == fresh_origin_state(),
    {
        Self::new()
    }
}

impl OriginState {
    /// Healthy, with nothing recorded.
    pub fn new() -> (r: Self)
        ensures
            r == fresh_origin_state(),
    {
        OriginState {
            ewma_latency_ns: 0,
            consecutive_successes: 0,
            consecutive_failures: 0,
            total_requests: 0,
            total_failures: 0,
            healthy: true,
        }
    }

    /// Folds one latency sample (in nanoseconds) into the moving average.
    pub fn record_latency(&mut self, latency_ns: u64)
        ensures
            *final(self) == (OriginState {
                ewma_latency_ns: ewma_next(old(self).ewma_latency_ns, latency_ns),
                ..*old(self)
            }),
    {
        let v: u128 = (latency_ns as u128 + 9 * self.ewma_latency_ns as u128) / 10;
        proof {
            assert(v <= u64::MAX) by (nonlinear_arith)
                requires
                    v == (latency_ns as u128 + 9 * self.ewma_latency_ns as u128) / 10,
                    latency_ns <= u64::MAX,
                    self.ewma_latency_ns <= u64::MAX,
            ;
        }
        self.ewma_latency_ns = v as u64;
    }

    /// One success with the default threshold of two.
    pub fn record_success(&mut self)
        ensures
            *final(self) == after_success(*old(self), 2),
            final(self).consecutive_failures == 0,
            final(self).consecutive_successes >= 2 ==> final(self).healthy,
            final(self).consecutive_successes < 2 ==> final(self).healthy == old(self).healthy,
    {
        self.record_success_with_threshold(2);
    }

    /// One failure with the default threshold of five.
    pub fn record_failure(&mut self)
        ensures
            *final(self) == after_failure(*old(self), 5),
            final(self).consecutive_successes == 0,
            final(self).consecutive_failures >= 5 ==> !final(self).healthy,
            final(self).consecutive_failures < 5 ==> final(self).healthy == old(self).healthy,
    {
        self.record_failure_with_threshold(5);
    }

    /// One success: the origin turns healthy once `threshold` successes are
    /// consecutive.
    pub fn record_success_with_threshold(&mut self, threshold: u32)
        ensures
            *final(self) == after_success(*old(self), threshold),
            old(self).consecutive_successes < u32::MAX ==> final(self).consecutive_successes
                == old(self).consecutive_successes + 1,
            final(self).consecutive_failures == 0,
            final(self).consecutive_successes >= threshold ==> final(self).healthy,
            final(self).consecutive_successes < threshold ==> final(self).healthy == old(
                self,
            ).healthy,
    {
        let successes: u32 = if self.consecutive_successes == u32::MAX {
            0
        } else {
            self.consecutive_successes + 1
        };
        self.consecutive_successes = successes;
        self.consecutive_failures = 0;
        if successes >= threshold {
            self.healthy = true;
        }
    }

    /// One failure: the origin turns unhealthy once `threshold` failures are
    /// consecutive.
    pub fn record_failure_with_threshold(&mut self, threshold: u32)
        ensures
            *final(self) == after_failure(*old(self), threshold),
            old(self).consecutive_failures < u32::MAX ==> final(self).consecutive_failures
                == old(self).consecutive_failures + 1,
            old(self).total_failures < u64::MAX ==> final(self).total_failures == old(
                self,
            ).total_failures + 1,
            final(self).consecutive_successes == 0,
            final(self).consecutive_failures >= threshold ==> !final(self).healthy,
            final(self).consecutive_failures < threshold ==> final(self).healthy == old(
                self,
            ).healthy,
    {
        let failures: u32 = if self.consecutive_failures == u32::MAX {
            0
        } else {
            self.consecutive_failures + 1
        };
        self.consecutive_failures = failures;
        self.consecutive_successes = 0;
        self.total_failures = if self.total_failures == u64::MAX {
            0
        } else {
            self.total_failures + 1
        };
        if failures >= threshold {
            self.healthy = false;
        }
    }

    /// Counts one more request.
    pub fn increment_requests(&mut self)
        ensures
            *final(self) == (OriginState {
                total_requests: inc64(old(self).total_requests),
                ..*old(self)
            }),
    {
        self.total_requests = if self.total_requests == u64::MAX {
            0
        } else {
            self.total_requests + 1
        };
    }
}

/// The moving average stays between the old average and the new sample, and
/// stays put when the sample equals it.
pub proof fn lemma_ewma_between(old: u64, sample: u64)
    ensures
        old <= sample ==> old <= ewma_next(old, sample) <= sample,
        sample <= old ==> sample <= ewma_next(old, sample) <= old,
        sample == old ==> ewma_next(old, sample) == old,
{
}

/// Whether a failure marks an origin unhealthy depends on its failure
/// streak alone: the failure turns it unhealthy exactly when the new streak
/// (one more than before) reaches the threshold, and otherwise leaves its
/// health as it was, however many failures it has in total.
pub proof fn lemma_failure_health_follows_streak(s: OriginState, threshold: u32)
    requires
        s.consecutive_failures < u32::MAX,
    ensures
        after_failure(s, threshold).consecutive_failures == s.consecutive_failures + 1,
        after_failure(s, threshold).healthy == (s.healthy && s.consecutive_failures + 1
            < threshold),
        forall|t: u64|
            #![trigger after_failure(OriginState { total_failures: t, ..s }, threshold)]
            after_failure(OriginState { total_failures: t, ..s }, threshold).healthy
                == after_failure(s, threshold).healthy,
{
}

/// A success ends a failure streak: a single failure after a success leaves
/// the origin's health as the success left it, for any threshold above one,
/// whatever failures came before the success.
pub proof fn lemma_failure_after_success_keeps_health(
    s: OriginState,
    success_threshold: u32,
    failure_threshold: u32,
)
    requires
        failure_threshold >= 2,
    ensures
        after_failure(after_success(s, success_threshold), failure_threshold).consecutive_failures
            == 1,
        after_failure(after_success(s, success_threshold), failure_threshold).healthy
            == after_success(s, success_threshold).healthy,
{
}

/// Whether a success marks an origin healthy depends on its success streak
/// alone: the success turns it healthy exactly when the new streak reaches
/// the threshold, and otherwise leaves its health as it was.
pub proof fn lemma_success_health_follows_streak(s: OriginState, threshold: u32)
    requires
        s.consecutive_successes < u32::MAX,
    ensures
        after_success(s, threshold).consecutive_successes == s.consecutive_successes + 1,
        after_success(s, threshold).healthy == (s.healthy || s.consecutive_successes + 1
            >= threshold),
{
}

/// A streak of `n >= threshold` failures that starts from a success
/// (failure streak zero) leaves the origin unhealthy, when the threshold is
/// positive.
pub proof fn lemma_failures_mark_unhealthy(s: OriginState, threshold: u32, n: nat)
    requires
        s.consecutive_failures == 0,
        1 <= threshold <= n <= u32::MAX,
    ensures
        failures(s, threshold, n).healthy == false,
        failures(s, threshold, n).consecutive_successes == 0,
{
    lemma_failure_streak(s, threshold, n);
}

proof fn lemma_failure_streak(s: OriginState, threshold: u32, n: nat)
    requires
        s.consecutive_failures == 0,
        n <= u32::MAX,
    ensures
        failures(s, threshold, n).consecutive_failures == n,
        n >= threshold && n >= 1 ==> failures(s, threshold, n).healthy == false,
        n >= 1 ==> failures(s, threshold, n).consecutive_successes == 0,
    decreases n,
{
    if n > 0 {
        lemma_failure_streak(s, threshold, (n - 1) as nat);
    }
}

/// A streak of `n >= threshold` successes that starts from a failure
/// (success streak zero) leaves the origin healthy.
pub proof fn lemma_successes_mark_healthy(s: OriginState, threshold: u32, n: nat)
    requires
        s.consecutive_successes == 0,
        1 <= n <= u32::MAX,
        threshold <= n,
    ensures
        successes(s, threshold, n).healthy == true,
        successes(s, threshold, n).consecutive_failures == 0,
{
    lemma_success_streak(s, threshold, n);
}

proof fn lemma_success_streak(s: OriginState, threshold: u32, n: nat)
    requires
        s.consecutive_successes == 0,
        n <= u32::MAX,
    ensures
        successes(s, threshold, n).consecutive_successes == n,
        n >= threshold && n >= 1 ==> successes(s, threshold, n).healthy == true,
        n >= 1 ==> successes(s, threshold, n).consecutive_failures == 0,
    decreases n,
{
    if n > 0 {
        lemma_success_streak(s, threshold, (n - 1) as nat);
    }
}

/// The choice a load balancer makes among candidates.
pub trait LoadBalancer {
    /// Whether candidate `i` may be chosen, given what is kept of each origin.
    spec fn may_select(
        &self,
        candidates: Seq<OriginEndpoint>,
        states: Map<Seq<char>, OriginState>,
        i: int,
    ) -> bool;

    /// Chooses a candidate by index: one that may be chosen, or none when no
    /// candidate may.
    fn select_origin(
        &mut self,
        candidates: &[OriginEndpoint],
        origin_states: &DashMap<String, OriginState>,
    ) -> (r: Option<usize>)
        ensures
            match r {
                Some(i) => i < candidates@.len() && old(self).may_select(
                    candidates@,
                    origin_table(*origin_states),
                    i as int,
                ),
                None => forall|i: int|
                    0 <= i < candidates@.len() ==> !old(self).may_select(
                        candidates@,
                        origin_table(*origin_states),
                        i,
                    ),
            },
    ;
}

} // verus!
