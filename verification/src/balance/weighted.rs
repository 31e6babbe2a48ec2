//! Latency-weighted random selection.
//!
//! A candidate's weight is `1 / (latency_ns + 1)` times its configured weight,
//! held in fixed point with `2^64` standing for one: an unhealthy candidate
//! weighs nothing, a candidate with no kept state weighs one.
use super::{LoadBalancer, OriginEndpoint, OriginState};
use crate::tables::{origin_table, origin_table_get};
use dashmap::DashMap;
use vstd::prelude::*;

verus! {

/// One, in the fixed point of the weights.
pub const SCALE: u128 = 0x1_0000_0000_0000_0000;

/// The base weight of a candidate: none when kept and unhealthy, else
/// `SCALE / (latency + 1)` when kept, else `SCALE`.
pub open spec fn base_weight(c: OriginEndpoint, states: Map<Seq<char>, OriginState>) -> nat {
    if states.contains_key(c.url_key@) {
        let s = states[c.url_key@];
        if !s.healthy {
            0
        } else {
            (SCALE / (s.ewma_latency_ns + 1) as u128) as nat
        }
    } else {
        SCALE as nat
    }
}

/// The weight of a candidate: its base weight times its configured weight.
pub open spec fn candidate_weight(c: OriginEndpoint, states: Map<Seq<char>, OriginState>) -> nat {
    match c.weight {
        Some(w) => (base_weight(c, states) * w) as nat,
        None => base_weight(c, states),
    }
}

/// Sum of a sequence of weights.
pub open spec fn sum(ws: Seq<u128>) -> nat
    decreases ws.len(),
{
    if ws.len() == 0 {
        0
    } else {
        (sum(ws.drop_last()) + ws.last()) as nat
    }
}

/// The running total of the first `i` weights, saturating at `u128::MAX`.
pub open spec fn prefix(ws: Seq<u128>, i: int) -> nat {
    let s = sum(ws.take(i));
    if s > u128::MAX {
        u128::MAX as nat
    } else {
        s
    }
}

/// The saturating total of all weights.
pub open spec fn total(ws: Seq<u128>) -> nat {
    prefix(ws, ws.len() as int)
}

/// The index whose share of the running total holds `point`: the first `i`
/// whose running total after it exceeds `point`.
pub open spec fn picks(ws: Seq<u128>, point: u128, i: int) -> bool {
    &&& 0 <= i < ws.len()
    &&& prefix(ws, i) <= point
    &&& point < prefix(ws, i + 1)
}

proof fn lemma_sum_take(ws: Seq<u128>, i: int)
    requires
        0 <= i < ws.len(),
    ensures
        sum(ws.take(i + 1)) == sum(ws.take(i)) + ws[i],
{
    assert(ws.take(i + 1).drop_last() =~= ws.take(i));
}

proof fn lemma_prefix_step(ws: Seq<u128>, i: int)
    requires
        0 <= i < ws.len(),
    ensures
        prefix(ws, i + 1) == if prefix(ws, i) + ws[i] > u128::MAX {
            u128::MAX as nat
        } else {
            (prefix(ws, i) + ws[i]) as nat
        },
{
    lemma_sum_take(ws, i);
}

/// The total is zero exactly when every weight is.
proof fn lemma_total_zero(ws: Seq<u128>, i: int)
    requires
        0 <= i <= ws.len(),
    ensures
        (prefix(ws, i) == 0) == (forall|k: int| 0 <= k < i ==> ws[k] == 0),
    decreases i,
{
    if i > 0 {
        lemma_total_zero(ws, i - 1);
        lemma_prefix_step(ws, i - 1);
    } else {
        assert(ws.take(0) =~= Seq::<u128>::empty());
    }
}

/// The total of the weights, saturating at `u128::MAX`; zero exactly when
/// every weight is.
pub fn total_weight(weights: &Vec<u128>) -> (r: u128)
    ensures
        r == total(weights@),
        (r == 0) == (forall|k: int| 0 <= k < weights@.len() ==> weights@[k] == 0),
{
    let mut t: u128 = 0;
    let mut i: usize = 0;
    proof {
        assert(weights@.take(0) =~= Seq::<u128>::empty());
    }
    while i < weights.len()
        invariant
            i <= weights@.len(),
            t == prefix(weights@, i as int),
        decreases weights@.len() - i,
    {
        proof {
            lemma_prefix_step(weights@, i as int);
        }
        let w = weights[i];
        t = if t > u128::MAX - w {
            u128::MAX
        } else {
            t + w
        };
        i = i + 1;
    }
    proof {
        lemma_total_zero(weights@, weights@.len() as int);
    }
    t
}

/// The index whose share of the running total holds `point`.
pub fn weighted_pick(weights: &Vec<u128>, point: u128) -> (i: usize)
    requires
        point < total(weights@),
    ensures
        picks(weights@, point, i as int),
        weights@[i as int] > 0,
{
    let mut cum: u128 = 0;
    let mut i: usize = 0;
    proof {
        assert(weights@.take(0) =~= Seq::<u128>::empty());
    }
    while i < weights.len()
        invariant
            i <= weights@.len(),
            cum == prefix(weights@, i as int),
            cum <= point,
            point < total(weights@),
        decreases weights@.len() - i,
    {
        proof {
            lemma_prefix_step(weights@, i as int);
        }
        let w = weights[i];
        let next: u128 = if cum > u128::MAX - w {
            u128::MAX
        } else {
            cum + w
        };
        if next > point {
            return i;
        }
        cum = next;
        i = i + 1;
    }
    i
}

proof fn lemma_sum_take_bounded(ws: Seq<u128>, k: int)
    requires
        0 <= k <= ws.len(),
    ensures
        sum(ws.take(k)) <= sum(ws),
    decreases ws.len() - k,
{
    if k == ws.len() {
        assert(ws.take(k) =~= ws);
    } else {
        lemma_sum_take(ws, k);
        lemma_sum_take_bounded(ws, k + 1);
    }
}

/// The points below the total weight that pick candidate `i`.
pub open spec fn draws_picking(ws: Seq<u128>, i: int) -> Set<int> {
    Set::new(|p: int| 0 <= p < total(ws) && picks(ws, p as u128, i))
}

/// Of the points below the total weight, exactly `ws[i]` pick candidate
/// `i` (when the weights' sum fits in a `u128`): a point drawn uniformly
/// below the total picks each candidate with probability proportional to
/// its weight, and never one that weighs nothing.
pub proof fn lemma_pick_share_is_weight(ws: Seq<u128>, i: int)
    requires
        0 <= i < ws.len(),
        sum(ws) <= u128::MAX,
    ensures
        draws_picking(ws, i).finite(),
        draws_picking(ws, i).len() == ws[i],
{
    lemma_sum_take(ws, i);
    lemma_sum_take_bounded(ws, i + 1);
    lemma_sum_take_bounded(ws, ws.len() as int);
    assert(ws.take(ws.len() as int) =~= ws);
    let lo = prefix(ws, i) as int;
    let hi = prefix(ws, i + 1) as int;
    assert(hi == lo + ws[i]);
    assert(hi <= total(ws));
    assert(draws_picking(ws, i) =~= vstd::set_lib::set_int_range(lo, hi));
    vstd::set_lib::lemma_int_range(lo, hi);
}

/// `rand::random_range(0..bound)`: a number below `bound`. Nothing more is
/// stated of it: it is drawn at random.
#[verifier::external_body]
fn random_below(bound: u128) -> (r: u128)
    requires
        bound > 0,
    ensures
        r < bound,
{
    rand::random_range(0..bound)
}

/// The fixed-point weights of the candidates, in order.
fn latency_weights(candidates: &[OriginEndpoint], origin_states: &DashMap<String, OriginState>) -> (r:
    Vec<u128>)
    ensures
        r@.len() == candidates@.len(),
        forall|i: int|
            0 <= i < r@.len() ==> r@[i] == candidate_weight(
                #[trigger] candidates@[i],
                origin_table(*origin_states),
            ),
{
    let ghost states = origin_table(*origin_states);
    let mut weights: Vec<u128> = Vec::new();
    let mut i: usize = 0;
    while i < candidates.len()
        invariant
            i <= candidates@.len(),
            weights@.len() == i,
            states == origin_table(*origin_states),
            forall|k: int|
                0 <= k < i ==> weights@[k] == candidate_weight(#[trigger] candidates@[k], states),
        decreases candidates@.len() - i,
    {
        let origin = &candidates[i];
        let base: u128 = match origin_table_get(origin_states, origin.url_key.as_str()) {
            Some(state) => {
                if !state.healthy {
                    0
                } else {
                    let d: u128 = state.ewma_latency_ns as u128 + 1;
                    let q: u128 = SCALE / d;
                    proof {
                        assert(q <= SCALE) by (nonlinear_arith)
                            requires
                                d >= 1,
                                q == SCALE / d,
                        ;
                    }
                    q
                }
            },
            None => SCALE,
        };
        let weight: u128 = match origin.weight {
            Some(w) => {
                proof {
                    assert(base * w <= SCALE * u32::MAX) by (nonlinear_arith)
                        requires
                            base <= SCALE,
                            w <= u32::MAX,
                    ;
                }
                base * (w as u128)
            },
            None => base,
        };
        weights.push(weight);
        i = i + 1;
    }
    weights
}

/// Picks a candidate at random, each with probability proportional to its
/// weight; none when every weight is zero.
fn select_weighted(candidates: &[OriginEndpoint], origin_states: &DashMap<String, OriginState>) -> (r:
    Option<usize>)
    ensures
        match r {
            Some(i) => i < candidates@.len() && candidate_weight(
                candidates@[i as int],
                origin_table(*origin_states),
            ) > 0,
            None => forall|i: int|
                0 <= i < candidates@.len() ==> candidate_weight(
                    #[trigger] candidates@[i],
                    origin_table(*origin_states),
                ) == 0,
        },
{
    if candidates.len() == 0 {
        return None;
    }
    let weights = latency_weights(candidates, origin_states);
    let weight_sum = total_weight(&weights);
    if weight_sum == 0 {
        assert forall|i: int| 0 <= i < candidates@.len() implies candidate_weight(
            #[trigger] candidates@[i],
            origin_table(*origin_states),
        ) == 0 by {
            assert(weights@[i] == 0);
        }
        return None;
    }
    let point = random_below(weight_sum);
    let idx = weighted_pick(&weights, point);
    Some(idx)
}

/// Weighted-latency balancer: random selection with probability proportional
/// to each candidate's weight.
pub struct WeightedLatencyBalancer;

impl WeightedLatencyBalancer {
    /// The balancer (it keeps no state).
    pub fn new() -> (r: Self) {
        WeightedLatencyBalancer
    }
}

impl Default for WeightedLatencyBalancer {
    fn default() -> (r: Self) {
        Self::new()
    }
}

impl LoadBalancer for WeightedLatencyBalancer {
    open spec fn may_select(
        &self,
        candidates: Seq<OriginEndpoint>,
        states: Map<Seq<char>, OriginState>,
        i: int,
    ) -> bool {
        candidate_weight(candidates[i], states) > 0
    }

    fn select_origin(
        &mut self,
        candidates: &[OriginEndpoint],
        origin_states: &DashMap<String, OriginState>,
    ) -> (r: Option<usize>) {
        select_weighted(candidates, origin_states)
    }
}

/// Weighted-metrics balancer. Pod pressure data is not available, so it
/// weighs candidates by latency exactly as the weighted-latency balancer.
pub struct WeightedMetricsBalancer;

impl WeightedMetricsBalancer {
    /// The balancer (it keeps no state).
    pub fn new() -> (r: Self) {
        WeightedMetricsBalancer
    }
}

impl Default for WeightedMetricsBalancer {
    fn default() -> (r: Self) {
        Self::new()
    }
}

impl LoadBalancer for WeightedMetricsBalancer {
    open spec fn may_select(
        &self,
        candidates: Seq<OriginEndpoint>,
        states: Map<Seq<char>, OriginState>,
        i: int,
    ) -> bool {
        candidate_weight(candidates[i], states) > 0
    }

    fn select_origin(
        &mut self,
        candidates: &[OriginEndpoint],
        origin_states: &DashMap<String, OriginState>,
    ) -> (r: Option<usize>) {
        select_weighted(candidates, origin_states)
    }
}

/// The weighted-metrics balancer weighs candidates exactly as the
/// weighted-latency balancer does: the two may choose the same candidates.
pub proof fn lemma_metrics_weighs_as_latency(
    m: WeightedMetricsBalancer,
    l: WeightedLatencyBalancer,
    candidates: Seq<OriginEndpoint>,
    states: Map<Seq<char>, OriginState>,
    i: int,
)
    ensures
        m.may_select(candidates, states, i) == l.may_select(candidates, states, i),
{
}

} // verus!
