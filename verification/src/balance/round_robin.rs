//! Round-robin selection over the healthy candidates.
use super::{LoadBalancer, OriginEndpoint, OriginState};
use crate::tables::{origin_table, origin_table_get};
use dashmap::DashMap;
use vstd::prelude::*;

verus! {

/// Candidate `i` is kept in `states` and marked healthy.
pub open spec fn rr_healthy(
    candidates: Seq<OriginEndpoint>,
    states: Map<Seq<char>, OriginState>,
    i: int,
) -> bool {
    states.contains_key(candidates[i].url_key@) && states[candidates[i].url_key@].healthy
}

/// The candidate `k` places round from `start` is healthy.
pub open spec fn rr_healthy_at(
    candidates: Seq<OriginEndpoint>,
    states: Map<Seq<char>, OriginState>,
    start: int,
    k: int,
) -> bool {
    rr_healthy(candidates, states, (start + k) % (candidates.len() as int))
}

/// The first healthy candidate at or after offset `d` from `start`, going
/// round the list.
pub open spec fn rr_scan(
    candidates: Seq<OriginEndpoint>,
    states: Map<Seq<char>, OriginState>,
    start: int,
    d: int,
) -> Option<int>
    decreases candidates.len() - d,
{
    if d < 0 || d >= candidates.len() {
        None
    } else if rr_healthy(candidates, states, (start + d) % (candidates.len() as int)) {
        Some((start + d) % (candidates.len() as int))
    } else {
        rr_scan(candidates, states, start, d + 1)
    }
}

/// The candidate a balancer whose counter reads `counter` picks: the first
/// healthy one from position `counter mod n` on.
pub open spec fn rr_pick(
    counter: u64,
    candidates: Seq<OriginEndpoint>,
    states: Map<Seq<char>, OriginState>,
) -> Option<int> {
    if candidates.len() == 0 {
        None
    } else {
        rr_scan(candidates, states, (counter as usize) as int % (candidates.len() as int), 0)
    }
}

/// The counter after one selection among `n` candidates: one step on
/// (wrapping) when there are candidates, unchanged when there are none.
pub open spec fn rr_advance(counter: u64, n: nat) -> u64 {
    if n == 0 {
        counter
    } else if counter == u64::MAX {
        0
    } else {
        (counter + 1) as u64
    }
}

/// Round-robin balancer: each call starts one position further round the
/// candidate list and takes the first healthy candidate from there.
pub struct RoundRobinBalancer {
    counter: u64,
}

impl RoundRobinBalancer {
    /// A balancer that starts at the first candidate.
    pub fn new() -> (r: Self)
        ensures
            r.counter() == 0,
    {
        RoundRobinBalancer { counter: 0 }
    }

    /// The number of selections made so far (wrapping).
    pub closed spec fn counter(&self) -> u64 {
        self.counter
    }

    /// Chooses the first healthy candidate from the current position round
    /// the list, and advances the position when there are candidates.
    pub fn select_index(
        &mut self,
        candidates: &[OriginEndpoint],
        origin_states: &DashMap<String, OriginState>,
    ) -> (r: Option<usize>)
        ensures
            match r {
                Some(i) => rr_pick(old(self).counter(), candidates@, origin_table(*origin_states))
                    == Some(i as int),
                None => rr_pick(old(self).counter(), candidates@, origin_table(*origin_states)) is None,
            },
            match r {
                Some(i) => i < candidates@.len() && rr_healthy(
                    candidates@,
                    origin_table(*origin_states),
                    i as int,
                ),
                None => forall|i: int|
                    0 <= i < candidates@.len() ==> !rr_healthy(
                        candidates@,
                        origin_table(*origin_states),
                        i,
                    ),
            },
            final(self).counter() == rr_advance(old(self).counter(), candidates@.len()),
    {
        if candidates.len() == 0 {
            return None;
        }
        let count = candidates.len();
        let ghost old_counter = self.counter;
        proof {
            let n = count as int;
            let start = (old_counter as usize) as int % n;
            assert(0 <= start < n) by (nonlinear_arith)
                requires
                    n > 0,
                    start == (old_counter as usize) as int % n,
            ;
            lemma_rr_scan(candidates@, origin_table(*origin_states), start, 0);
        }
        let start_idx = (self.counter as usize) % count;
        self.counter = if self.counter == u64::MAX {
            0
        } else {
            self.counter + 1
        };
        let ghost states = origin_table(*origin_states);
        let mut i: usize = 0;
        while i < count
            invariant
                count == candidates@.len(),
                count > 0,
                start_idx < count,
                start_idx as int == (old_counter as usize) as int % (count as int),
                old_counter == old(self).counter,
                self.counter == (if old_counter == u64::MAX {
                    0
                } else {
                    (old_counter + 1) as u64
                }),
                i <= count,
                states == origin_table(*origin_states),
                rr_pick(old_counter, candidates@, states) matches Some(k) ==> 0 <= k < count
                    && rr_healthy(candidates@, states, k),
                rr_pick(old_counter, candidates@, states) is None ==> forall|k: int|
                    0 <= k < count ==> !rr_healthy(candidates@, states, k),
                rr_pick(old_counter, candidates@, states) == rr_scan(
                    candidates@,
                    states,
                    start_idx as int,
                    i as int,
                ),
            decreases count - i,
        {
            let idx: usize = ((start_idx as u128 + i as u128) % (count as u128)) as usize;
            assert(idx as int == (start_idx as int + i as int) % (count as int));
            let origin = &candidates[idx];
            match origin_table_get(origin_states, origin.url_key.as_str()) {
                Some(state) => {
                    if state.healthy {
                        return Some(idx);
                    }
                },
                None => {},
            }
            i = i + 1;
        }
        None
    }
}

impl Default for RoundRobinBalancer {
    fn default() -> (r: Self)
        ensures
            r.counter() == 0,
    {
        Self::new()
    }
}

impl LoadBalancer for RoundRobinBalancer {
    open spec fn may_select(
        &self,
        candidates: Seq<OriginEndpoint>,
        states: Map<Seq<char>, OriginState>,
        i: int,
    ) -> bool {
        rr_healthy(candidates, states, i)
    }

    fn select_origin(
        &mut self,
        candidates: &[OriginEndpoint],
        origin_states: &DashMap<String, OriginState>,
    ) -> (r: Option<usize>)
        ensures
            match r {
                Some(i) => rr_pick(old(self).counter(), candidates@, origin_table(*origin_states))
                    == Some(i as int),
                None => rr_pick(old(self).counter(), candidates@, origin_table(*origin_states)) is None,
            },
            final(self).counter() == rr_advance(old(self).counter(), candidates@.len()),
    {
        self.select_index(candidates, origin_states)
    }
}

/// What the scan finds is healthy and in range; when it finds nothing, no
/// candidate is healthy.
pub proof fn lemma_rr_scan(
    candidates: Seq<OriginEndpoint>,
    states: Map<Seq<char>, OriginState>,
    start: int,
    d: int,
)
    requires
        0 <= start < candidates.len(),
        0 <= d,
    ensures
        rr_scan(candidates, states, start, d) matches Some(i) ==> 0 <= i < candidates.len()
            && rr_healthy(candidates, states, i),
        rr_scan(candidates, states, start, d) is None ==> forall|k: int|
            d <= k < candidates.len() ==> !#[trigger] rr_healthy_at(candidates, states, start, k),
        d == 0 && rr_scan(candidates, states, start, d) is None ==> forall|i: int|
            0 <= i < candidates.len() ==> !#[trigger] rr_healthy(candidates, states, i),
    decreases candidates.len() - d,
{
    if d < candidates.len() {
        lemma_rr_scan(candidates, states, start, d + 1);
    }
    if rr_scan(candidates, states, start, d) is None && d == 0 {
        assert forall|i: int| 0 <= i < candidates.len() implies !rr_healthy(
            candidates,
            states,
            i,
        ) by {
            let n = candidates.len() as int;
            let k = if i >= start {
                i - start
            } else {
                i - start + n
            };
            assert((start + k) % n == i) by (nonlinear_arith)
                requires
                    0 <= start < n,
                    0 <= i < n,
                    k == if i >= start {
                        i - start
                    } else {
                        i - start + n
                    },
            ;
            assert(!rr_healthy_at(candidates, states, start, k));
        }
    }
}

/// When every candidate is healthy, the balancer picks the candidate at its
/// counter's position, so successive calls go round the list one by one.
pub proof fn lemma_round_robin_all_healthy(
    counter: u64,
    candidates: Seq<OriginEndpoint>,
    states: Map<Seq<char>, OriginState>,
)
    requires
        candidates.len() > 0,
        forall|i: int| 0 <= i < candidates.len() ==> rr_healthy(candidates, states, i),
    ensures
        rr_pick(counter, candidates, states) == Some(
            (counter as usize) as int % (candidates.len() as int),
        ),
{
    let n = candidates.len() as int;
    let start = (counter as usize) as int % n;
    assert(0 <= start < n) by (nonlinear_arith)
        requires
            n > 0,
            start == (counter as usize) as int % n,
    ;
    assert((start + 0) % n == start) by (nonlinear_arith)
        requires
            0 <= start < n,
    ;
}

} // verus!
