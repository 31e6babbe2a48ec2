//! Host and path routing to pools of origins.
use crate::balance::round_robin::{rr_advance, rr_pick};
use crate::balance::{
    LoadBalancer, OriginEndpoint, OriginState, RoundRobinBalancer, WeightedLatencyBalancer,
    WeightedMetricsBalancer,
};
use crate::config::{LbAlgorithm, OriginConfig, PoolRef, ProxyConfig, RouteConfig};
use crate::discovery::{url_views, K8sOrigins};
use crate::origin_url::OriginUrlView;
use crate::tables::origin_table;
use crate::text::{
    count_and_find, count_char, ends_with, is_prefix, is_suffix, starts_with, str_eq,
};
use dashmap::DashMap;
use vstd::prelude::*;

verus! {

// ---------------------------------------------------------------------------
// Matching
// ---------------------------------------------------------------------------
/// `k` is the position of the first `*` of `p`.
pub open spec fn is_first_star(p: Seq<char>, k: int) -> bool {
    &&& 0 <= k < p.len()
    &&& p[k] == '*'
    &&& forall|j: int| 0 <= j < k ==> p[j] != '*'
}

/// Whether `value` matches the host pattern `pattern`: `*` matches anything;
/// a pattern with exactly one `*` matches values that start with the part
/// before it and end with the part after it; any other pattern matches only
/// itself.
#[verifier::opaque]
pub open spec fn glob_match(value: Seq<char>, pattern: Seq<char>) -> bool {
    if pattern == "*"@ {
        true
    } else if count_char(pattern, '*') == 1 {
        let k = choose|k: int| is_first_star(pattern, k);
        is_prefix(pattern.take(k), value) && is_suffix(pattern.skip(k + 1), value)
    } else {
        value == pattern
    }
}

proof fn lemma_first_star_unique(p: Seq<char>, k: int)
    requires
        is_first_star(p, k),
    ensures
        (choose|j: int| is_first_star(p, j)) == k,
{
    let j = choose|j: int| is_first_star(p, j);
    assert(is_first_star(p, j));
    if j < k {
        assert(p[j] != '*');
    } else if j > k {
        assert(p[k] != '*');
    }
}

proof fn lemma_count_char_concat(a: Seq<char>, b: Seq<char>, c: char)
    ensures
        count_char(a + b, c) == count_char(a, c) + count_char(b, c),
    decreases b.len(),
{
    if b.len() > 0 {
        lemma_count_char_concat(a, b.drop_last(), c);
        assert((a + b).drop_last() =~= a + b.drop_last());
    } else {
        assert(a + b =~= a);
    }
}

/// The pattern `*` matches every host.
pub proof fn lemma_star_matches_every_host(value: Seq<char>)
    ensures
        glob_match(value, "*"@),
{
    reveal(glob_match);
}

/// A pattern without `*` matches exactly the host equal to it.
pub proof fn lemma_plain_pattern_matches_only_itself(value: Seq<char>, pattern: Seq<char>)
    requires
        count_char(pattern, '*') == 0,
    ensures
        glob_match(value, pattern) == (value == pattern),
{
    reveal(glob_match);
    reveal_strlit("*");
    if pattern == "*"@ {
        assert(pattern.drop_last() =~= Seq::<char>::empty());
    }
}

/// A pattern with one `*`, at any position, matches exactly the hosts that
/// start with the part before the `*` and end with the part after it
/// (`api-*.internal` matches `api-1.internal`, not `api-1.example.org`).
pub proof fn lemma_one_star_matches_prefix_and_suffix(
    value: Seq<char>,
    before: Seq<char>,
    after: Seq<char>,
)
    requires
        count_char(before, '*') == 0,
        count_char(after, '*') == 0,
    ensures
        glob_match(value, before + seq!['*'] + after) == (before.len() <= value.len()
            && value.take(before.len() as int) == before && after.len() <= value.len()
            && value.skip(value.len() - after.len()) == after),
{
    reveal(glob_match);
    reveal_strlit("*");
    let star = seq!['*'];
    let pattern = before + star + after;
    assert(star.drop_last() =~= Seq::<char>::empty());
    assert(count_char(star.drop_last(), '*') == 0);
    assert(star.last() == '*');
    assert(count_char(star, '*') == 1);
    lemma_count_char_concat(before, star, '*');
    lemma_count_char_concat(before + star, after, '*');
    let k = before.len() as int;
    assert forall|j: int| 0 <= j < k implies pattern[j] != '*' by {
        if pattern[j] == '*' {
            lemma_char_counted(before, j);
        }
    }
    assert(is_first_star(pattern, k));
    lemma_first_star_unique(pattern, k);
    assert(pattern.take(k) =~= before);
    assert(pattern.skip(k + 1) =~= after);
    if pattern == "*"@ {
        assert(pattern.len() == 1);
        assert(before =~= Seq::<char>::empty());
        assert(after =~= Seq::<char>::empty());
        assert(value.take(0) =~= Seq::<char>::empty());
        assert(value.skip(value.len() as int) =~= Seq::<char>::empty());
    } else {
        if before.len() <= value.len() {
            assert(value.take(k) =~= value.subrange(0, k));
        }
        if after.len() <= value.len() {
            assert(value.skip(value.len() - after.len()) =~= value.subrange(
                value.len() - after.len(),
                value.len() as int,
            ));
        }
    }
}

proof fn lemma_char_counted(s: Seq<char>, j: int)
    requires
        0 <= j < s.len(),
        s[j] == '*',
    ensures
        count_char(s, '*') >= 1,
    decreases s.len(),
{
    if j < s.len() - 1 {
        lemma_char_counted(s.drop_last(), j);
    }
}

/// A pattern `*` followed by a part without `*` matches exactly the hosts
/// that end with that part (`*.example.com` matches `foo.example.com` and
/// not `example.com`).
pub proof fn lemma_leading_star_matches_suffix(value: Seq<char>, rest: Seq<char>)
    requires
        count_char(rest, '*') == 0,
    ensures
        glob_match(value, seq!['*'] + rest) == is_suffix(rest, value),
{
    reveal(glob_match);
    reveal_strlit("*");
    assert("*"@.len() == 1);
    let pattern = seq!['*'] + rest;
    if pattern == "*"@ {
        assert(pattern.len() == 1 + rest.len());
        assert(value.subrange(value.len() as int, value.len() as int) =~= rest);
    } else {
        lemma_count_char_concat(seq!['*'], rest, '*');
        assert(is_first_star(pattern, 0));
        lemma_first_star_unique(pattern, 0);
        assert(pattern.take(0) =~= Seq::<char>::empty());
        assert(value.subrange(0, 0) =~= Seq::<char>::empty());
        assert(pattern.skip(1) =~= rest);
        let one = seq!['*'];
        assert(one.drop_last() =~= Seq::<char>::empty());
        assert(count_char(one.drop_last(), '*') == 0);
        assert(one.last() == '*');
        assert(count_char(one, '*') == 1);
    }
}

/// The host of a request matches the route's host pattern, if it has one.
pub open spec fn host_matches(e: RouteEntry, host: Seq<char>) -> bool {
    match e.match_host {
        Some(p) => glob_match(host, p@),
        None => true,
    }
}

/// The path of a request starts with the route's path prefix, if it has one.
pub open spec fn path_matches(e: RouteEntry, path: Seq<char>) -> bool {
    match e.match_path {
        Some(p) => is_prefix(p@, path),
        None => true,
    }
}

/// A route takes a request when both its host and its path match.
#[verifier::opaque]
pub open spec fn route_matches(e: RouteEntry, host: Seq<char>, path: Seq<char>) -> bool {
    host_matches(e, host) && path_matches(e, path)
}

/// The first route that takes a request.
#[verifier::opaque]
pub open spec fn first_match(routes: Seq<RouteEntry>, host: Seq<char>, path: Seq<char>) -> Option<
    int,
> {
    if exists|i: int| 0 <= i < routes.len() && route_matches(routes[i], host, path) {
        Some(
            choose|i: int|
                0 <= i < routes.len() && route_matches(routes[i], host, path) && forall|j: int|
                    0 <= j < i ==> !route_matches(routes[j], host, path),
        )
    } else {
        None
    }
}

/// Routes are tried in order: when route `i` takes a request, the route
/// chosen is `i` or one before it, and no route before the chosen one takes
/// the request.
pub proof fn lemma_first_matching_route_wins(
    routes: Seq<RouteEntry>,
    host: Seq<char>,
    path: Seq<char>,
    i: int,
)
    requires
        0 <= i < routes.len(),
        route_matches(routes[i], host, path),
    ensures
        first_match(routes, host, path) matches Some(j) && 0 <= j <= i && route_matches(
            routes[j],
            host,
            path,
        ) && forall|k: int| 0 <= k < j ==> !route_matches(#[trigger] routes[k], host, path),
{
    reveal(first_match);
    lemma_least_match_exists(routes, host, path, i);
    let j = first_match(routes, host, path)->0;
    if j > i {
        assert(!route_matches(routes[i], host, path));
    }
}

proof fn lemma_least_match_exists(routes: Seq<RouteEntry>, host: Seq<char>, path: Seq<char>, i: int)
    requires
        0 <= i < routes.len(),
        route_matches(routes[i], host, path),
    ensures
        exists|j: int|
            0 <= j < routes.len() && route_matches(routes[j], host, path) && forall|k: int|
                0 <= k < j ==> !route_matches(routes[k], host, path),
    decreases i,
{
    if exists|k: int| 0 <= k < i && route_matches(routes[k], host, path) {
        let k = choose|k: int| 0 <= k < i && route_matches(routes[k], host, path);
        lemma_least_match_exists(routes, host, path, k);
    } else {
        assert(forall|k: int| 0 <= k < i ==> !route_matches(routes[k], host, path));
    }
}

// ---------------------------------------------------------------------------
// Building
// ---------------------------------------------------------------------------
/// What an endpoint stands for: its URL, weight and health check path.
pub struct EndpointView {
    pub url: OriginUrlView,
    pub weight: Option<u32>,
    pub health_check_path: Option<Seq<char>>,
}

/// What an endpoint stands for.
pub open spec fn endpoint_view(e: OriginEndpoint) -> EndpointView {
    EndpointView {
        url: e.url@,
        weight: e.weight,
        health_check_path: e.health_check_path.deep_view(),
    }
}

/// The endpoint of a configured origin.
pub open spec fn config_endpoint(o: OriginConfig) -> EndpointView {
    EndpointView { url: o.url@, weight: o.weight, health_check_path: o.health_check_path.deep_view() }
}

/// The endpoint of a discovered origin: no weight, no health check path.
pub open spec fn discovered_endpoint(u: OriginUrlView) -> EndpointView {
    EndpointView { url: u, weight: None, health_check_path: None }
}

/// The endpoints of one pool: its configured origins, then the origins
/// discovered for its name.
pub open spec fn pool_endpoints(
    p: PoolRef,
    discovered: spec_fn(Seq<char>) -> Option<Seq<OriginUrlView>>,
) -> Seq<EndpointView> {
    p.origins@.map_values(|o: OriginConfig| config_endpoint(o)) + match discovered(p.name@) {
        Some(us) => us.map_values(|u: OriginUrlView| discovered_endpoint(u)),
        None => Seq::empty(),
    }
}

/// The endpoints of a route: those of its pools, pool after pool.
pub open spec fn route_endpoints(
    pools: Seq<PoolRef>,
    discovered: spec_fn(Seq<char>) -> Option<Seq<OriginUrlView>>,
) -> Seq<EndpointView>
    decreases pools.len(),
{
    if pools.len() == 0 {
        Seq::empty()
    } else {
        route_endpoints(pools.drop_last(), discovered) + pool_endpoints(pools.last(), discovered)
    }
}

/// The key of a route: its host and path, `*` for either that is absent,
/// joined by `:`.
pub open spec fn route_key(host: Option<Seq<char>>, path: Option<Seq<char>>) -> Seq<char> {
    (match host {
        Some(h) => h,
        None => "*"@,
    }) + ":"@ + (match path {
        Some(p) => p,
        None => "*"@,
    })
}

/// `e` is the entry built for route `r`, with a fresh balancer.
pub open spec fn entry_for(
    e: RouteEntry,
    r: RouteConfig,
    discovered: spec_fn(Seq<char>) -> Option<Seq<OriginUrlView>>,
) -> bool {
    &&& e.match_host.deep_view() == r.match_host.deep_view()
    &&& e.match_path.deep_view() == r.match_path.deep_view()
    &&& e.key@ == route_key(r.match_host.deep_view(), r.match_path.deep_view())
    &&& e.load_balancer.algorithm() == r.lb_algorithm
    &&& (e.load_balancer matches Balancer::RoundRobin(b) ==> b.counter() == 0)
    &&& e.candidates@.map_values(|c: OriginEndpoint| endpoint_view(c)) == route_endpoints(
        r.pools@,
        discovered,
    )
    &&& forall|i: int| 0 <= i < e.candidates@.len() ==> (#[trigger] e.candidates@[i]).wf()
}

/// Nothing discovered.
pub open spec fn nothing_discovered() -> spec_fn(Seq<char>) -> Option<Seq<OriginUrlView>> {
    |k: Seq<char>| None
}

/// What `k8s` records for each pool.
pub open spec fn discovered_in(k8s: K8sOrigins) -> spec_fn(Seq<char>) -> Option<
    Seq<OriginUrlView>,
> {
    |k: Seq<char>| k8s.lookup(k)
}

/// A pool whose name has no discovered origins has only its configured
/// endpoints.
proof fn lemma_endpoints_without_discovery(
    pools: Seq<PoolRef>,
    d: spec_fn(Seq<char>) -> Option<Seq<OriginUrlView>>,
)
    requires
        forall|j: int| 0 <= j < pools.len() ==> d(#[trigger] pools[j].name@) is None,
    ensures
        route_endpoints(pools, d) == route_endpoints(pools, nothing_discovered()),
    decreases pools.len(),
{
    if pools.len() > 0 {
        let last = pools.len() - 1;
        assert(d(pools[last].name@) is None);
        assert forall|j: int| 0 <= j < pools.drop_last().len() implies d(
            #[trigger] pools.drop_last()[j].name@,
        ) is None by {
            assert(pools.drop_last()[j] == pools[j]);
        }
        lemma_endpoints_without_discovery(pools.drop_last(), d);
        assert(pool_endpoints(pools.last(), d) =~= pool_endpoints(
            pools.last(),
            nothing_discovered(),
        ));
    }
}

/// Two routes agree: the same host and path, key, algorithm and candidates.
pub open spec fn entries_agree(a: RouteEntry, b: RouteEntry) -> bool {
    &&& a.match_host.deep_view() == b.match_host.deep_view()
    &&& a.match_path.deep_view() == b.match_path.deep_view()
    &&& a.key@ == b.key@
    &&& a.load_balancer.algorithm() == b.load_balancer.algorithm()
    &&& a.candidates@.map_values(|x: OriginEndpoint| endpoint_view(x)) == b.candidates@.map_values(
        |x: OriginEndpoint| endpoint_view(x),
    )
}

proof fn lemma_entry_without_discovery(a: RouteEntry, b: RouteEntry, r: RouteConfig, k8s: K8sOrigins)
    requires
        entry_for(a, r, discovered_in(k8s)),
        entry_for(b, r, nothing_discovered()),
        forall|j: int| 0 <= j < r.pools@.len() ==> k8s.lookup(#[trigger] r.pools@[j].name@) is None,
    ensures
        entries_agree(a, b),
        forall|host: Seq<char>, path: Seq<char>|
            #[trigger] route_matches(a, host, path) == route_matches(b, host, path),
{
    let d = discovered_in(k8s);
    assert forall|j: int| 0 <= j < r.pools@.len() implies d(#[trigger] r.pools@[j].name@) is None by {
        assert(k8s.lookup(r.pools@[j].name@) is None);
    }
    lemma_endpoints_without_discovery(r.pools@, d);
    reveal(route_matches);
}

proof fn lemma_same_matches_same_first(
    ra: Seq<RouteEntry>,
    rb: Seq<RouteEntry>,
    host: Seq<char>,
    path: Seq<char>,
)
    requires
        ra.len() == rb.len(),
        forall|i: int|
            0 <= i < ra.len() ==> route_matches(#[trigger] ra[i], host, path) == route_matches(
                rb[i],
                host,
                path,
            ),
    ensures
        first_match(ra, host, path) == first_match(rb, host, path),
{
    if exists|i: int| 0 <= i < ra.len() && route_matches(ra[i], host, path) {
        let i = choose|i: int| 0 <= i < ra.len() && route_matches(ra[i], host, path);
        assert(route_matches(rb[i], host, path));
        lemma_first_matching_route_wins(ra, host, path, i);
        lemma_first_matching_route_wins(rb, host, path, i);
        let a = first_match(ra, host, path)->0;
        let b = first_match(rb, host, path)->0;
        if a < b {
            assert(route_matches(ra[a], host, path));
            assert(!route_matches(rb[a], host, path));
        } else if b < a {
            assert(route_matches(rb[b], host, path));
            assert(!route_matches(ra[b], host, path));
        }
    } else {
        reveal(first_match);
        if exists|i: int| 0 <= i < rb.len() && route_matches(rb[i], host, path) {
            let i = choose|i: int| 0 <= i < rb.len() && route_matches(rb[i], host, path);
            assert(route_matches(ra[i], host, path));
        }
    }
}

/// When no pool name of `c` has discovered origins, routes built with the
/// discovered origins agree with routes built from the configuration alone:
/// route by route, the same host and path, key, algorithm and candidates, so
/// each request is taken by the same routes and the same route comes first.
pub proof fn lemma_no_discovery_same_routes(
    with_k8s: Router,
    plain: Router,
    c: ProxyConfig,
    k8s: K8sOrigins,
)
    requires
        with_k8s.routes@.len() == c.routes@.len(),
        plain.routes@.len() == c.routes@.len(),
        forall|i: int|
            0 <= i < c.routes@.len() ==> entry_for(
                #[trigger] with_k8s.routes@[i],
                c.routes@[i],
                discovered_in(k8s),
            ),
        forall|i: int|
            0 <= i < c.routes@.len() ==> entry_for(
                #[trigger] plain.routes@[i],
                c.routes@[i],
                nothing_discovered(),
            ),
        forall|i: int, j: int|
            0 <= i < c.routes@.len() && 0 <= j < c.routes@[i].pools@.len() ==> k8s.lookup(
                #[trigger] c.routes@[i].pools@[j].name@,
            ) is None,
    ensures
        forall|i: int|
            0 <= i < c.routes@.len() ==> entries_agree(#[trigger] with_k8s.routes@[i], plain.routes@[i]),
        forall|host: Seq<char>, path: Seq<char>|
            #[trigger] first_match(with_k8s.routes@, host, path) == first_match(
                plain.routes@,
                host,
                path,
            ),
{
    assert forall|i: int| 0 <= i < c.routes@.len() implies entries_agree(
        #[trigger] with_k8s.routes@[i],
        plain.routes@[i],
    ) && forall|host: Seq<char>, path: Seq<char>|
        #[trigger] route_matches(with_k8s.routes@[i], host, path) == route_matches(
            plain.routes@[i],
            host,
            path,
        ) by {
        let r = c.routes@[i];
        assert forall|j: int| 0 <= j < r.pools@.len() implies k8s.lookup(
            #[trigger] r.pools@[j].name@,
        ) is None by {
            assert(k8s.lookup(c.routes@[i].pools@[j].name@) is None);
        }
        lemma_entry_without_discovery(with_k8s.routes@[i], plain.routes@[i], r, k8s);
    }
    assert forall|host: Seq<char>, path: Seq<char>|
        #[trigger] first_match(with_k8s.routes@, host, path) == first_match(
            plain.routes@,
            host,
            path,
        ) by {
        lemma_same_matches_same_first(with_k8s.routes@, plain.routes@, host, path);
    }
}

// ---------------------------------------------------------------------------
// Types
// ---------------------------------------------------------------------------
/// The load balancer of a route.
pub enum Balancer {
    RoundRobin(RoundRobinBalancer),
    WeightedLatency(WeightedLatencyBalancer),
    WeightedMetrics(WeightedMetricsBalancer),
}

impl Balancer {
    /// The algorithm this balancer runs.
    pub open spec fn algorithm(&self) -> LbAlgorithm {
        match self {
            Balancer::RoundRobin(_) => LbAlgorithm::RoundRobin,
            Balancer::WeightedLatency(_) => LbAlgorithm::WeightedLatency,
            Balancer::WeightedMetrics(_) => LbAlgorithm::WeightedMetrics,
        }
    }

    /// A fresh balancer for `algorithm`.
    pub fn for_algorithm(algorithm: LbAlgorithm) -> (r: Self)
        ensures
            r.algorithm() == algorithm,
            r matches Balancer::RoundRobin(b) ==> b.counter() == 0,
    {
        match algorithm {
            LbAlgorithm::RoundRobin => Balancer::RoundRobin(RoundRobinBalancer::new()),
            LbAlgorithm::WeightedLatency => Balancer::WeightedLatency(WeightedLatencyBalancer::new()),
            LbAlgorithm::WeightedMetrics => Balancer::WeightedMetrics(WeightedMetricsBalancer::new()),
        }
    }
}

/// For a round-robin balancer: the choice is the one its counter picks, and
/// the counter moves one step on.
pub open spec fn round_robin_step(
    before: Balancer,
    after: Balancer,
    candidates: Seq<OriginEndpoint>,
    states: Map<Seq<char>, OriginState>,
    r: Option<usize>,
) -> bool {
    match before {
        Balancer::RoundRobin(b) => {
            &&& after matches Balancer::RoundRobin(b2) && b2.counter() == rr_advance(
                b.counter(),
                candidates.len(),
            )
            &&& match r {
                Some(i) => rr_pick(b.counter(), candidates, states) == Some(i as int),
                None => rr_pick(b.counter(), candidates, states) is None,
            }
        },
        _ => true,
    }
}

impl LoadBalancer for Balancer {
    open spec fn may_select(
        &self,
        candidates: Seq<OriginEndpoint>,
        states: Map<Seq<char>, OriginState>,
        i: int,
    ) -> bool {
        match self {
            Balancer::RoundRobin(b) => b.may_select(candidates, states, i),
            Balancer::WeightedLatency(b) => b.may_select(candidates, states, i),
            Balancer::WeightedMetrics(b) => b.may_select(candidates, states, i),
        }
    }

    fn select_origin(
        &mut self,
        candidates: &[OriginEndpoint],
        origin_states: &DashMap<String, OriginState>,
    ) -> (r: Option<usize>)
        ensures
            final(self).algorithm() == old(self).algorithm(),
            round_robin_step(*old(self), *final(self), candidates@, origin_table(*origin_states), r),
    {
        match self {
            Balancer::RoundRobin(b) => b.select_origin(candidates, origin_states),
            Balancer::WeightedLatency(b) => b.select_origin(candidates, origin_states),
            Balancer::WeightedMetrics(b) => b.select_origin(candidates, origin_states),
        }
    }
}

/// An origin that is kept and marked unhealthy is never chosen, whatever the
/// route's algorithm.
pub proof fn lemma_unhealthy_never_chosen(
    b: Balancer,
    candidates: Seq<OriginEndpoint>,
    states: Map<Seq<char>, OriginState>,
    i: int,
)
    requires
        0 <= i < candidates.len(),
        states.contains_key(candidates[i].url_key@),
        !states[candidates[i].url_key@].healthy,
    ensures
        !b.may_select(candidates, states, i),
{
    match candidates[i].weight {
        Some(w) => {
            assert(0 * (w as nat) == 0);
        },
        None => {},
    }
}

/// One route: what it matches, its key, its balancer and its candidates.
pub struct RouteEntry {
    pub match_host: Option<String>,
    pub match_path: Option<String>,
    pub key: String,
    pub load_balancer: Balancer,
    pub candidates: Vec<OriginEndpoint>,
}

impl RouteEntry {
    /// The route's load balancer.
    pub fn load_balancer(&self) -> (r: &Balancer)
        ensures
            *r == self.load_balancer,
    {
        &self.load_balancer
    }

    /// The origins this route may send to.
    pub fn candidates(&self) -> (r: &[OriginEndpoint])
        ensures
            r@ == self.candidates@,
    {
        self.candidates.as_slice()
    }

    /// The route's key (`host:path`, `*` for either that is absent).
    pub fn key(&self) -> (r: &str)
        ensures
            r@ == self.key@,
    {
        self.key.as_str()
    }
}

/// The routes, in configuration order.
pub struct Router {
    pub routes: Vec<RouteEntry>,
}

fn clone_opt(a: &Option<String>) -> (r: Option<String>)
    ensures
        r.deep_view() == a.deep_view(),
{
    match a {
        Some(x) => Some(x.clone()),
        None => None,
    }
}

pub(crate) fn key_for(host: &Option<String>, path: &Option<String>) -> (r: String)
    ensures
        r@ == route_key(host.deep_view(), path.deep_view()),
{
    let mut k = match host {
        Some(h) => h.clone(),
        None => String::from_str("*"),
    };
    k.append(":");
    match path {
        Some(p) => k.append(p.as_str()),
        None => k.append("*"),
    }
    k
}

proof fn lemma_route_endpoints_step(
    pools: Seq<PoolRef>,
    j: int,
    discovered: spec_fn(Seq<char>) -> Option<Seq<OriginUrlView>>,
)
    requires
        0 <= j < pools.len(),
    ensures
        route_endpoints(pools.take(j + 1), discovered) == route_endpoints(pools.take(j), discovered)
            + pool_endpoints(pools[j], discovered),
{
    assert(pools.take(j + 1).drop_last() =~= pools.take(j));
}

impl Router {
    /// The routes of `config`, each with its static origins.
    pub fn from_config(config: &ProxyConfig) -> (r: Self)
        ensures
            r.routes@.len() == config.routes@.len(),
            forall|i: int|
                0 <= i < r.routes@.len() ==> entry_for(
                    #[trigger] r.routes@[i],
                    config.routes@[i],
                    nothing_discovered(),
                ),
    {
        let none = K8sOrigins::new();
        let r = Self::build(config, &none);
        assert forall|i: int| 0 <= i < r.routes@.len() implies entry_for(
            #[trigger] r.routes@[i],
            config.routes@[i],
            nothing_discovered(),
        ) by {
            assert(discovered_in(none) =~= nothing_discovered()) by {
                assert forall|k: Seq<char>| #[trigger] discovered_in(none)(k)
                    == nothing_discovered()(k) by {
                    assert(none.lookup(k) is None);
                }
            }
        }
        r
    }

    /// The routes of `config`, each pool with its static origins followed by
    /// the origins discovered for its name.
    pub fn from_config_with_k8s(config: &ProxyConfig, k8s_origins: &K8sOrigins) -> (r: Self)
        ensures
            r.routes@.len() == config.routes@.len(),
            forall|i: int|
                0 <= i < r.routes@.len() ==> entry_for(
                    #[trigger] r.routes@[i],
                    config.routes@[i],
                    discovered_in(*k8s_origins),
                ),
    {
        Self::build(config, k8s_origins)
    }

    fn build(config: &ProxyConfig, k8s: &K8sOrigins) -> (r: Self)
        ensures
            r.routes@.len() == config.routes@.len(),
            forall|i: int|
                0 <= i < r.routes@.len() ==> entry_for(
                    #[trigger] r.routes@[i],
                    config.routes@[i],
                    discovered_in(*k8s),
                ),
    {
        let mut routes: Vec<RouteEntry> = Vec::new();
        let mut i: usize = 0;
        while i < config.routes.len()
            invariant
                i <= config.routes@.len(),
                routes@.len() == i,
                forall|m: int|
                    0 <= m < i ==> entry_for(
                        #[trigger] routes@[m],
                        config.routes@[m],
                        discovered_in(*k8s),
                    ),
            decreases config.routes@.len() - i,
        {
            let route = &config.routes[i];
            let entry = Self::build_entry(route, k8s);
            routes.push(entry);
            i = i + 1;
        }
        Router { routes }
    }

    fn build_entry(route: &RouteConfig, k8s: &K8sOrigins) -> (e: RouteEntry)
        ensures
            entry_for(e, *route, discovered_in(*k8s)),
    {
        let ghost d = discovered_in(*k8s);
        let mut candidates: Vec<OriginEndpoint> = Vec::new();
        let mut j: usize = 0;
        proof {
            assert(route.pools@.take(0) =~= Seq::<PoolRef>::empty());
            assert(candidates@.map_values(|c: OriginEndpoint| endpoint_view(c)) =~= Seq::<
                EndpointView,
            >::empty());
        }
        while j < route.pools.len()
            invariant
                j <= route.pools@.len(),
                d == discovered_in(*k8s),
                candidates@.map_values(|c: OriginEndpoint| endpoint_view(c)) == route_endpoints(
                    route.pools@.take(j as int),
                    d,
                ),
                forall|m: int| 0 <= m < candidates@.len() ==> (#[trigger] candidates@[m]).wf(),
            decreases route.pools@.len() - j,
        {
            let pool = &route.pools[j];
            let ghost before = candidates@;
            let mut k: usize = 0;
            while k < pool.origins.len()
                invariant
                    k <= pool.origins@.len(),
                    candidates@.len() == before.len() + k,
                    forall|m: int| 0 <= m < before.len() ==> candidates@[m] == before[m],
                    forall|m: int|
                        0 <= m < k ==> endpoint_view(#[trigger] candidates@[before.len() + m])
                            == config_endpoint(pool.origins@[m]),
                    forall|m: int| 0 <= m < candidates@.len() ==> (#[trigger] candidates@[m]).wf(),
                decreases pool.origins@.len() - k,
            {
                let origin = &pool.origins[k];
                let hcp = clone_opt(&origin.health_check_path);
                candidates.push(OriginEndpoint::new(origin.url.clone(), origin.weight, hcp));
                k = k + 1;
            }
            let ghost mid = candidates@;
            let ghost statics = pool.origins@.map_values(|o: OriginConfig| config_endpoint(o));
            let ghost prev = before.map_values(|c: OriginEndpoint| endpoint_view(c));
            proof {
                lemma_route_endpoints_step(route.pools@, j as int, d);
                let mv = mid.map_values(|c: OriginEndpoint| endpoint_view(c));
                assert forall|m: int| 0 <= m < mv.len() implies mv[m] == (prev + statics)[m] by {
                    if m >= before.len() {
                        assert(endpoint_view(mid[before.len() + (m - before.len())])
                            == config_endpoint(pool.origins@[m - before.len()]));
                    }
                }
                assert(mv =~= prev + statics);
            }
            match k8s.find(pool.name.as_str()) {
                Some(idx) => {
                    let urls = &k8s.pools[idx].1;
                    let mut u: usize = 0;
                    while u < urls.len()
                        invariant
                            u <= urls@.len(),
                            candidates@.len() == mid.len() + u,
                            forall|m: int| 0 <= m < mid.len() ==> candidates@[m] == mid[m],
                            forall|m: int|
                                0 <= m < u ==> endpoint_view(#[trigger] candidates@[mid.len() + m])
                                    == discovered_endpoint(urls@[m]@),
                            forall|m: int|
                                0 <= m < candidates@.len() ==> (#[trigger] candidates@[m]).wf(),
                        decreases urls@.len() - u,
                    {
                        candidates.push(OriginEndpoint::new(urls[u].clone(), None, None));
                        u = u + 1;
                    }
                    proof {
                        let disc = url_views(urls@).map_values(
                            |x: OriginUrlView| discovered_endpoint(x),
                        );
                        assert(pool_endpoints(route.pools@[j as int], d) == statics + disc);
                        let views = candidates@.map_values(|c: OriginEndpoint| endpoint_view(c));
                        assert forall|m: int| 0 <= m < views.len() implies views[m] == (prev + statics
                            + disc)[m] by {
                            if m < mid.len() {
                                assert(views[m] == mid.map_values(
                                    |c: OriginEndpoint| endpoint_view(c),
                                )[m]);
                            } else {
                                assert(endpoint_view(candidates@[mid.len() + (m - mid.len())])
                                    == discovered_endpoint(urls@[m - mid.len()]@));
                            }
                        }
                        assert(views =~= prev + statics + disc);
                    }
                },
                None => {
                    proof {
                        assert(pool_endpoints(route.pools@[j as int], d) =~= statics);
                        assert(candidates@ == mid);
                    }
                },
            }
            j = j + 1;
        }
        proof {
            assert(route.pools@.take(route.pools@.len() as int) =~= route.pools@);
        }
        RouteEntry {
            match_host: clone_opt(&route.match_host),
            match_path: clone_opt(&route.match_path),
            key: key_for(&route.match_host, &route.match_path),
            load_balancer: Balancer::for_algorithm(route.lb_algorithm),
            candidates,
        }
    }

    /// Whether `value` matches the host pattern `pattern`.
    pub fn match_glob(&self, value: &str, pattern: &str) -> (r: bool)
        ensures
            r == glob_match(value@, pattern@),
    {
        proof {
            reveal(glob_match);
        }
        if str_eq(pattern, "*") {
            return true;
        }
        let (count, first) = count_and_find(pattern, '*');
        if count == 1 {
            proof {
                lemma_first_star_unique(pattern@, first as int);
            }
            let len = pattern.unicode_len();
            let prefix = pattern.substring_char(0, first);
            let suffix = pattern.substring_char(first + 1, len);
            assert(prefix@ =~= pattern@.take(first as int));
            assert(suffix@ =~= pattern@.skip(first + 1));
            return starts_with(value, prefix) && ends_with(value, suffix);
        }
        str_eq(value, pattern)
    }

    fn entry_matches(&self, e: &RouteEntry, host: &str, path: &str) -> (r: bool)
        ensures
            r == route_matches(*e, host@, path@),
    {
        proof {
            reveal(route_matches);
        }
        let host_match = match &e.match_host {
            Some(pattern) => self.match_glob(host, pattern.as_str()),
            None => true,
        };
        if !host_match {
            return false;
        }
        match &e.match_path {
            Some(prefix) => starts_with(path, prefix.as_str()),
            None => true,
        }
    }

    /// The index of the first route whose host pattern and path prefix both
    /// match the request.
    pub fn match_route_index(&self, host: &str, path: &str) -> (r: Option<usize>)
        ensures
            match r {
                Some(i) => first_match(self.routes@, host@, path@) == Some(i as int),
                None => first_match(self.routes@, host@, path@) is None,
            },
            r matches Some(i) ==> i < self.routes@.len() && route_matches(
                self.routes@[i as int],
                host@,
                path@,
            ),
    {
        proof {
            reveal(first_match);
        }
        let mut i: usize = 0;
        while i < self.routes.len()
            invariant
                i <= self.routes@.len(),
                forall|j: int| 0 <= j < i ==> !route_matches(self.routes@[j], host@, path@),
            decreases self.routes@.len() - i,
        {
            if self.entry_matches(&self.routes[i], host, path) {
                proof {
                    reveal(first_match);
                    let c = choose|k: int|
                        0 <= k < self.routes@.len() && route_matches(self.routes@[k], host@, path@)
                            && forall|j: int|
                            0 <= j < k ==> !route_matches(self.routes@[j], host@, path@);
                    assert(0 <= i < self.routes@.len() && route_matches(
                        self.routes@[i as int],
                        host@,
                        path@,
                    ) && forall|j: int|
                        0 <= j < i ==> !route_matches(self.routes@[j], host@, path@));
                    if c < i {
                        assert(!route_matches(self.routes@[c], host@, path@));
                    } else if c > i {
                        assert(!route_matches(self.routes@[i as int], host@, path@));
                    }
                }
                return Some(i);
            }
            i = i + 1;
        }
        None
    }

    /// The first route that takes a request for `host` and `path`: its host
    /// pattern matches the host and its path is a prefix of the path.
    pub fn match_route(&self, host: &str, path: &str) -> (r: Option<&RouteEntry>)
        ensures
            match r {
                Some(e) => first_match(self.routes@, host@, path@) matches Some(i) && *e
                    == self.routes@[i],
                None => first_match(self.routes@, host@, path@) is None,
            },
    {
        match self.match_route_index(host, path) {
            Some(i) => Some(&self.routes[i]),
            None => None,
        }
    }
}

} // verus!
