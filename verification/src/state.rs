//! The proxy's shared state and the decisions made on it: accepting and
//! routing a request, recording its outcome, reloading the configuration and
//! merging discovered origins.
use crate::balance::{
    after_failure, after_success, ewma_next, fresh_origin_state, inc64, LoadBalancer,
    OriginEndpoint, OriginState,
};
use crate::config::{
    full_validation, ConfigError, OriginConfig, PassiveHealthConfig, PoolRef, ProxyConfig,
    RateLimitConfig, RouteConfig,
};
use crate::discovery::{
    pool_lookup, service_origin, service_to_origin, url_views, K8sOrigins, ServiceInfo,
};
use crate::errors::ErrorPageStore;
use crate::origin_url::{OriginUrl, OriginUrlView};
use crate::ratelimit::{
    check_step, limiter_wf, stale_removed, ClientIp, RateLimiter, RateLimiterView,
};
use crate::route::{
    config_endpoint, discovered_in, endpoint_view, entry_for, first_match, key_for,
    nothing_discovered, pool_endpoints, round_robin_step, route_endpoints, route_key, RouteEntry,
    Router,
};
use crate::tables::{
    limiter_table, limiter_table_clear, limiter_table_insert, limiter_table_keys,
    limiter_table_new, limiter_table_remove, lists_entries, origin_table, origin_table_entries,
    origin_table_get, origin_table_insert, origin_table_len, origin_table_new,
};
use crate::text::{str_eq, trim_end_slashes, trim_trailing_slashes};
use dashmap::DashMap;
use vstd::prelude::*;

verus! {

// ---------------------------------------------------------------------------
// Origin keys
// ---------------------------------------------------------------------------
/// The URL strings of a pool's origins.
pub open spec fn pool_keys(p: PoolRef) -> Seq<Seq<char>> {
    p.origins@.map_values(|o: OriginConfig| o.url@.serialization)
}

/// The URL strings of a route's origins, pool after pool.
pub open spec fn route_keys(r: RouteConfig) -> Seq<Seq<char>> {
    r.pools@.map_values(|p: PoolRef| pool_keys(p)).flatten_alt()
}

/// The URL strings of every configured origin, route after route.
pub open spec fn config_keys(c: ProxyConfig) -> Seq<Seq<char>> {
    c.routes@.map_values(|r: RouteConfig| route_keys(r)).flatten_alt()
}

/// The URL strings of every discovered origin.
pub open spec fn k8s_keys(k: K8sOrigins) -> Seq<Seq<char>> {
    k.pools@.map_values(
        |e: (String, Vec<OriginUrl>)| url_views(e.1@).map_values(|u: OriginUrlView| u.serialization),
    ).flatten_alt()
}

/// `after` keeps the states of `before` and adds a fresh state for each key
/// of `keys` that had none.
pub open spec fn registered(
    before: Map<Seq<char>, OriginState>,
    keys: Seq<Seq<char>>,
    after: Map<Seq<char>, OriginState>,
) -> bool {
    &&& forall|k: Seq<char>|
        #[trigger] after.contains_key(k) <==> before.contains_key(k) || keys.contains(k)
    &&& forall|k: Seq<char>|
        #[trigger] after.contains_key(k) ==> after[k] == if before.contains_key(k) {
            before[k]
        } else {
            fresh_origin_state()
        }
}

fn push_pool_keys(out: &mut Vec<String>, p: &PoolRef)
    ensures
        final(out)@.map_values(|s: String| s@) == old(out)@.map_values(|s: String| s@) + pool_keys(
            *p,
        ),
{
    let ghost start = out@.map_values(|s: String| s@);
    let mut m: usize = 0;
    while m < p.origins.len()
        invariant
            m <= p.origins@.len(),
            out@.map_values(|s: String| s@) == start + pool_keys(*p).take(m as int),
        decreases p.origins@.len() - m,
    {
        let ghost prev = out@;
        let key = p.origins[m].url.serialization.clone();
        out.push(key);
        proof {
            assert(pool_keys(*p).take(m + 1) =~= pool_keys(*p).take(m as int).push(key@));
            assert(out@.map_values(|s: String| s@) =~= prev.map_values(|s: String| s@).push(key@));
            assert(out@.map_values(|s: String| s@) =~= start + pool_keys(*p).take(m + 1));
        }
        m = m + 1;
    }
    assert(pool_keys(*p).take(m as int) =~= pool_keys(*p));
}

fn push_route_keys(out: &mut Vec<String>, r: &RouteConfig)
    ensures
        final(out)@.map_values(|s: String| s@) == old(out)@.map_values(|s: String| s@) + route_keys(
            *r,
        ),
{
    let ghost start = out@.map_values(|s: String| s@);
    let ghost pk = r.pools@.map_values(|p: PoolRef| pool_keys(p));
    let mut j: usize = 0;
    assert(pk.take(0).flatten_alt() =~= Seq::<Seq<char>>::empty());
    while j < r.pools.len()
        invariant
            j <= r.pools@.len(),
            pk == r.pools@.map_values(|p: PoolRef| pool_keys(p)),
            out@.map_values(|s: String| s@) == start + pk.take(j as int).flatten_alt(),
        decreases r.pools@.len() - j,
    {
        push_pool_keys(out, &r.pools[j]);
        proof {
            assert(pk.take(j + 1).drop_last() =~= pk.take(j as int));
            assert(pk.take(j + 1).flatten_alt() == pk.take(j as int).flatten_alt() + pk[j as int]);
            assert(out@.map_values(|s: String| s@) =~= start + pk.take(j + 1).flatten_alt());
        }
        j = j + 1;
    }
    assert(pk.take(j as int) =~= pk);
}

/// The URL strings of every configured origin, route after route.
pub fn config_origin_keys(c: &ProxyConfig) -> (r: Vec<String>)
    ensures
        r@.map_values(|s: String| s@) == config_keys(*c),
{
    let mut out: Vec<String> = Vec::new();
    let ghost rk = c.routes@.map_values(|r: RouteConfig| route_keys(r));
    let mut i: usize = 0;
    assert(rk.take(0).flatten_alt() =~= Seq::<Seq<char>>::empty());
    assert(out@.map_values(|s: String| s@) =~= Seq::<Seq<char>>::empty());
    while i < c.routes.len()
        invariant
            i <= c.routes@.len(),
            rk == c.routes@.map_values(|r: RouteConfig| route_keys(r)),
            out@.map_values(|s: String| s@) == rk.take(i as int).flatten_alt(),
        decreases c.routes@.len() - i,
    {
        push_route_keys(&mut out, &c.routes[i]);
        proof {
            assert(rk.take(i + 1).drop_last() =~= rk.take(i as int));
            assert(rk.take(i + 1).flatten_alt() == rk.take(i as int).flatten_alt() + rk[i as int]);
        }
        i = i + 1;
    }
    assert(rk.take(i as int) =~= rk);
    out
}

/// The URL strings of every discovered origin.
pub fn k8s_origin_keys(k: &K8sOrigins) -> (r: Vec<String>)
    ensures
        r@.map_values(|s: String| s@) == k8s_keys(*k),
{
    let mut out: Vec<String> = Vec::new();
    let ghost ks = k.pools@.map_values(
        |e: (String, Vec<OriginUrl>)| url_views(e.1@).map_values(|u: OriginUrlView| u.serialization),
    );
    let mut i: usize = 0;
    assert(ks.take(0).flatten_alt() =~= Seq::<Seq<char>>::empty());
    assert(out@.map_values(|s: String| s@) =~= Seq::<Seq<char>>::empty());
    while i < k.pools.len()
        invariant
            i <= k.pools@.len(),
            ks == k.pools@.map_values(
                |e: (String, Vec<OriginUrl>)|
                    url_views(e.1@).map_values(|u: OriginUrlView| u.serialization),
            ),
            out@.map_values(|s: String| s@) == ks.take(i as int).flatten_alt(),
        decreases k.pools@.len() - i,
    {
        let urls = &k.pools[i].1;
        let ghost start = out@.map_values(|s: String| s@);
        let ghost these = url_views(urls@).map_values(|u: OriginUrlView| u.serialization);
        let mut m: usize = 0;
        while m < urls.len()
            invariant
                m <= urls@.len(),
                these == url_views(urls@).map_values(|u: OriginUrlView| u.serialization),
                out@.map_values(|s: String| s@) == start + these.take(m as int),
            decreases urls@.len() - m,
        {
            let ghost prev = out@;
            let key = urls[m].serialization.clone();
            out.push(key);
            proof {
                assert(these.take(m + 1) =~= these.take(m as int).push(key@));
                assert(out@.map_values(|s: String| s@) =~= prev.map_values(|s: String| s@).push(key@));
                assert(out@.map_values(|s: String| s@) =~= start + these.take(m + 1));
            }
            m = m + 1;
        }
        proof {
            assert(these.take(m as int) =~= these);
            assert(ks[i as int] == these);
            assert(ks.take(i + 1).drop_last() =~= ks.take(i as int));
            assert(ks.take(i + 1).flatten_alt() == ks.take(i as int).flatten_alt() + ks[i as int]);
        }
        i = i + 1;
    }
    assert(ks.take(i as int) =~= ks);
    out
}

/// Gives each key of `keys` that has no state a fresh one; kept states stay.
pub fn register_origins(table: &mut DashMap<String, OriginState>, keys: &Vec<String>)
    ensures
        registered(
            origin_table(*old(table)),
            keys@.map_values(|s: String| s@),
            origin_table(*final(table)),
        ),
{
    let ghost before = origin_table(*table);
    let ghost kv = keys@.map_values(|s: String| s@);
    let mut i: usize = 0;
    while i < keys.len()
        invariant
            i <= keys@.len(),
            before == origin_table(*old(table)),
            kv == keys@.map_values(|s: String| s@),
            registered(before, kv.take(i as int), origin_table(*table)),
        decreases keys@.len() - i,
    {
        let ghost cur = origin_table(*table);
        match origin_table_get(table, keys[i].as_str()) {
            Some(_) => {},
            None => {
                origin_table_insert(table, keys[i].clone(), OriginState::new());
            },
        }
        proof {
            let now = origin_table(*table);
            let k0 = kv[i as int];
            let t0 = kv.take(i as int);
            let t1 = kv.take(i + 1);
            assert(t1 =~= t0.push(k0));
            assert forall|k: Seq<char>| #[trigger]
                now.contains_key(k) <==> before.contains_key(k) || t1.contains(k) by {
                if k == k0 {
                    assert(t1[i as int] == k0);
                } else if t1.contains(k) {
                    let w = choose|w: int| 0 <= w < t1.len() && #[trigger] t1[w] == k;
                    assert(t0[w] == k);
                } else if t0.contains(k) {
                    let w = choose|w: int| 0 <= w < t0.len() && #[trigger] t0[w] == k;
                    assert(t1[w] == k);
                }
            }
            assert forall|k: Seq<char>| #[trigger] now.contains_key(k) implies now[k] == if before.contains_key(k) {
                before[k]
            } else {
                fresh_origin_state()
            } by {
                if k != k0 {
                    assert(cur.contains_key(k));
                } else if !cur.contains_key(k) {
                    if before.contains_key(k) {
                        assert(cur.contains_key(k));
                    }
                }
            }
        }
        i = i + 1;
    }
    assert(kv.take(i as int) =~= kv);
}

// ---------------------------------------------------------------------------
// Tracked origins
// ---------------------------------------------------------------------------
/// Every key of `keys` has a state in `m`.
pub open spec fn keys_tracked(keys: Seq<Seq<char>>, m: Map<Seq<char>, OriginState>) -> bool {
    forall|k: Seq<char>| #[trigger] keys.contains(k) ==> m.contains_key(k)
}

/// Every candidate of every route has a state in `m`.
pub open spec fn candidates_tracked(routes: Seq<RouteEntry>, m: Map<Seq<char>, OriginState>) -> bool {
    forall|i: int, j: int|
        0 <= i < routes.len() && 0 <= j < routes[i].candidates@.len() ==> m.contains_key(
            #[trigger] routes[i].candidates@[j].url_key@,
        )
}

/// Every origin that `d` records for a pool has a state in `m`.
pub open spec fn discovered_tracked(
    d: spec_fn(Seq<char>) -> Option<Seq<OriginUrlView>>,
    m: Map<Seq<char>, OriginState>,
) -> bool {
    forall|name: Seq<char>, k: int|
        #![trigger d(name)->0[k]]
        d(name) is Some && 0 <= k < d(name)->0.len() ==> m.contains_key(d(name)->0[k].serialization)
}

proof fn lemma_registered_tracks(
    before: Map<Seq<char>, OriginState>,
    keys: Seq<Seq<char>>,
    after: Map<Seq<char>, OriginState>,
)
    requires
        registered(before, keys, after),
    ensures
        keys_tracked(keys, after),
{
    assert forall|k: Seq<char>| #[trigger] keys.contains(k) implies after.contains_key(k) by {}
}

proof fn lemma_nothing_discovered_tracked(m: Map<Seq<char>, OriginState>)
    ensures
        discovered_tracked(nothing_discovered(), m),
{
    let d = nothing_discovered();
    assert forall|name: Seq<char>, k: int|
        d(name) is Some && 0 <= k < d(name)->0.len() implies m.contains_key(
        #[trigger] d(name)->0[k].serialization,
    ) by {}
}

proof fn lemma_in_flatten<A>(ss: Seq<Seq<A>>, i: int, j: int)
    requires
        0 <= i < ss.len(),
        0 <= j < ss[i].len(),
    ensures
        ss.flatten_alt().contains(ss[i][j]),
    decreases ss.len(),
{
    let pre = ss.drop_last().flatten_alt();
    assert(ss.flatten_alt() == pre + ss.last());
    if i == ss.len() - 1 {
        assert(ss.flatten_alt()[pre.len() + j] == ss[i][j]);
    } else {
        assert(ss.drop_last()[i] == ss[i]);
        lemma_in_flatten(ss.drop_last(), i, j);
        let w = choose|w: int| 0 <= w < pre.len() && pre[w] == ss[i][j];
        assert(ss.flatten_alt()[w] == ss[i][j]);
    }
}

/// Each endpoint of a route is a configured origin of one of its pools, or
/// one of the origins discovered for one of its pools' names.
proof fn lemma_endpoint_source(
    pools: Seq<PoolRef>,
    d: spec_fn(Seq<char>) -> Option<Seq<OriginUrlView>>,
    j: int,
)
    requires
        0 <= j < route_endpoints(pools, d).len(),
    ensures
        (exists|p: int, o: int|
            #![trigger pools[p].origins@[o]]
            0 <= p < pools.len() && 0 <= o < pools[p].origins@.len() && pools[p].origins@[o].url@
                == route_endpoints(pools, d)[j].url) || (exists|p: int, k: int|
            #![trigger d(pools[p].name@)->0[k]]
            0 <= p < pools.len() && d(pools[p].name@) is Some && 0 <= k < d(pools[p].name@)->0.len()
                && d(pools[p].name@)->0[k] == route_endpoints(pools, d)[j].url),
    decreases pools.len(),
{
    let e = route_endpoints(pools, d)[j];
    let last = pools.len() - 1;
    let pre = route_endpoints(pools.drop_last(), d);
    let statics = pools[last].origins@.map_values(|o: OriginConfig| config_endpoint(o));
    if j < pre.len() {
        lemma_endpoint_source(pools.drop_last(), d, j);
        assert(route_endpoints(pools, d)[j] == pre[j]);
        if exists|p: int, o: int|
            #![trigger pools.drop_last()[p].origins@[o]]
            0 <= p < pools.drop_last().len() && 0 <= o < pools.drop_last()[p].origins@.len()
                && pools.drop_last()[p].origins@[o].url@ == pre[j].url {
            let (p, o) = choose|p: int, o: int|
                #![trigger pools.drop_last()[p].origins@[o]]
                0 <= p < pools.drop_last().len() && 0 <= o < pools.drop_last()[p].origins@.len()
                    && pools.drop_last()[p].origins@[o].url@ == pre[j].url;
            assert(pools[p].origins@[o] == pools.drop_last()[p].origins@[o]);
        } else {
            let (p, k) = choose|p: int, k: int|
                #![trigger d(pools.drop_last()[p].name@)->0[k]]
                0 <= p < pools.drop_last().len() && d(pools.drop_last()[p].name@) is Some && 0 <= k
                    < d(pools.drop_last()[p].name@)->0.len() && d(pools.drop_last()[p].name@)->0[k]
                    == pre[j].url;
            assert(pools[p] == pools.drop_last()[p]);
            assert(d(pools[p].name@)->0[k] == e.url);
        }
    } else {
        let jj = j - pre.len();
        assert(route_endpoints(pools, d)[j] == pool_endpoints(pools[last], d)[jj]);
        if jj < statics.len() {
            assert(pools[last].origins@[jj].url@ == e.url);
        } else {
            let k = jj - statics.len();
            assert(d(pools[last].name@)->0[k] == e.url);
        }
    }
}

/// The URL of a configured origin is one of the configuration's keys.
proof fn lemma_config_key(c: ProxyConfig, i: int, p: int, o: int)
    requires
        0 <= i < c.routes@.len(),
        0 <= p < c.routes@[i].pools@.len(),
        0 <= o < c.routes@[i].pools@[p].origins@.len(),
    ensures
        config_keys(c).contains(c.routes@[i].pools@[p].origins@[o].url@.serialization),
{
    let r = c.routes@[i];
    let pk = r.pools@.map_values(|q: PoolRef| pool_keys(q));
    assert(pk[p][o] == r.pools@[p].origins@[o].url@.serialization);
    lemma_in_flatten(pk, p, o);
    let rk = c.routes@.map_values(|x: RouteConfig| route_keys(x));
    let w = choose|w: int| 0 <= w < route_keys(r).len() && route_keys(r)[w] == pk[p][o];
    assert(rk[i][w] == pk[p][o]);
    lemma_in_flatten(rk, i, w);
}

proof fn lemma_lookup_source(pools: Seq<(String, Vec<OriginUrl>)>, name: Seq<char>)
    requires
        pool_lookup(pools, name) is Some,
    ensures
        exists|m: int|
            0 <= m < pools.len() && pool_lookup(pools, name)->0 == url_views(#[trigger] pools[m].1@),
    decreases pools.len(),
{
    if pools[0].0@ != name {
        lemma_lookup_source(pools.drop_first(), name);
        let m = choose|m: int|
            0 <= m < pools.drop_first().len() && pool_lookup(pools.drop_first(), name)->0
                == url_views(#[trigger] pools.drop_first()[m].1@);
        assert(pools[m + 1] == pools.drop_first()[m]);
    } else {
        assert(pools[0].1@ == pools[0].1@);
    }
}

/// Every origin discovered in `k8s` has a state in a map that tracks every
/// discovered key.
proof fn lemma_discovered_tracked(k8s: K8sOrigins, m: Map<Seq<char>, OriginState>)
    requires
        keys_tracked(k8s_keys(k8s), m),
    ensures
        discovered_tracked(discovered_in(k8s), m),
{
    let d = discovered_in(k8s);
    assert forall|name: Seq<char>, k: int|
        d(name) is Some && 0 <= k < d(name)->0.len() implies m.contains_key(
        #[trigger] d(name)->0[k].serialization,
    ) by {
        lemma_lookup_source(k8s.pools@, name);
        let w = choose|w: int|
            0 <= w < k8s.pools@.len() && pool_lookup(k8s.pools@, name)->0 == url_views(
                #[trigger] k8s.pools@[w].1@,
            );
        let ks = k8s.pools@.map_values(
            |e: (String, Vec<OriginUrl>)| url_views(e.1@).map_values(|u: OriginUrlView| u.serialization),
        );
        assert(ks[w][k] == d(name)->0[k].serialization);
        lemma_in_flatten(ks, w, k);
    }
}

/// The routes built from `c`, with the origins that `d` records, have
/// every candidate tracked when the configuration's keys and the recorded
/// origins are.
proof fn lemma_routes_tracked(
    routes: Seq<RouteEntry>,
    c: ProxyConfig,
    d: spec_fn(Seq<char>) -> Option<Seq<OriginUrlView>>,
    m: Map<Seq<char>, OriginState>,
)
    requires
        routes.len() == c.routes@.len(),
        forall|i: int| 0 <= i < routes.len() ==> entry_for(#[trigger] routes[i], c.routes@[i], d),
        keys_tracked(config_keys(c), m),
        discovered_tracked(d, m),
    ensures
        candidates_tracked(routes, m),
{
    assert forall|i: int, j: int|
        0 <= i < routes.len() && 0 <= j < routes[i].candidates@.len() implies m.contains_key(
        #[trigger] routes[i].candidates@[j].url_key@,
    ) by {
        let e = routes[i];
        assert(entry_for(e, c.routes@[i], d));
        let pools = c.routes@[i].pools@;
        let views = e.candidates@.map_values(|x: OriginEndpoint| endpoint_view(x));
        assert(views[j] == endpoint_view(e.candidates@[j]));
        assert(e.candidates@[j].wf());
        lemma_endpoint_source(pools, d, j);
        let u = route_endpoints(pools, d)[j].url;
        if exists|p: int, o: int|
            #![trigger pools[p].origins@[o]]
            0 <= p < pools.len() && 0 <= o < pools[p].origins@.len() && pools[p].origins@[o].url@
                == u {
            let (p, o) = choose|p: int, o: int|
                #![trigger pools[p].origins@[o]]
                0 <= p < pools.len() && 0 <= o < pools[p].origins@.len()
                    && pools[p].origins@[o].url@ == u;
            lemma_config_key(c, i, p, o);
        } else {
            let (p, k) = choose|p: int, k: int|
                #![trigger d(pools[p].name@)->0[k]]
                0 <= p < pools.len() && d(pools[p].name@) is Some && 0 <= k < d(
                    pools[p].name@,
                )->0.len() && d(pools[p].name@)->0[k] == u;
            assert(d(pools[p].name@)->0[k] == u);
        }
    }
}

// ---------------------------------------------------------------------------
// Rate limiters
// ---------------------------------------------------------------------------
/// A limiter with no buckets yet.
pub open spec fn empty_limiter(l: RateLimitConfig) -> RateLimiterView {
    RateLimiterView { buckets: Map::empty(), rate: l.rate, burst: l.burst }
}

/// The per-route limiters after the first `n` routes: each route with a rate
/// limit gets an empty limiter under its key, a later route replacing an
/// earlier one with the same key.
pub open spec fn route_limiters(routes: Seq<RouteConfig>, n: int) -> Map<Seq<char>, RateLimiterView>
    decreases n,
{
    if n <= 0 {
        Map::empty()
    } else {
        match routes[n - 1].ratelimit {
            Some(l) => route_limiters(routes, n - 1).insert(
                route_key(routes[n - 1].match_host.deep_view(), routes[n - 1].match_path.deep_view()),
                empty_limiter(l),
            ),
            None => route_limiters(routes, n - 1),
        }
    }
}

/// Every limiter of a map is well formed.
pub open spec fn limiters_wf(m: Map<Seq<char>, RateLimiterView>) -> bool {
    forall|k: Seq<char>| #[trigger] m.contains_key(k) ==> limiter_wf(m[k])
}

proof fn lemma_route_limiters_wf(routes: Seq<RouteConfig>, n: int)
    ensures
        limiters_wf(route_limiters(routes, n)),
    decreases n,
{
    if n > 0 {
        lemma_route_limiters_wf(routes, n - 1);
    }
}

fn build_route_limiters(table: &mut DashMap<String, RateLimiter>, routes: &Vec<RouteConfig>)
    requires
        limiter_table(*old(table)) == Map::<Seq<char>, RateLimiterView>::empty(),
    ensures
        limiter_table(*final(table)) == route_limiters(routes@, routes@.len() as int),
{
    let mut i: usize = 0;
    while i < routes.len()
        invariant
            i <= routes@.len(),
            limiter_table(*table) == route_limiters(routes@, i as int),
        decreases routes@.len() - i,
    {
        let route = &routes[i];
        match &route.ratelimit {
            Some(rl) => {
                let key = key_for(&route.match_host, &route.match_path);
                limiter_table_insert(table, key, RateLimiter::new(rl.rate, rl.burst));
                proof {
                    assert(limiter_table(*table) =~= route_limiters(routes@, i + 1));
                }
            },
            None => {},
        }
        i = i + 1;
    }
}

// ---------------------------------------------------------------------------
// Outcomes
// ---------------------------------------------------------------------------
/// How a proxied request ended.
#[derive(Clone, Copy, Debug, PartialEq, Eq, Structural)]
pub enum Outcome {
    /// The origin answered with a status below 500.
    Success,
    /// The origin answered with a 5xx status.
    ServerError,
    /// The request could not be sent or its response not read.
    TransportError,
}

impl Outcome {
    /// The outcome of an answer with `status`: 500 to 599 is a server error.
    pub fn from_status(status: u16) -> (r: Outcome)
        ensures
            r == if 500 <= status && status < 600 {
                Outcome::ServerError
            } else {
                Outcome::Success
            },
    {
        if 500 <= status && status < 600 {
            Outcome::ServerError
        } else {
            Outcome::Success
        }
    }
}

/// What recording a request does to an origin's state: count it and fold
/// its latency in; when passive tracking is enabled, also record a success or
/// failure with the passive thresholds. With passive tracking off, the
/// streaks, the failure total and the health flag stay as they were.
pub open spec fn outcome_step(
    s: OriginState,
    passive: PassiveHealthConfig,
    latency_ns: u64,
    outcome: Outcome,
) -> OriginState {
    let counted = OriginState {
        total_requests: inc64(s.total_requests),
        ewma_latency_ns: ewma_next(s.ewma_latency_ns, latency_ns),
        ..s
    };
    if !passive.enabled {
        counted
    } else {
        match outcome {
            Outcome::Success => after_success(counted, passive.success_threshold),
            _ => after_failure(counted, passive.failure_threshold),
        }
    }
}

/// The view of an optional limiter.
pub open spec fn opt_limiter(o: Option<RateLimiter>) -> Option<RateLimiterView> {
    match o {
        Some(l) => Some(l@),
        None => None,
    }
}

/// What checking the limits of route key `key` for `ip` did, from the route
/// limiters and global limiter before to those after, and whether the
/// request passed: the route's own limiter takes the request when it has
/// one, else the global limiter does, else the request passes and nothing
/// changes.
pub open spec fn limits_checked(
    routes_before: Map<Seq<char>, RateLimiterView>,
    global_before: Option<RateLimiterView>,
    routes_after: Map<Seq<char>, RateLimiterView>,
    global_after: Option<RateLimiterView>,
    key: Seq<char>,
    ip: ClientIp,
    allowed: bool,
) -> bool {
    if routes_before.contains_key(key) {
        &&& global_after == global_before
        &&& routes_after == routes_before.insert(key, routes_after[key])
        &&& exists|e: nat| #[trigger]
            check_step(routes_before[key], ip, e) == (routes_after[key], allowed)
    } else {
        &&& routes_after == routes_before
        &&& match global_before {
            Some(g) => global_after matches Some(g2) && exists|e: nat| #[trigger]
                check_step(g, ip, e) == (g2, allowed),
            None => allowed && global_after is None,
        }
    }
}

/// Every route but `route` is as it was.
pub open spec fn others_unchanged(before: Seq<RouteEntry>, after: Seq<RouteEntry>, route: int) -> bool {
    forall|i: int| 0 <= i < before.len() && i != route ==> #[trigger] after[i] == before[i]
}

/// The keys of the origins marked healthy.
pub open spec fn healthy_keys(m: Map<Seq<char>, OriginState>) -> Set<Seq<char>> {
    m.dom().filter(|k: Seq<char>| m[k].healthy)
}

/// What the request path decided.
#[derive(Clone, Copy, Debug, PartialEq, Eq, Structural)]
pub enum RequestDecision {
    /// No route takes the request.
    NotFound,
    /// The route's (or the global) limiter refused the client.
    RateLimited { route: usize },
    /// The route has no origin that may be chosen.
    NoHealthyOrigin { route: usize },
    /// Send the request to candidate `origin` of route `route`.
    Forward { route: usize, origin: usize },
}

/// The status and default body of the answer to a request that is not
/// forwarded: 404 when no route takes it, 429 when it is rate limited, 502
/// when its route has no origin to choose; none for a request to forward.
pub fn refusal(d: RequestDecision) -> (r: Option<(u16, &'static str)>)
    ensures
        match d {
            RequestDecision::NotFound => r matches Some((s, m)) && s == 404 && m@ == "Not Found"@,
            RequestDecision::RateLimited { .. } => r matches Some((s, m)) && s == 429 && m@
                == "Too Many Requests"@,
            RequestDecision::NoHealthyOrigin { .. } => r matches Some((s, m)) && s == 502 && m@
                == "No healthy origins available"@,
            RequestDecision::Forward { .. } => r is None,
        },
{
    match d {
        RequestDecision::NotFound => Some((404, "Not Found")),
        RequestDecision::RateLimited { .. } => Some((429, "Too Many Requests")),
        RequestDecision::NoHealthyOrigin { .. } => Some((502, "No healthy origins available")),
        RequestDecision::Forward { .. } => None,
    }
}

/// Whether active probing runs for `config`.
pub fn probing_enabled(config: &ProxyConfig) -> (r: bool)
    ensures
        r == config.health.active.enabled,
{
    config.health.active.enabled
}

/// Whether Kubernetes discovery runs for `config`.
pub fn discovery_enabled(config: &ProxyConfig) -> (r: bool)
    ensures
        r == (config.kubernetes is Some),
{
    config.kubernetes.is_some()
}

/// Which probe the health server answers.
#[derive(Clone, Copy, Debug, PartialEq, Eq, Structural)]
pub enum HealthEndpoint {
    Metrics,
    Healthz,
    Upstreams,
    NotFound,
}

/// The health server's answer for `path`.
pub fn health_endpoint(path: &str) -> (r: HealthEndpoint)
    ensures
        r == if path@ == "/metrics"@ {
            HealthEndpoint::Metrics
        } else if path@ == "/healthz"@ {
            HealthEndpoint::Healthz
        } else if path@ == "/healthz/upstreams"@ {
            HealthEndpoint::Upstreams
        } else {
            HealthEndpoint::NotFound
        },
{
    if str_eq(path, "/metrics") {
        HealthEndpoint::Metrics
    } else if str_eq(path, "/healthz") {
        HealthEndpoint::Healthz
    } else if str_eq(path, "/healthz/upstreams") {
        HealthEndpoint::Upstreams
    } else {
        HealthEndpoint::NotFound
    }
}

/// A probe passes when the origin answered with a 2xx status.
pub fn probe_passed(status: Option<u16>) -> (r: bool)
    ensures
        r == (status matches Some(s) && 200 <= s && s < 300),
{
    match status {
        Some(s) => 200 <= s && s < 300,
        None => false,
    }
}

/// The URL a request path is sent to at an origin: the origin URL without
/// trailing slashes, followed by the path and query.
pub fn origin_uri(origin: &OriginEndpoint, path_and_query: &str) -> (r: String)
    ensures
        r@ == origin.url_base@ + path_and_query@,
{
    let mut s = origin.url_base.clone();
    s.append(path_and_query);
    s
}

// ---------------------------------------------------------------------------
// Active probes
// ---------------------------------------------------------------------------
/// What an active probe of one origin is sent to and recorded under.
pub struct ProbeTarget {
    /// The key the origin's state is kept under: its URL string.
    pub key: String,
    /// The URL probed: the origin URL without trailing slashes, then its
    /// health check path (`/` when it has none).
    pub url: String,
}

/// The key and URL of the probe of `o`.
pub open spec fn probe_of(o: OriginConfig) -> (Seq<char>, Seq<char>) {
    (
        o.url@.serialization,
        trim_trailing_slashes(o.url@.serialization) + match o.health_check_path {
            Some(p) => p@,
            None => "/"@,
        },
    )
}

/// The probes of a route, pool after pool.
pub open spec fn route_probes(r: RouteConfig) -> Seq<(Seq<char>, Seq<char>)> {
    r.pools@.map_values(|p: PoolRef| p.origins@.map_values(|o: OriginConfig| probe_of(o))).flatten_alt()
}

/// The probes of every configured origin, route after route.
pub open spec fn config_probes(c: ProxyConfig) -> Seq<(Seq<char>, Seq<char>)> {
    c.routes@.map_values(|r: RouteConfig| route_probes(r)).flatten_alt()
}

/// The views of a list of probe targets.
pub open spec fn probe_views(v: Seq<ProbeTarget>) -> Seq<(Seq<char>, Seq<char>)> {
    v.map_values(|t: ProbeTarget| (t.key@, t.url@))
}

fn push_probe(out: &mut Vec<ProbeTarget>, o: &OriginConfig)
    ensures
        probe_views(final(out)@) == probe_views(old(out)@).push(probe_of(*o)),
{
    let ghost prev = out@;
    let mut url = trim_end_slashes(o.url.serialization.as_str());
    match &o.health_check_path {
        Some(p) => url.append(p.as_str()),
        None => url.append("/"),
    }
    out.push(ProbeTarget { key: o.url.serialization.clone(), url });
    assert(probe_views(out@) =~= probe_views(prev).push(probe_of(*o)));
}

fn push_route_probes(out: &mut Vec<ProbeTarget>, r: &RouteConfig)
    ensures
        probe_views(final(out)@) == probe_views(old(out)@) + route_probes(*r),
{
    let ghost start = probe_views(out@);
    let ghost pp = r.pools@.map_values(
        |p: PoolRef| p.origins@.map_values(|o: OriginConfig| probe_of(o)),
    );
    let mut j: usize = 0;
    assert(pp.take(0).flatten_alt() =~= Seq::<(Seq<char>, Seq<char>)>::empty());
    while j < r.pools.len()
        invariant
            j <= r.pools@.len(),
            pp == r.pools@.map_values(
                |p: PoolRef| p.origins@.map_values(|o: OriginConfig| probe_of(o)),
            ),
            probe_views(out@) == start + pp.take(j as int).flatten_alt(),
        decreases r.pools@.len() - j,
    {
        let pool = &r.pools[j];
        let ghost mid = probe_views(out@);
        let ghost these = pool.origins@.map_values(|o: OriginConfig| probe_of(o));
        let mut m: usize = 0;
        while m < pool.origins.len()
            invariant
                m <= pool.origins@.len(),
                these == pool.origins@.map_values(|o: OriginConfig| probe_of(o)),
                probe_views(out@) == mid + these.take(m as int),
            decreases pool.origins@.len() - m,
        {
            push_probe(out, &pool.origins[m]);
            assert(these.take(m + 1) =~= these.take(m as int).push(these[m as int]));
            m = m + 1;
        }
        proof {
            assert(these.take(m as int) =~= these);
            assert(pp.take(j + 1).drop_last() =~= pp.take(j as int));
        }
        j = j + 1;
    }
    assert(pp.take(j as int) =~= pp);
}

/// The probe of every configured origin, route after route.
pub fn probe_targets(config: &ProxyConfig) -> (r: Vec<ProbeTarget>)
    ensures
        probe_views(r@) == config_probes(*config),
{
    let mut out: Vec<ProbeTarget> = Vec::new();
    let ghost rp = config.routes@.map_values(|r: RouteConfig| route_probes(r));
    let mut i: usize = 0;
    assert(rp.take(0).flatten_alt() =~= Seq::<(Seq<char>, Seq<char>)>::empty());
    assert(probe_views(out@) =~= Seq::<(Seq<char>, Seq<char>)>::empty());
    while i < config.routes.len()
        invariant
            i <= config.routes@.len(),
            rp == config.routes@.map_values(|r: RouteConfig| route_probes(r)),
            probe_views(out@) == rp.take(i as int).flatten_alt(),
        decreases config.routes@.len() - i,
    {
        push_route_probes(&mut out, &config.routes[i]);
        assert(rp.take(i + 1).drop_last() =~= rp.take(i as int));
        i = i + 1;
    }
    assert(rp.take(i as int) =~= rp);
    out
}

// ---------------------------------------------------------------------------
// Reloading
// ---------------------------------------------------------------------------
/// The kind of a change seen on the configuration file.
#[derive(Clone, Copy, Debug, PartialEq, Eq, Structural)]
pub enum FileChange {
    Create,
    Modify,
    Remove,
    Access,
    Other,
}

/// A reload follows a change that creates or modifies the file.
pub fn triggers_reload(change: FileChange) -> (r: bool)
    ensures
        r == (change == FileChange::Create || change == FileChange::Modify),
{
    match change {
        FileChange::Create => true,
        FileChange::Modify => true,
        _ => false,
    }
}

// ---------------------------------------------------------------------------
// The state
// ---------------------------------------------------------------------------
/// The proxy's state: the configuration, the router built from it, what is
/// tracked of each origin, and the rate limiters.
pub struct AppState {
    pub config: ProxyConfig,
    pub router: Router,
    pub origin_states: DashMap<String, OriginState>,
    pub ratelimiter: Option<RateLimiter>,
    pub route_ratelimiters: DashMap<String, RateLimiter>,
    pub error_pages: Option<ErrorPageStore>,
}

impl AppState {
    /// Every limiter is well formed, and every configured origin and every
    /// candidate of every route has a state.
    pub open spec fn wf(&self) -> bool {
        &&& limiters_wf(limiter_table(self.route_ratelimiters))
        &&& (self.ratelimiter matches Some(l) ==> limiter_wf(l@))
        &&& keys_tracked(config_keys(self.config), origin_table(self.origin_states))
        &&& candidates_tracked(self.router.routes@, origin_table(self.origin_states))
    }

    /// The state for `config`: its routes, a fresh state for each of its
    /// origins, an empty global limiter if it has a global rate limit, and an
    /// empty limiter for each route with a rate limit.
    pub fn new(config: ProxyConfig, error_pages: Option<ErrorPageStore>) -> (r: Self)
        ensures
            r.wf(),
            r.config == config,
            r.router.routes@.len() == config.routes@.len(),
            forall|i: int|
                0 <= i < r.router.routes@.len() ==> entry_for(
                    #[trigger] r.router.routes@[i],
                    config.routes@[i],
                    nothing_discovered(),
                ),
            registered(Map::empty(), config_keys(config), origin_table(r.origin_states)),
            match config.ratelimit {
                Some(l) => r.ratelimiter matches Some(g) && g@ == empty_limiter(l),
                None => r.ratelimiter is None,
            },
            limiter_table(r.route_ratelimiters) == route_limiters(
                config.routes@,
                config.routes@.len() as int,
            ),
            r.error_pages == error_pages,
    {
        let router = Router::from_config(&config);
        let mut states = origin_table_new();
        let keys = config_origin_keys(&config);
        register_origins(&mut states, &keys);
        let ratelimiter = match &config.ratelimit {
            Some(rl) => Some(RateLimiter::new(rl.rate, rl.burst)),
            None => None,
        };
        let mut route_ratelimiters = limiter_table_new();
        build_route_limiters(&mut route_ratelimiters, &config.routes);
        proof {
            lemma_route_limiters_wf(config.routes@, config.routes@.len() as int);
            lemma_registered_tracks(Map::empty(), config_keys(config), origin_table(states));
            lemma_nothing_discovered_tracked(origin_table(states));
            lemma_routes_tracked(router.routes@, config, nothing_discovered(), origin_table(states));
        }
        AppState {
            config,
            router,
            origin_states: states,
            ratelimiter,
            route_ratelimiters,
            error_pages,
        }
    }

    /// The key of a route (`host:path`, `*` for either that is absent).
    pub fn route_key(match_host: &Option<String>, match_path: &Option<String>) -> (r: String)
        ensures
            r@ == route_key(match_host.deep_view(), match_path.deep_view()),
    {
        key_for(match_host, match_path)
    }

    /// Runs the rate limit check of route `key` for `ip`: the route's own
    /// limiter when it has one, else the global limiter, else none.
    fn check_limits(&mut self, key: &str, ip: ClientIp) -> (allowed: bool)
        requires
            old(self).wf(),
        ensures
            final(self).wf(),
            final(self).config == old(self).config,
            final(self).router == old(self).router,
            final(self).origin_states == old(self).origin_states,
            final(self).error_pages == old(self).error_pages,
            limits_checked(
                limiter_table(old(self).route_ratelimiters),
                opt_limiter(old(self).ratelimiter),
                limiter_table(final(self).route_ratelimiters),
                opt_limiter(final(self).ratelimiter),
                key@,
                ip,
                allowed,
            ),
    {
        match limiter_table_remove(&mut self.route_ratelimiters, key) {
            Some(mut limiter) => {
                let ghost before = limiter@;
                let allowed = limiter.check(ip);
                let ghost after = limiter@;
                let ghost e = choose|e: nat| #[trigger] check_step(before, ip, e) == (after, allowed);
                limiter_table_insert(&mut self.route_ratelimiters, String::from_str(key), limiter);
                proof {
                    assert(limiter_table(self.route_ratelimiters) =~= limiter_table(
                        old(self).route_ratelimiters,
                    ).insert(key@, after));
                    assert(check_step(
                        limiter_table(old(self).route_ratelimiters)[key@],
                        ip,
                        e,
                    ) == (limiter_table(self.route_ratelimiters)[key@], allowed));
                    assert(limits_checked(
                        limiter_table(old(self).route_ratelimiters),
                        opt_limiter(old(self).ratelimiter),
                        limiter_table(self.route_ratelimiters),
                        opt_limiter(self.ratelimiter),
                        key@,
                        ip,
                        allowed,
                    ));
                }
                allowed
            },
            None => {
                proof {
                    assert(limiter_table(self.route_ratelimiters) =~= limiter_table(
                        old(self).route_ratelimiters,
                    ));
                }
                let ghost global_before = opt_limiter(self.ratelimiter);
                let ghost mut witness: nat = 0;
                let allowed = match &mut self.ratelimiter {
                    Some(g) => {
                        let a = g.check(ip);
                        proof {
                            witness = choose|e: nat| #[trigger]
                                check_step(global_before->0, ip, e) == (g@, a);
                        }
                        a
                    },
                    None => true,
                };
                proof {
                    if global_before is Some {
                        assert(check_step(global_before->0, ip, witness) == (
                            opt_limiter(self.ratelimiter)->0,
                            allowed,
                        ));
                    }
                    assert(limits_checked(
                        limiter_table(old(self).route_ratelimiters),
                        opt_limiter(old(self).ratelimiter),
                        limiter_table(self.route_ratelimiters),
                        opt_limiter(self.ratelimiter),
                        key@,
                        ip,
                        allowed,
                    ));
                }
                allowed
            },
        }
    }

    /// Routes a request from `ip` for `host` and `path`: the first matching
    /// route, then its rate limit, then its load balancer.
    pub fn route_request(&mut self, host: &str, path: &str, ip: ClientIp) -> (r: RequestDecision)
        requires
            old(self).wf(),
        ensures
            final(self).wf(),
            final(self).config == old(self).config,
            final(self).origin_states == old(self).origin_states,
            final(self).error_pages == old(self).error_pages,
            final(self).router.routes@.len() == old(self).router.routes@.len(),
            forall|i: int|
                0 <= i < old(self).router.routes@.len() ==> {
                    let a = #[trigger] final(self).router.routes@[i];
                    let b = old(self).router.routes@[i];
                    a.match_host == b.match_host && a.match_path == b.match_path && a.key == b.key
                        && a.candidates == b.candidates && a.load_balancer.algorithm()
                        == b.load_balancer.algorithm()
                },
            match r {
                RequestDecision::NotFound => {
                    &&& first_match(old(self).router.routes@, host@, path@) is None
                    &&& final(self).route_ratelimiters == old(self).route_ratelimiters
                    &&& final(self).ratelimiter == old(self).ratelimiter
                    &&& final(self).router == old(self).router
                },
                RequestDecision::RateLimited { route } => {
                    &&& first_match(old(self).router.routes@, host@, path@) == Some(route as int)
                    &&& final(self).router == old(self).router
                    &&& limits_checked(
                        limiter_table(old(self).route_ratelimiters),
                        opt_limiter(old(self).ratelimiter),
                        limiter_table(final(self).route_ratelimiters),
                        opt_limiter(final(self).ratelimiter),
                        old(self).router.routes@[route as int].key@,
                        ip,
                        false,
                    )
                },
                RequestDecision::NoHealthyOrigin { route } => {
                    &&& first_match(old(self).router.routes@, host@, path@) == Some(route as int)
                    &&& others_unchanged(old(self).router.routes@, final(self).router.routes@, route as int)
                    &&& round_robin_step(
                        old(self).router.routes@[route as int].load_balancer,
                        final(self).router.routes@[route as int].load_balancer,
                        old(self).router.routes@[route as int].candidates@,
                        origin_table(old(self).origin_states),
                        None,
                    )
                    &&& limits_checked(
                        limiter_table(old(self).route_ratelimiters),
                        opt_limiter(old(self).ratelimiter),
                        limiter_table(final(self).route_ratelimiters),
                        opt_limiter(final(self).ratelimiter),
                        old(self).router.routes@[route as int].key@,
                        ip,
                        true,
                    )
                    &&& forall|o: int|
                        0 <= o < old(self).router.routes@[route as int].candidates@.len()
                            ==> !old(self).router.routes@[route as int].load_balancer.may_select(
                            old(self).router.routes@[route as int].candidates@,
                            origin_table(old(self).origin_states),
                            o,
                        )
                },
                RequestDecision::Forward { route, origin } => {
                    &&& first_match(old(self).router.routes@, host@, path@) == Some(route as int)
                    &&& others_unchanged(old(self).router.routes@, final(self).router.routes@, route as int)
                    &&& round_robin_step(
                        old(self).router.routes@[route as int].load_balancer,
                        final(self).router.routes@[route as int].load_balancer,
                        old(self).router.routes@[route as int].candidates@,
                        origin_table(old(self).origin_states),
                        Some(origin),
                    )
                    &&& limits_checked(
                        limiter_table(old(self).route_ratelimiters),
                        opt_limiter(old(self).ratelimiter),
                        limiter_table(final(self).route_ratelimiters),
                        opt_limiter(final(self).ratelimiter),
                        old(self).router.routes@[route as int].key@,
                        ip,
                        true,
                    )
                    &&& origin < old(self).router.routes@[route as int].candidates@.len()
                    &&& old(self).router.routes@[route as int].load_balancer.may_select(
                        old(self).router.routes@[route as int].candidates@,
                        origin_table(old(self).origin_states),
                        origin as int,
                    )
                },
            },
    {
        let idx = match self.router.match_route_index(host, path) {
            Some(i) => i,
            None => {
                return RequestDecision::NotFound;
            },
        };
        let key = self.router.routes[idx].key.clone();
        let allowed = self.check_limits(key.as_str(), ip);
        if !allowed {
            return RequestDecision::RateLimited { route: idx };
        }
        let ghost routes_before = self.router.routes@;
        let entry = &mut self.router.routes[idx];
        let choice = entry.load_balancer.select_origin(entry.candidates.as_slice(), &self.origin_states);
        proof {
            assert forall|i: int| 0 <= i < routes_before.len() implies {
                let a = #[trigger] self.router.routes@[i];
                let b = routes_before[i];
                a.match_host == b.match_host && a.match_path == b.match_path && a.key == b.key
                    && a.candidates == b.candidates && a.load_balancer.algorithm()
                    == b.load_balancer.algorithm()
            } by {}
        }
        match choice {
            Some(o) => RequestDecision::Forward { route: idx, origin: o },
            None => RequestDecision::NoHealthyOrigin { route: idx },
        }
    }

    /// Records a proxied request to the origin kept under `origin_key`, when
    /// one is: counts it and folds its latency in, and, when passive tracking
    /// is enabled, records its outcome against the passive thresholds (see
    /// `outcome_step`).
    pub fn record_outcome(&mut self, origin_key: &str, latency_ns: u64, outcome: Outcome)
        requires
            old(self).wf(),
        ensures
            final(self).wf(),
            final(self).config == old(self).config,
            final(self).router == old(self).router,
            final(self).ratelimiter == old(self).ratelimiter,
            final(self).route_ratelimiters == old(self).route_ratelimiters,
            final(self).error_pages == old(self).error_pages,
            origin_table(final(self).origin_states) == if origin_table(
                old(self).origin_states,
            ).contains_key(origin_key@) {
                origin_table(old(self).origin_states).insert(
                    origin_key@,
                    outcome_step(
                        origin_table(old(self).origin_states)[origin_key@],
                        old(self).config.health.passive,
                        latency_ns,
                        outcome,
                    ),
                )
            } else {
                origin_table(old(self).origin_states)
            },
            !old(self).config.health.passive.enabled && origin_table(
                old(self).origin_states,
            ).contains_key(origin_key@) ==> {
                let a = origin_table(final(self).origin_states)[origin_key@];
                let b = origin_table(old(self).origin_states)[origin_key@];
                &&& a.consecutive_successes == b.consecutive_successes
                &&& a.consecutive_failures == b.consecutive_failures
                &&& a.total_failures == b.total_failures
                &&& a.healthy == b.healthy
            },
    {
        match origin_table_get(&self.origin_states, origin_key) {
            Some(mut s) => {
                s.increment_requests();
                s.record_latency(latency_ns);
                let passive = self.config.health.passive;
                if passive.enabled {
                    match outcome {
                        Outcome::Success => s.record_success_with_threshold(passive.success_threshold),
                        _ => s.record_failure_with_threshold(passive.failure_threshold),
                    }
                }
                origin_table_insert(&mut self.origin_states, String::from_str(origin_key), s);
            },
            None => {},
        }
    }

    /// Records an active probe of the origin kept under `origin_key`, when one
    /// is, with the active thresholds.
    pub fn record_probe(&mut self, origin_key: &str, passed: bool)
        requires
            old(self).wf(),
        ensures
            final(self).wf(),
            final(self).config == old(self).config,
            final(self).router == old(self).router,
            final(self).ratelimiter == old(self).ratelimiter,
            final(self).route_ratelimiters == old(self).route_ratelimiters,
            final(self).error_pages == old(self).error_pages,
            origin_table(final(self).origin_states) == if origin_table(
                old(self).origin_states,
            ).contains_key(origin_key@) {
                let s = origin_table(old(self).origin_states)[origin_key@];
                let a = old(self).config.health.active;
                origin_table(old(self).origin_states).insert(
                    origin_key@,
                    if passed {
                        after_success(s, a.healthy_threshold)
                    } else {
                        after_failure(s, a.unhealthy_threshold)
                    },
                )
            } else {
                origin_table(old(self).origin_states)
            },
    {
        match origin_table_get(&self.origin_states, origin_key) {
            Some(mut s) => {
                let active = self.config.health.active;
                if passed {
                    s.record_success_with_threshold(active.healthy_threshold);
                } else {
                    s.record_failure_with_threshold(active.unhealthy_threshold);
                }
                origin_table_insert(&mut self.origin_states, String::from_str(origin_key), s);
            },
            None => {},
        }
    }

    /// Takes in a configuration that passed validation: rebuilds the routes
    /// from it, replaces the per-route limiters with empty ones for its
    /// routes, gives its new origins fresh states, and keeps the global
    /// limiter and every existing origin state.
    pub fn apply_config(&mut self, new_config: ProxyConfig)
        requires
            old(self).wf(),
        ensures
            final(self).wf(),
            final(self).config == new_config,
            final(self).router.routes@.len() == new_config.routes@.len(),
            forall|i: int|
                0 <= i < final(self).router.routes@.len() ==> entry_for(
                    #[trigger] final(self).router.routes@[i],
                    new_config.routes@[i],
                    nothing_discovered(),
                ),
            limiter_table(final(self).route_ratelimiters) == route_limiters(
                new_config.routes@,
                new_config.routes@.len() as int,
            ),
            registered(
                origin_table(old(self).origin_states),
                config_keys(new_config),
                origin_table(final(self).origin_states),
            ),
            final(self).ratelimiter == old(self).ratelimiter,
            final(self).error_pages == old(self).error_pages,
    {
        self.router = Router::from_config(&new_config);
        limiter_table_clear(&mut self.route_ratelimiters);
        build_route_limiters(&mut self.route_ratelimiters, &new_config.routes);
        let keys = config_origin_keys(&new_config);
        register_origins(&mut self.origin_states, &keys);
        proof {
            lemma_route_limiters_wf(new_config.routes@, new_config.routes@.len() as int);
            lemma_registered_tracks(
                origin_table(old(self).origin_states),
                config_keys(new_config),
                origin_table(self.origin_states),
            );
            lemma_nothing_discovered_tracked(origin_table(self.origin_states));
            lemma_routes_tracked(
                self.router.routes@,
                new_config,
                nothing_discovered(),
                origin_table(self.origin_states),
            );
        }
        self.config = new_config;
    }

    /// Reloads from a newly read configuration: when it passes validation
    /// (`directory_exists` tells whether its error pages directory exists) it
    /// is taken in as `apply_config` does; otherwise the state is left as it
    /// was and the validation error is returned.
    pub fn reload(&mut self, new_config: ProxyConfig, directory_exists: bool) -> (r: Result<
        (),
        ConfigError,
    >)
        requires
            old(self).wf(),
        ensures
            final(self).wf(),
            match r {
                Ok(()) => {
                    &&& full_validation(new_config, directory_exists) is None
                    &&& final(self).config == new_config
                    &&& final(self).router.routes@.len() == new_config.routes@.len()
                    &&& forall|i: int|
                        0 <= i < final(self).router.routes@.len() ==> entry_for(
                            #[trigger] final(self).router.routes@[i],
                            new_config.routes@[i],
                            nothing_discovered(),
                        )
                    &&& limiter_table(final(self).route_ratelimiters) == route_limiters(
                        new_config.routes@,
                        new_config.routes@.len() as int,
                    )
                    &&& registered(
                        origin_table(old(self).origin_states),
                        config_keys(new_config),
                        origin_table(final(self).origin_states),
                    )
                    &&& final(self).ratelimiter == old(self).ratelimiter
                    &&& final(self).error_pages == old(self).error_pages
                },
                Err(e) => {
                    &&& full_validation(new_config, directory_exists) == Some(e@)
                    &&& *final(self) == *old(self)
                },
            },
    {
        match new_config.validate_with_directory(directory_exists) {
            Ok(()) => {
                self.apply_config(new_config);
                Ok(())
            },
            Err(e) => Err(e),
        }
    }

    /// Takes in a Service event: when the Service stands for an origin, that
    /// origin becomes the one discovered origin of its pool, the routes are
    /// rebuilt with the discovered origins, and every discovered origin gets a
    /// state if it has none. Returns whether the routes were rebuilt.
    pub fn apply_service(&mut self, k8s_origins: &mut K8sOrigins, svc: &ServiceInfo) -> (r: bool)
        requires
            old(self).wf(),
        ensures
            final(self).wf(),
            r == (service_origin(*svc) is Some),
            final(self).config == old(self).config,
            final(self).ratelimiter == old(self).ratelimiter,
            final(self).route_ratelimiters == old(self).route_ratelimiters,
            final(self).error_pages == old(self).error_pages,
            match service_origin(*svc) {
                Some((pool, url)) => {
                    &&& forall|k: Seq<char>| #[trigger]
                        final(k8s_origins).lookup(k) == if k == pool {
                            Some(seq![url])
                        } else {
                            old(k8s_origins).lookup(k)
                        }
                    &&& final(self).router.routes@.len() == old(self).config.routes@.len()
                    &&& forall|i: int|
                        0 <= i < final(self).router.routes@.len() ==> entry_for(
                            #[trigger] final(self).router.routes@[i],
                            old(self).config.routes@[i],
                            discovered_in(*final(k8s_origins)),
                        )
                    &&& registered(
                        origin_table(old(self).origin_states),
                        k8s_keys(*final(k8s_origins)),
                        origin_table(final(self).origin_states),
                    )
                },
                None => {
                    &&& *final(k8s_origins) == *old(k8s_origins)
                    &&& final(self).router == old(self).router
                    &&& final(self).origin_states == old(self).origin_states
                },
            },
    {
        match service_to_origin(svc) {
            Some((pool, url)) => {
                k8s_origins.set_pool(pool, url);
                self.router = Router::from_config_with_k8s(&self.config, k8s_origins);
                let keys = k8s_origin_keys(k8s_origins);
                register_origins(&mut self.origin_states, &keys);
                proof {
                    let before = origin_table(old(self).origin_states);
                    let after = origin_table(self.origin_states);
                    lemma_registered_tracks(before, k8s_keys(*k8s_origins), after);
                    assert forall|k: Seq<char>| #[trigger]
                        config_keys(self.config).contains(k) implies after.contains_key(k) by {
                        assert(before.contains_key(k));
                    }
                    lemma_discovered_tracked(*k8s_origins, after);
                    lemma_routes_tracked(
                        self.router.routes@,
                        self.config,
                        discovered_in(*k8s_origins),
                        after,
                    );
                }
                true
            },
            None => false,
        }
    }

    /// Every origin key with its state, each once, in no particular order.
    pub fn origin_snapshot(&self) -> (r: Vec<(String, OriginState)>)
        ensures
            lists_entries(origin_table(self.origin_states), r@),
    {
        origin_table_entries(&self.origin_states)
    }

    /// The number of origins tracked and how many of them are healthy.
    pub fn origin_counts(&self) -> (r: (usize, usize))
        ensures
            r.0 == origin_table(self.origin_states).len(),
            r.1 == healthy_keys(origin_table(self.origin_states)).len(),
            r.1 <= r.0,
    {
        let total = origin_table_len(&self.origin_states);
        let entries = origin_table_entries(&self.origin_states);
        let ghost m = origin_table(self.origin_states);
        let ghost mut hk: Seq<Seq<char>> = Seq::empty();
        let ghost mut idx: Seq<int> = Seq::empty();
        let mut healthy: usize = 0;
        let mut i: usize = 0;
        while i < entries.len()
            invariant
                i <= entries@.len(),
                lists_entries(m, entries@),
                healthy == hk.len(),
                hk.len() <= i,
                hk.len() == idx.len(),
                hk.no_duplicates(),
                forall|x: int|
                    0 <= x < hk.len() ==> 0 <= #[trigger] idx[x] < i && entries@[idx[x]].1.healthy
                        && hk[x] == entries@[idx[x]].0@,
                forall|j: int|
                    0 <= j < i && (#[trigger] entries@[j]).1.healthy ==> hk.contains(entries@[j].0@),
            decreases entries@.len() - i,
        {
            if entries[i].1.healthy {
                proof {
                    let k = entries@[i as int].0@;
                    assert forall|x: int| 0 <= x < hk.len() implies hk[x] != k by {
                        assert(idx[x] < i);
                    }
                    let old_hk = hk;
                    hk = hk.push(k);
                    idx = idx.push(i as int);
                    assert forall|j: int|
                        0 <= j < i + 1 && (#[trigger] entries@[j]).1.healthy implies hk.contains(
                        entries@[j].0@,
                    ) by {
                        if j == i {
                            assert(hk[hk.len() - 1] == k);
                        } else {
                            let w = choose|w: int| 0 <= w < old_hk.len() && old_hk[w] == entries@[j].0@;
                            assert(hk[w] == entries@[j].0@);
                        }
                    }
                }
                healthy = healthy + 1;
            }
            i = i + 1;
        }
        proof {
            assert forall|k: Seq<char>| #[trigger] hk.to_set().contains(k) == healthy_keys(m).contains(k) by {
                if hk.to_set().contains(k) {
                    let w = choose|w: int| 0 <= w < hk.len() && hk[w] == k;
                    assert(idx[w] >= 0);
                    assert(m.contains_key(entries@[idx[w]].0@));
                }
                if healthy_keys(m).contains(k) {
                    assert(m.contains_key(k));
                    let j = choose|j: int| 0 <= j < entries@.len() && entries@[j].0@ == k;
                    assert(m.contains_key(entries@[j].0@));
                }
            }
            assert(hk.to_set() =~= healthy_keys(m));
            hk.unique_seq_to_set();
            let keys = entries@.map_values(|e: (String, OriginState)| e.0@);
            assert forall|k: Seq<char>| #[trigger] m.dom().contains(k) == keys.to_set().contains(k) by {
                if m.dom().contains(k) {
                    let j = choose|j: int| 0 <= j < entries@.len() && entries@[j].0@ == k;
                    assert(keys[j] == k);
                }
                if keys.to_set().contains(k) {
                    let j = choose|j: int| 0 <= j < keys.len() && keys[j] == k;
                    assert(m.contains_key(entries@[j].0@));
                }
            }
            assert(m.dom() =~= keys.to_set());
            vstd::set_lib::lemma_len_subset(healthy_keys(m), m.dom());
        }
        (total, healthy)
    }

    /// Drops the buckets idle longer than `max_idle` nanoseconds from every
    /// limiter.
    pub fn cleanup_stale(&mut self, max_idle: u64)
        requires
            old(self).wf(),
        ensures
            final(self).wf(),
            final(self).config == old(self).config,
            final(self).router == old(self).router,
            final(self).origin_states == old(self).origin_states,
            final(self).error_pages == old(self).error_pages,
            match (old(self).ratelimiter, final(self).ratelimiter) {
                (Some(a), Some(b)) => stale_removed(a@, max_idle, b@),
                (None, None) => true,
                _ => false,
            },
            limiter_table(final(self).route_ratelimiters).dom() == limiter_table(
                old(self).route_ratelimiters,
            ).dom(),
            forall|k: Seq<char>| #[trigger]
                limiter_table(old(self).route_ratelimiters).contains_key(k) ==> stale_removed(
                    limiter_table(old(self).route_ratelimiters)[k],
                    max_idle,
                    limiter_table(final(self).route_ratelimiters)[k],
                ),
    {
        match &mut self.ratelimiter {
            Some(g) => g.cleanup_stale(max_idle),
            None => {},
        }
        let ghost before = limiter_table(self.route_ratelimiters);
        let keys = limiter_table_keys(&self.route_ratelimiters);
        let mut i: usize = 0;
        while i < keys.len()
            invariant
                i <= keys@.len(),
                self.wf(),
                self.config == old(self).config,
                self.router == old(self).router,
                self.origin_states == old(self).origin_states,
                self.error_pages == old(self).error_pages,
                match (old(self).ratelimiter, self.ratelimiter) {
                    (Some(a), Some(b)) => stale_removed(a@, max_idle, b@),
                    (None, None) => true,
                    _ => false,
                },
                before == limiter_table(old(self).route_ratelimiters),
                limiter_table(self.route_ratelimiters).dom() == before.dom(),
                forall|j: int| 0 <= j < keys@.len() ==> before.contains_key(#[trigger] keys@[j]@),
                forall|a: int, b: int| 0 <= a < b < keys@.len() ==> keys@[a]@ != keys@[b]@,
                forall|j: int|
                    0 <= j < i ==> stale_removed(
                        before[#[trigger] keys@[j]@],
                        max_idle,
                        limiter_table(self.route_ratelimiters)[keys@[j]@],
                    ),
                forall|k: Seq<char>|
                    #[trigger] before.contains_key(k) && (forall|j: int|
                        0 <= j < i ==> keys@[j]@ != k) ==> limiter_table(self.route_ratelimiters)[k]
                        == before[k],
            decreases keys@.len() - i,
        {
            let ghost cur = limiter_table(self.route_ratelimiters);
            let ghost key = keys@[i as int]@;
            match limiter_table_remove(&mut self.route_ratelimiters, keys[i].as_str()) {
                Some(mut l) => {
                    l.cleanup_stale(max_idle);
                    let ghost la = l@;
                    limiter_table_insert(&mut self.route_ratelimiters, keys[i].clone(), l);
                    proof {
                        let m = limiter_table(self.route_ratelimiters);
                        assert(m == cur.insert(key, la));
                        assert forall|k: Seq<char>| #[trigger] m.contains_key(k) implies limiter_wf(
                            m[k],
                        ) by {}
                        assert(m.dom() =~= before.dom());
                        assert(cur[key] == before[key]) by {
                            assert forall|j: int| 0 <= j < i implies keys@[j]@ != key by {}
                        }
                        assert forall|j: int| 0 <= j < i + 1 implies stale_removed(
                            before[#[trigger] keys@[j]@],
                            max_idle,
                            m[keys@[j]@],
                        ) by {
                            if j < i {
                                assert(keys@[j]@ != key);
                            }
                        }
                        assert forall|k: Seq<char>|
                            #[trigger] before.contains_key(k) && (forall|j: int|
                                0 <= j < i + 1 ==> keys@[j]@ != k) implies m[k] == before[k] by {
                            assert(keys@[i as int]@ != k);
                        }
                    }
                },
                None => {
                    assert(false);
                },
            }
            i = i + 1;
        }
        proof {
            assert forall|k: Seq<char>| #[trigger] before.contains_key(k) implies stale_removed(
                before[k],
                max_idle,
                limiter_table(self.route_ratelimiters)[k],
            ) by {
                let j = choose|j: int| 0 <= j < keys@.len() && keys@[j]@ == k;
                assert(stale_removed(
                    before[keys@[j]@],
                    max_idle,
                    limiter_table(self.route_ratelimiters)[keys@[j]@],
                ));
            }
        }
    }
}

} // verus!
