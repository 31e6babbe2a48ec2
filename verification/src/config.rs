//! The proxy configuration, its defaults and its validation.
use crate::origin_url::{OriginUrl, OriginUrlView};
use crate::text::{decimal, decimal_string, str_eq};
use vstd::prelude::*;

verus! {

/// Why a configuration was refused.
#[allow(inconsistent_fields)]
#[derive(Debug)]
pub enum ConfigError {
    RouteHasNoPools { route: String },
    PoolHasNoOrigins { route: String, pool: String },
    InvalidOriginUrl { route: String, pool: String, origin: String, reason: String },
    HttpsNotSupported { route: String, pool: String, origin: String },
    InvalidRateLimit,
    DuplicateRouteMatch { host: Option<String>, path: Option<String> },
    InvalidSocketAddr { addr: String, reason: String },
    ErrorPagesDirectoryNotFound { path: String },
}

/// The character view of a [`ConfigError`].
#[allow(inconsistent_fields)]
pub enum ConfigErrorView {
    RouteHasNoPools { route: Seq<char> },
    PoolHasNoOrigins { route: Seq<char>, pool: Seq<char> },
    InvalidOriginUrl { route: Seq<char>, pool: Seq<char>, origin: Seq<char>, reason: Seq<char> },
    HttpsNotSupported { route: Seq<char>, pool: Seq<char>, origin: Seq<char> },
    InvalidRateLimit,
    DuplicateRouteMatch { host: Option<Seq<char>>, path: Option<Seq<char>> },
    InvalidSocketAddr { addr: Seq<char>, reason: Seq<char> },
    ErrorPagesDirectoryNotFound { path: Seq<char> },
}

impl View for ConfigError {
    type V = ConfigErrorView;

    open spec fn view(&self) -> ConfigErrorView {
        match self {
            ConfigError::RouteHasNoPools { route } => ConfigErrorView::RouteHasNoPools {
                route: route@,
            },
            ConfigError::PoolHasNoOrigins { route, pool } => ConfigErrorView::PoolHasNoOrigins {
                route: route@,
                pool: pool@,
            },
            ConfigError::InvalidOriginUrl { route, pool, origin, reason } =>
                ConfigErrorView::InvalidOriginUrl {
                route: route@,
                pool: pool@,
                origin: origin@,
                reason: reason@,
            },
            ConfigError::HttpsNotSupported { route, pool, origin } =>
                ConfigErrorView::HttpsNotSupported { route: route@, pool: pool@, origin: origin@ },
            ConfigError::InvalidRateLimit => ConfigErrorView::InvalidRateLimit,
            ConfigError::DuplicateRouteMatch { host, path } =>
                ConfigErrorView::DuplicateRouteMatch {
                host: host.deep_view(),
                path: path.deep_view(),
            },
            ConfigError::InvalidSocketAddr { addr, reason } =>
                ConfigErrorView::InvalidSocketAddr { addr: addr@, reason: reason@ },
            ConfigError::ErrorPagesDirectoryNotFound { path } =>
                ConfigErrorView::ErrorPagesDirectoryNotFound { path: path@ },
        }
    }
}

/// The text shown for an optional match part: the part, or `*` when absent.
pub open spec fn or_star(part: Option<Seq<char>>) -> Seq<char> {
    match part {
        Some(p) => p,
        None => "*"@,
    }
}

/// The message that explains a refused configuration.
pub open spec fn error_message(e: ConfigErrorView) -> Seq<char> {
    match e {
        ConfigErrorView::RouteHasNoPools { route } => "route '"@ + route
            + "' has no pools configured"@,
        ConfigErrorView::PoolHasNoOrigins { route, pool } => "route '"@ + route + "' pool '"@
            + pool + "' has no origins"@,
        ConfigErrorView::InvalidOriginUrl { route, pool, origin, reason } => "route '"@ + route
            + "' pool '"@ + pool + "' origin '"@ + origin + "' has invalid URL: "@ + reason,
        ConfigErrorView::HttpsNotSupported { route, pool, origin } => "route '"@ + route
            + "' pool '"@ + pool + "' origin '"@ + origin
            + "' uses HTTPS scheme (not supported in v1)"@,
        ConfigErrorView::InvalidRateLimit => "rate limit must have rate > 0 and burst > 0"@,
        ConfigErrorView::DuplicateRouteMatch { host, path } => "duplicate route match: host '"@
            + or_star(host) + "' path '"@ + or_star(path) + "'"@,
        ConfigErrorView::InvalidSocketAddr { addr, reason } => "invalid socket address '"@ + addr
            + "': "@ + reason,
        ConfigErrorView::ErrorPagesDirectoryNotFound { path } => "error pages directory '"@ + path
            + "' does not exist"@,
    }
}

fn append_or_star(m: &mut String, part: &Option<String>)
    ensures
        final(m)@ == old(m)@ + or_star(part.deep_view()),
{
    match part {
        Some(p) => m.append(p.as_str()),
        None => m.append("*"),
    }
}

impl ConfigError {
    /// The message that explains the refusal.
    pub fn message(&self) -> (r: String)
        ensures
            r@ == error_message(self@),
    {
        match self {
            ConfigError::RouteHasNoPools { route } => {
                let mut m = String::from_str("route '");
                m.append(route.as_str());
                m.append("' has no pools configured");
                m
            },
            ConfigError::PoolHasNoOrigins { route, pool } => {
                let mut m = String::from_str("route '");
                m.append(route.as_str());
                m.append("' pool '");
                m.append(pool.as_str());
                m.append("' has no origins");
                m
            },
            ConfigError::InvalidOriginUrl { route, pool, origin, reason } => {
                let mut m = String::from_str("route '");
                m.append(route.as_str());
                m.append("' pool '");
                m.append(pool.as_str());
                m.append("' origin '");
                m.append(origin.as_str());
                m.append("' has invalid URL: ");
                m.append(reason.as_str());
                m
            },
            ConfigError::HttpsNotSupported { route, pool, origin } => {
                let mut m = String::from_str("route '");
                m.append(route.as_str());
                m.append("' pool '");
                m.append(pool.as_str());
                m.append("' origin '");
                m.append(origin.as_str());
                m.append("' uses HTTPS scheme (not supported in v1)");
                m
            },
            ConfigError::InvalidRateLimit => String::from_str(
                "rate limit must have rate > 0 and burst > 0",
            ),
            ConfigError::DuplicateRouteMatch { host, path } => {
                let mut m = String::from_str("duplicate route match: host '");
                append_or_star(&mut m, host);
                m.append("' path '");
                append_or_star(&mut m, path);
                m.append("'");
                m
            },
            ConfigError::InvalidSocketAddr { addr, reason } => {
                let mut m = String::from_str("invalid socket address '");
                m.append(addr.as_str());
                m.append("': ");
                m.append(reason.as_str());
                m
            },
            ConfigError::ErrorPagesDirectoryNotFound { path } => {
                let mut m = String::from_str("error pages directory '");
                m.append(path.as_str());
                m.append("' does not exist");
                m
            },
        }
    }
}

/// The load balancing algorithm of a route.
#[derive(Clone, Copy, Debug, PartialEq, Eq, Structural)]
pub enum LbAlgorithm {
    RoundRobin,
    WeightedLatency,
    WeightedMetrics,
}

/// Token bucket parameters: `rate` tokens per second, at most `burst` tokens.
#[derive(Clone, Copy, Debug, PartialEq, Eq, Structural)]
pub struct RateLimitConfig {
    pub rate: u32,
    pub burst: u32,
}

/// One upstream origin of a pool.
pub struct OriginConfig {
    pub url: OriginUrl,
    pub weight: Option<u32>,
    pub health_check_path: Option<String>,
}

/// A named group of origins.
pub struct PoolRef {
    pub name: String,
    pub origins: Vec<OriginConfig>,
}

/// One route: what it matches, where it sends, and how.
pub struct RouteConfig {
    pub match_host: Option<String>,
    pub match_path: Option<String>,
    pub pools: Vec<PoolRef>,
    pub lb_algorithm: LbAlgorithm,
    pub ratelimit: Option<RateLimitConfig>,
}

/// A span of time as `std::time::Duration` holds it: whole seconds, and
/// the nanoseconds of the last, partial second.
#[derive(Clone, Copy, Debug, PartialEq, Eq, Structural)]
pub struct TimeSpan {
    pub secs: u64,
    pub nanos: u32,
}

impl TimeSpan {
    /// The nanoseconds are those of a partial second.
    pub open spec fn wf(self) -> bool {
        self.nanos < 1_000_000_000
    }

    /// `secs` whole seconds.
    pub fn from_secs(secs: u64) -> (r: TimeSpan)
        ensures
            r == (TimeSpan { secs, nanos: 0 }),
            r.wf(),
    {
        TimeSpan { secs, nanos: 0 }
    }
}

/// Active probing of origins.
#[derive(Clone, Copy, Debug, PartialEq, Eq, Structural)]
pub struct ActiveHealthConfig {
    pub enabled: bool,
    pub interval: TimeSpan,
    pub timeout: TimeSpan,
    pub healthy_threshold: u32,
    pub unhealthy_threshold: u32,
}

/// In-band tracking of origin outcomes.
#[derive(Clone, Copy, Debug, PartialEq, Eq, Structural)]
pub struct PassiveHealthConfig {
    pub enabled: bool,
    pub failure_threshold: u32,
    pub success_threshold: u32,
    pub observation_window: TimeSpan,
}

/// Active and passive health settings.
#[derive(Clone, Copy, Debug, PartialEq, Eq, Structural)]
pub struct HealthConfig {
    pub active: ActiveHealthConfig,
    pub passive: PassiveHealthConfig,
}

/// Kubernetes Service discovery settings.
pub struct KubernetesConfig {
    pub namespace: Option<String>,
    pub label_selector: Option<String>,
    pub poll_interval: TimeSpan,
}

/// A custom page served for one status code.
pub struct ErrorPage {
    pub code: u16,
    pub file: String,
}

/// Where the custom error pages are and which status codes they serve.
pub struct ErrorPagesConfig {
    pub directory: String,
    pub pages: Vec<ErrorPage>,
}

/// The whole proxy configuration. The two addresses are held as written
/// (`ip:port`).
pub struct ProxyConfig {
    pub listen: String,
    pub metrics_addr: String,
    pub routes: Vec<RouteConfig>,
    pub ratelimit: Option<RateLimitConfig>,
    pub health: HealthConfig,
    pub kubernetes: Option<KubernetesConfig>,
    pub error_pages: Option<ErrorPagesConfig>,
}

/// Default proxy listen address.
pub fn default_listen() -> (r: String)
    ensures
        r@ == "0.0.0.0:8080"@,
{
    String::from_str("0.0.0.0:8080")
}

/// Default health and metrics listen address.
pub fn default_metrics_addr() -> (r: String)
    ensures
        r@ == "0.0.0.0:9090"@,
{
    String::from_str("0.0.0.0:9090")
}

/// Default load balancing algorithm.
pub fn default_lb_algorithm() -> (r: LbAlgorithm)
    ensures
        r == LbAlgorithm::RoundRobin,
{
    LbAlgorithm::RoundRobin
}

/// Active probing is off unless enabled.
pub fn default_active_enabled() -> (r: bool)
    ensures
        r == false,
{
    false
}

/// Ten seconds between probes.
pub fn default_active_interval() -> (r: TimeSpan)
    ensures
        r == (TimeSpan { secs: 10, nanos: 0 }),
{
    TimeSpan::from_secs(10)
}

/// Five seconds per probe.
pub fn default_active_timeout() -> (r: TimeSpan)
    ensures
        r == (TimeSpan { secs: 5, nanos: 0 }),
{
    TimeSpan::from_secs(5)
}

/// Two consecutive successful probes mark an origin healthy.
pub fn default_healthy_threshold() -> (r: u32)
    ensures
        r == 2,
{
    2
}

/// Three consecutive failed probes mark an origin unhealthy.
pub fn default_unhealthy_threshold() -> (r: u32)
    ensures
        r == 3,
{
    3
}

/// Passive tracking is off unless enabled.
pub fn default_passive_enabled() -> (r: bool)
    ensures
        r == false,
{
    false
}

/// Five consecutive failed requests mark an origin unhealthy.
pub fn default_failure_threshold() -> (r: u32)
    ensures
        r == 5,
{
    5
}

/// Two consecutive successful requests mark an origin healthy.
pub fn default_success_threshold() -> (r: u32)
    ensures
        r == 2,
{
    2
}

/// Sixty seconds of observation.
pub fn default_observation_window() -> (r: TimeSpan)
    ensures
        r == (TimeSpan { secs: 60, nanos: 0 }),
{
    TimeSpan::from_secs(60)
}

/// Thirty seconds between discovery polls.
pub fn default_poll_interval() -> (r: TimeSpan)
    ensures
        r == (TimeSpan { secs: 30, nanos: 0 }),
{
    TimeSpan::from_secs(30)
}

impl Default for ActiveHealthConfig {
    fn default() -> (r: Self)
        ensures
            r == (ActiveHealthConfig {
                enabled: false,
                interval: TimeSpan { secs: 10, nanos: 0 },
                timeout: TimeSpan { secs: 5, nanos: 0 },
                healthy_threshold: 2,
                unhealthy_threshold: 3,
            }),
    {
        ActiveHealthConfig {
            enabled: default_active_enabled(),
            interval: default_active_interval(),
            timeout: default_active_timeout(),
            healthy_threshold: default_healthy_threshold(),
            unhealthy_threshold: default_unhealthy_threshold(),
        }
    }
}

impl Default for PassiveHealthConfig {
    fn default() -> (r: Self)
        ensures
            r == (PassiveHealthConfig {
                enabled: false,
                failure_threshold: 5,
                success_threshold: 2,
                observation_window: TimeSpan { secs: 60, nanos: 0 },
            }),
    {
        PassiveHealthConfig {
            enabled: default_passive_enabled(),
            failure_threshold: default_failure_threshold(),
            success_threshold: default_success_threshold(),
            observation_window: default_observation_window(),
        }
    }
}

impl Default for HealthConfig {
    fn default() -> (r: Self)
        ensures
            r.active == (ActiveHealthConfig {
                enabled: false,
                interval: TimeSpan { secs: 10, nanos: 0 },
                timeout: TimeSpan { secs: 5, nanos: 0 },
                healthy_threshold: 2,
                unhealthy_threshold: 3,
            }),
            r.passive == (PassiveHealthConfig {
                enabled: false,
                failure_threshold: 5,
                success_threshold: 2,
                observation_window: TimeSpan { secs: 60, nanos: 0 },
            }),
    {
        HealthConfig { active: ActiveHealthConfig::default(), passive: PassiveHealthConfig::default() }
    }
}

// ---------------------------------------------------------------------------
// Validation
// ---------------------------------------------------------------------------
/// The name a route is reported under: its host, else its path, else
/// `index-<position>`.
pub open spec fn route_name(r: RouteConfig, idx: nat) -> Seq<char> {
    match r.match_host {
        Some(h) => h@,
        None => match r.match_path {
            Some(p) => p@,
            None => "index-"@ + decimal(idx),
        },
    }
}

/// The (host, path) pair that two routes must not share.
pub open spec fn match_key(r: RouteConfig) -> (Option<Seq<char>>, Option<Seq<char>>) {
    (r.match_host.deep_view(), r.match_path.deep_view())
}

/// A rate limit with a zero rate or a zero burst.
pub open spec fn rate_limit_invalid(rl: Option<RateLimitConfig>) -> bool {
    match rl {
        Some(l) => l.rate == 0 || l.burst == 0,
        None => false,
    }
}

/// The error an origin gives: none for `http`, a refusal of `https`, else an
/// invalid scheme.
pub open spec fn origin_error(route: Seq<char>, pool: Seq<char>, url: OriginUrlView) -> Option<
    ConfigErrorView,
> {
    if url.scheme == "http"@ {
        None
    } else if url.scheme == "https"@ {
        Some(
            ConfigErrorView::HttpsNotSupported { route, pool, origin: url.serialization },
        )
    } else {
        Some(
            ConfigErrorView::InvalidOriginUrl {
                route,
                pool,
                origin: url.serialization,
                reason: "invalid scheme '"@ + url.scheme + "'"@,
            },
        )
    }
}

/// The first origin error of a pool, looking from origin `j` on.
pub open spec fn first_origin_error(route: Seq<char>, pool: PoolRef, j: int) -> Option<
    ConfigErrorView,
>
    decreases pool.origins@.len() - j,
{
    if j < 0 || j >= pool.origins@.len() {
        None
    } else {
        match origin_error(route, pool.name@, pool.origins@[j].url@) {
            Some(e) => Some(e),
            None => first_origin_error(route, pool, j + 1),
        }
    }
}

/// The error of one pool.
pub open spec fn pool_error(route: Seq<char>, pool: PoolRef) -> Option<ConfigErrorView> {
    if pool.origins@.len() == 0 {
        Some(ConfigErrorView::PoolHasNoOrigins { route, pool: pool.name@ })
    } else {
        first_origin_error(route, pool, 0)
    }
}

/// The first pool error of a route, looking from pool `j` on.
pub open spec fn first_pool_error(route: Seq<char>, r: RouteConfig, j: int) -> Option<
    ConfigErrorView,
>
    decreases r.pools@.len() - j,
{
    if j < 0 || j >= r.pools@.len() {
        None
    } else {
        match pool_error(route, r.pools@[j]) {
            Some(e) => Some(e),
            None => first_pool_error(route, r, j + 1),
        }
    }
}

/// Whether route `i` repeats the (host, path) pair of an earlier route.
pub open spec fn is_duplicate(routes: Seq<RouteConfig>, i: int) -> bool {
    exists|k: int| 0 <= k < i && match_key(routes[k]) == match_key(routes[i])
}

/// The error of route `i`, checked in order: duplicate match, no pools, the
/// pools, the route's rate limit.
pub open spec fn route_error(routes: Seq<RouteConfig>, i: int) -> Option<ConfigErrorView> {
    let r = routes[i];
    let name = route_name(r, i as nat);
    if is_duplicate(routes, i) {
        Some(
            ConfigErrorView::DuplicateRouteMatch {
                host: r.match_host.deep_view(),
                path: r.match_path.deep_view(),
            },
        )
    } else if r.pools@.len() == 0 {
        Some(ConfigErrorView::RouteHasNoPools { route: name })
    } else if first_pool_error(name, r, 0) is Some {
        first_pool_error(name, r, 0)
    } else if rate_limit_invalid(r.ratelimit) {
        Some(ConfigErrorView::InvalidRateLimit)
    } else {
        None
    }
}

/// The first route error, looking from route `i` on.
pub open spec fn first_route_error(routes: Seq<RouteConfig>, i: int) -> Option<ConfigErrorView>
    decreases routes.len() - i,
{
    if i < 0 || i >= routes.len() {
        None
    } else {
        match route_error(routes, i) {
            Some(e) => Some(e),
            None => first_route_error(routes, i + 1),
        }
    }
}

/// The outcome of structural validation: the first route error, else an
/// invalid global rate limit, else success.
pub open spec fn structural_validation(c: ProxyConfig) -> Option<ConfigErrorView> {
    match first_route_error(c.routes@, 0) {
        Some(e) => Some(e),
        None => if rate_limit_invalid(c.ratelimit) {
            Some(ConfigErrorView::InvalidRateLimit)
        } else {
            None
        },
    }
}

/// The outcome of full validation, given whether the error pages directory
/// exists.
pub open spec fn full_validation(c: ProxyConfig, directory_exists: bool) -> Option<
    ConfigErrorView,
> {
    match structural_validation(c) {
        Some(e) => Some(e),
        None => match c.error_pages {
            Some(p) => if directory_exists {
                None
            } else {
                Some(ConfigErrorView::ErrorPagesDirectoryNotFound { path: p.directory@ })
            },
            None => None,
        },
    }
}

proof fn lemma_origin_error_not_duplicate(route: Seq<char>, pool: PoolRef, j: int)
    ensures
        first_origin_error(route, pool, j) matches Some(e) ==> !(e is DuplicateRouteMatch),
    decreases pool.origins@.len() - j,
{
    if 0 <= j < pool.origins@.len() {
        lemma_origin_error_not_duplicate(route, pool, j + 1);
    }
}

proof fn lemma_pool_error_not_duplicate(route: Seq<char>, r: RouteConfig, j: int)
    ensures
        first_pool_error(route, r, j) matches Some(e) ==> !(e is DuplicateRouteMatch),
    decreases r.pools@.len() - j,
{
    if 0 <= j < r.pools@.len() {
        lemma_origin_error_not_duplicate(route, r.pools@[j], 0);
        lemma_pool_error_not_duplicate(route, r, j + 1);
    }
}

/// The first route error from `i` on is the error of some route at or after
/// `i`.
proof fn lemma_first_route_error_is_some_route(routes: Seq<RouteConfig>, i: int)
    requires
        0 <= i,
        first_route_error(routes, i) is Some,
    ensures
        exists|j: int|
            i <= j < routes.len() && route_error(routes, j) == first_route_error(routes, i),
    decreases routes.len() - i,
{
    if route_error(routes, i) is None {
        lemma_first_route_error_is_some_route(routes, i + 1);
        let j = choose|j: int|
            i + 1 <= j < routes.len() && route_error(routes, j) == first_route_error(
                routes,
                i + 1,
            );
        assert(i <= j < routes.len() && route_error(routes, j) == first_route_error(routes, i));
    }
}

/// When some route at or after `i` has an error, there is a first one.
proof fn lemma_route_error_found(routes: Seq<RouteConfig>, i: int, j: int)
    requires
        0 <= i <= j < routes.len(),
        route_error(routes, j) is Some,
    ensures
        first_route_error(routes, i) is Some,
    decreases j - i,
{
    if i < j && route_error(routes, i) is None {
        lemma_route_error_found(routes, i + 1, j);
    }
}

/// Validation refuses a configuration as a duplicate route match only for
/// two routes that share both their host and their path, and reports that
/// shared pair; and a configuration in which two routes share both host and
/// path is always refused. Routes that differ in host or in path alone
/// never make a duplicate.
pub proof fn lemma_duplicate_means_same_host_and_path(c: ProxyConfig)
    ensures
        structural_validation(c) matches Some(ConfigErrorView::DuplicateRouteMatch { host, path })
            ==> exists|i: int, j: int|
            #![trigger c.routes@[i], c.routes@[j]]
            0 <= i < j < c.routes@.len() && c.routes@[i].match_host.deep_view()
                == c.routes@[j].match_host.deep_view() && c.routes@[i].match_path.deep_view()
                == c.routes@[j].match_path.deep_view() && host == c.routes@[j].match_host.deep_view()
                && path == c.routes@[j].match_path.deep_view(),
        (exists|i: int, j: int|
            #![trigger c.routes@[i], c.routes@[j]]
            0 <= i < j < c.routes@.len() && c.routes@[i].match_host.deep_view()
                == c.routes@[j].match_host.deep_view() && c.routes@[i].match_path.deep_view()
                == c.routes@[j].match_path.deep_view()) ==> structural_validation(c) is Some,
{
    let routes = c.routes@;
    if structural_validation(c) matches Some(ConfigErrorView::DuplicateRouteMatch { host, path }) {
        assert(first_route_error(routes, 0) is Some);
        lemma_first_route_error_is_some_route(routes, 0);
        let j = choose|j: int|
            0 <= j < routes.len() && route_error(routes, j) == first_route_error(routes, 0);
        let name = route_name(routes[j], j as nat);
        lemma_pool_error_not_duplicate(name, routes[j], 0);
        assert(is_duplicate(routes, j));
        let i = choose|k: int| 0 <= k < j && match_key(routes[k]) == match_key(routes[j]);
        assert(routes[i].match_host.deep_view() == routes[j].match_host.deep_view());
        assert(routes[i].match_path.deep_view() == routes[j].match_path.deep_view());
    }
    if exists|i: int, j: int|
        #![trigger routes[i], routes[j]]
        0 <= i < j < routes.len() && routes[i].match_host.deep_view()
            == routes[j].match_host.deep_view() && routes[i].match_path.deep_view()
            == routes[j].match_path.deep_view() {
        let (i, j) = choose|i: int, j: int|
            #![trigger routes[i], routes[j]]
            0 <= i < j < routes.len() && routes[i].match_host.deep_view()
                == routes[j].match_host.deep_view() && routes[i].match_path.deep_view()
                == routes[j].match_path.deep_view();
        assert(match_key(routes[i]) == match_key(routes[j]));
        assert(is_duplicate(routes, j));
        lemma_route_error_found(routes, 0, j);
    }
}

fn opt_str_eq(a: &Option<String>, b: &Option<String>) -> (r: bool)
    ensures
        r == (a.deep_view() == b.deep_view()),
{
    match (a, b) {
        (Some(x), Some(y)) => str_eq(x.as_str(), y.as_str()),
        (None, None) => true,
        _ => false,
    }
}

fn clone_opt_string(a: &Option<String>) -> (r: Option<String>)
    ensures
        r.deep_view() == a.deep_view(),
{
    match a {
        Some(x) => Some(x.clone()),
        None => None,
    }
}

fn route_name_of(r: &RouteConfig, idx: usize) -> (s: String)
    ensures
        s@ == route_name(*r, idx as nat),
{
    match &r.match_host {
        Some(h) => h.clone(),
        None => match &r.match_path {
            Some(p) => p.clone(),
            None => {
                let mut s = String::from_str("index-");
                let d = decimal_string(idx as u64);
                s.append(d.as_str());
                s
            },
        },
    }
}

fn check_origin(route: &String, pool: &String, url: &OriginUrl) -> (r: Result<(), ConfigError>)
    ensures
        match r {
            Ok(()) => origin_error(route@, pool@, url@) is None,
            Err(e) => origin_error(route@, pool@, url@) == Some(e@),
        },
{
    if str_eq(url.scheme.as_str(), "http") {
        Ok(())
    } else if str_eq(url.scheme.as_str(), "https") {
        Err(
            ConfigError::HttpsNotSupported {
                route: route.clone(),
                pool: pool.clone(),
                origin: url.serialization.clone(),
            },
        )
    } else {
        let mut reason = String::from_str("invalid scheme '");
        reason.append(url.scheme.as_str());
        reason.append("'");
        Err(
            ConfigError::InvalidOriginUrl {
                route: route.clone(),
                pool: pool.clone(),
                origin: url.serialization.clone(),
                reason,
            },
        )
    }
}

fn check_pool(route: &String, pool: &PoolRef) -> (r: Result<(), ConfigError>)
    ensures
        match r {
            Ok(()) => pool_error(route@, *pool) is None,
            Err(e) => pool_error(route@, *pool) == Some(e@),
        },
{
    if pool.origins.len() == 0 {
        return Err(ConfigError::PoolHasNoOrigins { route: route.clone(), pool: pool.name.clone() });
    }
    let mut j: usize = 0;
    while j < pool.origins.len()
        invariant
            j <= pool.origins@.len(),
            first_origin_error(route@, *pool, 0) == first_origin_error(route@, *pool, j as int),
        decreases pool.origins@.len() - j,
    {
        match check_origin(route, &pool.name, &pool.origins[j].url) {
            Ok(()) => {},
            Err(e) => {
                return Err(e);
            },
        }
        j = j + 1;
    }
    Ok(())
}

fn check_pools(route: &String, r: &RouteConfig) -> (res: Result<(), ConfigError>)
    ensures
        match res {
            Ok(()) => first_pool_error(route@, *r, 0) is None,
            Err(e) => first_pool_error(route@, *r, 0) == Some(e@),
        },
{
    let mut j: usize = 0;
    while j < r.pools.len()
        invariant
            j <= r.pools@.len(),
            first_pool_error(route@, *r, 0) == first_pool_error(route@, *r, j as int),
        decreases r.pools@.len() - j,
    {
        match check_pool(route, &r.pools[j]) {
            Ok(()) => {},
            Err(e) => {
                return Err(e);
            },
        }
        j = j + 1;
    }
    Ok(())
}

fn check_rate_limit(rl: &Option<RateLimitConfig>) -> (r: bool)
    ensures
        r == rate_limit_invalid(*rl),
{
    match rl {
        Some(l) => l.rate == 0 || l.burst == 0,
        None => false,
    }
}

impl ProxyConfig {
    /// Checks, route by route, that no (host, path) pair repeats, that every
    /// route has pools, every pool origins, every origin the `http` scheme and
    /// every rate limit a positive rate and burst; then the global rate limit.
    /// The first violation is returned. Whether the error pages directory
    /// exists is checked by [`ProxyConfig::validate_with_directory`].
    pub fn validate(&self) -> (r: Result<(), ConfigError>)
        ensures
            match r {
                Ok(()) => structural_validation(*self) is None,
                Err(e) => structural_validation(*self) == Some(e@),
            },
            r matches Err(ConfigError::DuplicateRouteMatch { host, path }) ==> exists|
                i: int,
                j: int,
            |
                #![trigger self.routes@[i], self.routes@[j]]
                0 <= i < j < self.routes@.len() && self.routes@[i].match_host.deep_view()
                    == self.routes@[j].match_host.deep_view()
                    && self.routes@[i].match_path.deep_view()
                    == self.routes@[j].match_path.deep_view() && host.deep_view()
                    == self.routes@[j].match_host.deep_view() && path.deep_view()
                    == self.routes@[j].match_path.deep_view(),
            (exists|i: int, j: int|
                #![trigger self.routes@[i], self.routes@[j]]
                0 <= i < j < self.routes@.len() && self.routes@[i].match_host.deep_view()
                    == self.routes@[j].match_host.deep_view()
                    && self.routes@[i].match_path.deep_view()
                    == self.routes@[j].match_path.deep_view()) ==> r is Err,
    {
        proof {
            lemma_duplicate_means_same_host_and_path(*self);
        }
        let mut i: usize = 0;
        while i < self.routes.len()
            invariant
                i <= self.routes@.len(),
                first_route_error(self.routes@, 0) == first_route_error(self.routes@, i as int),
            decreases self.routes@.len() - i,
        {
            let route = &self.routes[i];
            let mut k: usize = 0;
            while k < i
                invariant
                    i < self.routes@.len(),
                    route == self.routes@[i as int],
                    first_route_error(self.routes@, 0) == first_route_error(self.routes@, i as int),
                    k <= i,
                    forall|m: int|
                        0 <= m < k ==> match_key(self.routes@[m]) != match_key(
                            self.routes@[i as int],
                        ),
                decreases i - k,
            {
                let other = &self.routes[k];
                if opt_str_eq(&other.match_host, &route.match_host) && opt_str_eq(
                    &other.match_path,
                    &route.match_path,
                ) {
                    assert(match_key(self.routes@[k as int]) == match_key(self.routes@[i as int]));
                    assert(is_duplicate(self.routes@, i as int));
                    return Err(
                        ConfigError::DuplicateRouteMatch {
                            host: clone_opt_string(&route.match_host),
                            path: clone_opt_string(&route.match_path),
                        },
                    );
                }
                k = k + 1;
            }
            assert(!is_duplicate(self.routes@, i as int));
            let name = route_name_of(route, i);
            if route.pools.len() == 0 {
                return Err(ConfigError::RouteHasNoPools { route: name });
            }
            match check_pools(&name, route) {
                Ok(()) => {},
                Err(e) => {
                    proof {
                        lemma_pool_error_not_duplicate(name@, *route, 0);
                    }
                    return Err(e);
                },
            }
            if check_rate_limit(&route.ratelimit) {
                return Err(ConfigError::InvalidRateLimit);
            }
            i = i + 1;
        }
        if check_rate_limit(&self.ratelimit) {
            return Err(ConfigError::InvalidRateLimit);
        }
        Ok(())
    }

    /// [`ProxyConfig::validate`], then, where error pages are configured,
    /// that their directory exists (`directory_exists` reports that).
    pub fn validate_with_directory(&self, directory_exists: bool) -> (r: Result<(), ConfigError>)
        ensures
            match r {
                Ok(()) => full_validation(*self, directory_exists) is None,
                Err(e) => full_validation(*self, directory_exists) == Some(e@),
            },
    {
        match self.validate() {
            Err(e) => Err(e),
            Ok(()) => match &self.error_pages {
                Some(p) => if directory_exists {
                    Ok(())
                } else {
                    Err(ConfigError::ErrorPagesDirectoryNotFound { path: p.directory.clone() })
                },
                None => Ok(()),
            },
        }
    }
}

} // verus!
