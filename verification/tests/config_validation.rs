use upstreamer::config::{
    default_active_enabled, default_active_interval, default_active_timeout,
    default_failure_threshold, default_healthy_threshold, default_lb_algorithm, default_listen,
    default_metrics_addr, default_observation_window, default_passive_enabled,
    default_poll_interval, default_success_threshold, default_unhealthy_threshold,
    ActiveHealthConfig, ConfigError, ErrorPage, ErrorPagesConfig, HealthConfig, LbAlgorithm,
    OriginConfig, PassiveHealthConfig, PoolRef, ProxyConfig, RateLimitConfig, RouteConfig,
    TimeSpan,
};
use upstreamer::origin_url::OriginUrl;

fn origin_url(text: &str) -> OriginUrl {
    let u = url::Url::parse(text).unwrap();
    OriginUrl {
        serialization: u.as_str().to_string(),
        scheme: u.scheme().to_string(),
        authority: u.authority().to_string(),
    }
}

fn origin(text: &str) -> OriginConfig {
    OriginConfig { url: origin_url(text), weight: None, health_check_path: None }
}

fn route(host: Option<&str>, path: Option<&str>, pools: Vec<PoolRef>) -> RouteConfig {
    RouteConfig {
        match_host: host.map(|h| h.to_string()),
        match_path: path.map(|p| p.to_string()),
        pools,
        lb_algorithm: LbAlgorithm::RoundRobin,
        ratelimit: None,
    }
}

fn pool(name: &str, origins: Vec<OriginConfig>) -> PoolRef {
    PoolRef { name: name.to_string(), origins }
}

fn config(routes: Vec<RouteConfig>) -> ProxyConfig {
    ProxyConfig {
        listen: default_listen(),
        metrics_addr: default_metrics_addr(),
        routes,
        ratelimit: None,
        health: HealthConfig::default(),
        kubernetes: None,
        error_pages: None,
    }
}

#[test]
fn test_default_listen() {
    let addr = default_listen();
    assert_eq!(addr.to_string(), "0.0.0.0:8080");
}

#[test]
fn test_default_lb_algorithm() {
    let algo = default_lb_algorithm();
    assert!(matches!(algo, LbAlgorithm::RoundRobin));
}

#[test]
fn test_validate_empty_route() {
    let config = ProxyConfig {
        listen: default_listen(),
        metrics_addr: default_metrics_addr(),
        routes: vec![RouteConfig {
            match_host: None,
            match_path: Some("/".to_string()),
            pools: vec![],
            lb_algorithm: LbAlgorithm::RoundRobin,
            ratelimit: None,
        }],
        ratelimit: None,
        health: HealthConfig::default(),
        kubernetes: None,
        error_pages: None,
    };

    let result = config.validate();
    assert!(result.is_err());
}

#[test]
fn defaults_match_the_documented_values() {
    assert_eq!(default_metrics_addr(), "0.0.0.0:9090");
    assert!(!default_active_enabled());
    assert_eq!(default_active_interval(), TimeSpan::from_secs(10));
    assert_eq!(default_active_timeout(), TimeSpan::from_secs(5));
    assert_eq!(default_healthy_threshold(), 2);
    assert_eq!(default_unhealthy_threshold(), 3);
    assert!(!default_passive_enabled());
    assert_eq!(default_failure_threshold(), 5);
    assert_eq!(default_success_threshold(), 2);
    assert_eq!(default_observation_window(), TimeSpan::from_secs(60));
    assert_eq!(default_poll_interval(), TimeSpan::from_secs(30));
    let h = HealthConfig::default();
    assert_eq!(
        h.active,
        ActiveHealthConfig {
            enabled: false,
            interval: TimeSpan::from_secs(10),
            timeout: TimeSpan::from_secs(5),
            healthy_threshold: 2,
            unhealthy_threshold: 3
        }
    );
    assert_eq!(
        h.passive,
        PassiveHealthConfig {
            enabled: false,
            failure_threshold: 5,
            success_threshold: 2,
            observation_window: TimeSpan::from_secs(60)
        }
    );
}

#[test]
fn valid_config_passes() {
    let c = config(vec![route(None, Some("/"), vec![pool("backend", vec![origin("http://127.0.0.1:3000")])])]);
    assert!(c.validate().is_ok());
    assert!(c.validate_with_directory(false).is_ok());
}

#[test]
fn route_without_pools_is_named_by_path() {
    let c = config(vec![route(None, Some("/api"), vec![])]);
    match c.validate() {
        Err(ConfigError::RouteHasNoPools { route }) => assert_eq!(route, "/api"),
        other => panic!("unexpected {:?}", other),
    }
}

#[test]
fn route_without_host_or_path_is_named_by_index() {
    let ok = route(Some("a.com"), None, vec![pool("p", vec![origin("http://10.0.0.1")])]);
    let c = config(vec![ok, route(None, None, vec![])]);
    match c.validate() {
        Err(ConfigError::RouteHasNoPools { route }) => assert_eq!(route, "index-1"),
        other => panic!("unexpected {:?}", other),
    }
}

#[test]
fn pool_without_origins_is_refused() {
    let c = config(vec![route(Some("example.com"), None, vec![pool("empty", vec![])])]);
    match c.validate() {
        Err(ConfigError::PoolHasNoOrigins { route, pool }) => {
            assert_eq!(route, "example.com");
            assert_eq!(pool, "empty");
        }
        other => panic!("unexpected {:?}", other),
    }
}

#[test]
fn https_origin_is_refused() {
    let c = config(vec![route(None, Some("/"), vec![pool("p", vec![origin("https://10.0.0.1:8443")])])]);
    match c.validate() {
        Err(ConfigError::HttpsNotSupported { route, pool, origin }) => {
            assert_eq!(route, "/");
            assert_eq!(pool, "p");
            assert_eq!(origin, "https://10.0.0.1:8443/");
        }
        other => panic!("unexpected {:?}", other),
    }
}

#[test]
fn other_scheme_is_an_invalid_origin() {
    let c = config(vec![route(None, Some("/"), vec![pool("p", vec![origin("ftp://files.example")])])]);
    match c.validate() {
        Err(ConfigError::InvalidOriginUrl { route, pool, origin, reason }) => {
            assert_eq!(route, "/");
            assert_eq!(pool, "p");
            assert_eq!(origin, "ftp://files.example/");
            assert_eq!(reason, "invalid scheme 'ftp'");
        }
        other => panic!("unexpected {:?}", other),
    }
}

#[test]
fn zero_rate_or_burst_is_refused() {
    let mut r = route(None, Some("/"), vec![pool("p", vec![origin("http://10.0.0.1")])]);
    r.ratelimit = Some(RateLimitConfig { rate: 0, burst: 5 });
    let c = config(vec![r]);
    assert!(matches!(c.validate(), Err(ConfigError::InvalidRateLimit)));

    let mut g = config(vec![route(None, Some("/"), vec![pool("p", vec![origin("http://10.0.0.1")])])]);
    g.ratelimit = Some(RateLimitConfig { rate: 10, burst: 0 });
    assert!(matches!(g.validate(), Err(ConfigError::InvalidRateLimit)));
}

#[test]
fn duplicate_match_is_refused() {
    let a = route(Some("x.com"), Some("/a"), vec![pool("p", vec![origin("http://10.0.0.1")])]);
    let b = route(Some("x.com"), Some("/a"), vec![pool("q", vec![origin("http://10.0.0.2")])]);
    match config(vec![a, b]).validate() {
        Err(ConfigError::DuplicateRouteMatch { host, path }) => {
            assert_eq!(host.as_deref(), Some("x.com"));
            assert_eq!(path.as_deref(), Some("/a"));
        }
        other => panic!("unexpected {:?}", other),
    }
}

#[test]
fn missing_error_pages_directory_is_refused() {
    let mut c = config(vec![route(None, Some("/"), vec![pool("p", vec![origin("http://10.0.0.1")])])]);
    c.error_pages = Some(ErrorPagesConfig {
        directory: "/no/such/dir".to_string(),
        pages: vec![ErrorPage { code: 404, file: "404.html".to_string() }],
    });
    assert!(c.validate().is_ok());
    assert!(c.validate_with_directory(true).is_ok());
    match c.validate_with_directory(false) {
        Err(ConfigError::ErrorPagesDirectoryNotFound { path }) => assert_eq!(path, "/no/such/dir"),
        other => panic!("unexpected {:?}", other),
    }
}

#[test]
fn first_error_in_order_wins() {
    let bad_pool = route(Some("a.com"), None, vec![pool("empty", vec![])]);
    let no_pools = route(Some("b.com"), None, vec![]);
    let c = config(vec![bad_pool, no_pools]);
    assert!(matches!(c.validate(), Err(ConfigError::PoolHasNoOrigins { .. })));
}

#[test]
fn config_error_messages() {
    let s = |t: &str| t.to_string();
    assert_eq!(
        ConfigError::RouteHasNoPools { route: s("api") }.message(),
        "route 'api' has no pools configured"
    );
    assert_eq!(
        ConfigError::PoolHasNoOrigins { route: s("api"), pool: s("main") }.message(),
        "route 'api' pool 'main' has no origins"
    );
    assert_eq!(
        ConfigError::InvalidOriginUrl {
            route: s("api"),
            pool: s("main"),
            origin: s("::bad"),
            reason: s("relative URL without a base"),
        }
        .message(),
        "route 'api' pool 'main' origin '::bad' has invalid URL: relative URL without a base"
    );
    assert_eq!(
        ConfigError::HttpsNotSupported {
            route: s("api"),
            pool: s("main"),
            origin: s("https://a.example/"),
        }
        .message(),
        "route 'api' pool 'main' origin 'https://a.example/' uses HTTPS scheme (not supported in v1)"
    );
    assert_eq!(
        ConfigError::InvalidRateLimit.message(),
        "rate limit must have rate > 0 and burst > 0"
    );
    assert_eq!(
        ConfigError::DuplicateRouteMatch { host: Some(s("a.example")), path: None }.message(),
        "duplicate route match: host 'a.example' path '*'"
    );
    assert_eq!(
        ConfigError::DuplicateRouteMatch { host: None, path: Some(s("/api")) }.message(),
        "duplicate route match: host '*' path '/api'"
    );
    assert_eq!(
        ConfigError::InvalidSocketAddr { addr: s("nowhere"), reason: s("invalid socket address syntax") }
            .message(),
        "invalid socket address 'nowhere': invalid socket address syntax"
    );
    assert_eq!(
        ConfigError::ErrorPagesDirectoryNotFound { path: s("/srv/pages") }.message(),
        "error pages directory '/srv/pages' does not exist"
    );
}
