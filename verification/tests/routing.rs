use upstreamer::config::{
    HealthConfig, LbAlgorithm, OriginConfig, PoolRef, ProxyConfig, RouteConfig,
};
use upstreamer::discovery::K8sOrigins;
use upstreamer::origin_url::OriginUrl;
use upstreamer::route::Router;

fn origin_url(text: &str) -> OriginUrl {
    let u = url::Url::parse(text).unwrap();
    OriginUrl {
        serialization: u.as_str().to_string(),
        scheme: u.scheme().to_string(),
        authority: u.authority().to_string(),
    }
}

fn two_route_config() -> ProxyConfig {
    ProxyConfig {
        listen: "0.0.0.0:8080".to_string(),
        metrics_addr: "0.0.0.0:9090".to_string(),
        routes: vec![
            RouteConfig {
                match_host: Some("example.com".to_string()),
                match_path: Some("/api".to_string()),
                pools: vec![PoolRef { name: "pool1".to_string(), origins: vec![] }],
                lb_algorithm: LbAlgorithm::RoundRobin,
                ratelimit: None,
            },
            RouteConfig {
                match_host: Some("*.test.com".to_string()),
                match_path: None,
                pools: vec![PoolRef { name: "pool2".to_string(), origins: vec![] }],
                lb_algorithm: LbAlgorithm::RoundRobin,
                ratelimit: None,
            },
        ],
        ratelimit: None,
        health: HealthConfig::default(),
        kubernetes: None,
        error_pages: None,
    }
}

#[test]
fn test_match_glob_exact() {
    let router = Router { routes: vec![] };
    assert!(router.match_glob("example.com", "example.com"));
    assert!(!router.match_glob("example.com", "other.com"));
}

#[test]
fn test_match_glob_wildcard() {
    let router = Router { routes: vec![] };
    assert!(router.match_glob("example.com", "*"));
    assert!(router.match_glob("anything", "*"));
}

#[test]
fn test_match_glob_pattern() {
    let router = Router { routes: vec![] };
    assert!(router.match_glob("foo.example.com", "*.example.com"));
    assert!(router.match_glob("bar.example.com", "*.example.com"));
    assert!(!router.match_glob("example.com", "*.example.com"));
    assert!(!router.match_glob("foo.other.com", "*.example.com"));
}

#[test]
fn test_match_route() {
    let config = two_route_config();
    let router = Router::from_config(&config);

    assert!(router.match_route("example.com", "/api/test").is_some());
    assert!(router.match_route("example.com", "/api").is_some());
    assert!(router.match_route("example.com", "/other").is_none());
    assert!(router.match_route("foo.test.com", "/anything").is_some());
    assert!(router.match_route("other.com", "/api").is_none());
}

#[test]
fn glob_with_inner_star_and_many_stars() {
    let router = Router { routes: vec![] };
    assert!(router.match_glob("api-1.internal", "api-*.internal"));
    assert!(!router.match_glob("web-1.internal", "api-*.internal"));
    // Two stars: only the identical text matches.
    assert!(router.match_glob("*.*", "*.*"));
    assert!(!router.match_glob("a.b", "*.*"));
    // The parts around the star are checked separately, so they may overlap.
    assert!(router.match_glob("ab", "ab*b"));
}

#[test]
fn first_matching_route_wins() {
    let mut config = two_route_config();
    config.routes.push(RouteConfig {
        match_host: None,
        match_path: None,
        pools: vec![PoolRef { name: "fallback".to_string(), origins: vec![] }],
        lb_algorithm: LbAlgorithm::WeightedLatency,
        ratelimit: None,
    });
    let router = Router::from_config(&config);
    assert_eq!(router.match_route_index("example.com", "/api/x"), Some(0));
    assert_eq!(router.match_route_index("a.test.com", "/api/x"), Some(1));
    assert_eq!(router.match_route_index("other.com", "/"), Some(2));
}

#[test]
fn route_entries_carry_keys_and_candidates() {
    let mut config = two_route_config();
    config.routes[0].pools[0].origins.push(OriginConfig {
        url: origin_url("http://127.0.0.1:3000"),
        weight: Some(3),
        health_check_path: Some("/health".to_string()),
    });
    let router = Router::from_config(&config);
    assert_eq!(router.routes[0].key(), "example.com:/api");
    assert_eq!(router.routes[1].key(), "*.test.com:*");
    let c = router.routes[0].candidates();
    assert_eq!(c.len(), 1);
    assert_eq!(c[0].url_key, "http://127.0.0.1:3000/");
    assert_eq!(c[0].url_base, "http://127.0.0.1:3000");
    assert_eq!(c[0].weight, Some(3));
    assert_eq!(c[0].health_check_path.as_deref(), Some("/health"));
    assert!(router.routes[1].candidates().is_empty());
}

#[test]
fn discovered_origins_follow_the_configured_ones() {
    let mut config = two_route_config();
    config.routes[1].pools[0].origins.push(OriginConfig {
        url: origin_url("http://127.0.0.1:4000"),
        weight: Some(2),
        health_check_path: None,
    });
    let mut k8s = K8sOrigins::new();
    k8s.set_pool("pool2".to_string(), origin_url("http://10.1.2.3:8080"));
    let router = Router::from_config_with_k8s(&config, &k8s);
    let c = router.routes[1].candidates();
    assert_eq!(c.len(), 2);
    assert_eq!(c[0].url_key, "http://127.0.0.1:4000/");
    assert_eq!(c[0].weight, Some(2));
    assert_eq!(c[1].url_key, "http://10.1.2.3:8080/");
    assert_eq!(c[1].weight, None);
    assert!(router.routes[0].candidates().is_empty());
}

#[test]
fn no_discovered_pool_means_the_same_routes() {
    let mut config = two_route_config();
    config.routes[0].pools[0].origins.push(OriginConfig {
        url: origin_url("http://127.0.0.1:3000"),
        weight: Some(2),
        health_check_path: None,
    });
    let mut k8s = K8sOrigins::new();
    k8s.set_pool("unused".to_string(), origin_url("http://10.9.9.9:80"));
    let plain = Router::from_config(&config);
    let with_k8s = Router::from_config_with_k8s(&config, &k8s);
    assert_eq!(plain.routes.len(), with_k8s.routes.len());
    for (a, b) in plain.routes.iter().zip(with_k8s.routes.iter()) {
        assert_eq!(a.key(), b.key());
        let ka: Vec<&str> = a.candidates().iter().map(|c| c.url_key.as_str()).collect();
        let kb: Vec<&str> = b.candidates().iter().map(|c| c.url_key.as_str()).collect();
        assert_eq!(ka, kb);
    }
    for (h, p) in [("example.com", "/api/x"), ("a.test.com", "/"), ("other.com", "/")] {
        assert_eq!(plain.match_route_index(h, p), with_k8s.match_route_index(h, p));
    }
}
