use upstreamer::config::{
    ErrorPage, ErrorPagesConfig, HealthConfig, LbAlgorithm, OriginConfig, PoolRef, ProxyConfig,
    RateLimitConfig, RouteConfig,
};
use upstreamer::discovery::{K8sOrigins, ServiceInfo, ServiceSpecInfo};
use upstreamer::errors::{get_error_response, ErrorPageStore};
use upstreamer::origin_url::OriginUrl;
use upstreamer::balance::OriginState;
use upstreamer::ratelimit::ClientIp;
use upstreamer::report::{upstreams_body, upstreams_report, JsonScalar};
use upstreamer::text::header_value_is_text;
use upstreamer::state::{
    discovery_enabled, health_endpoint, origin_uri, probe_passed, probe_targets, probing_enabled,
    refusal, triggers_reload, AppState,
    FileChange, HealthEndpoint, Outcome, RequestDecision,
};

fn origin_url(text: &str) -> OriginUrl {
    let u = url::Url::parse(text).unwrap();
    OriginUrl {
        serialization: u.as_str().to_string(),
        scheme: u.scheme().to_string(),
        authority: u.authority().to_string(),
    }
}

fn origin(text: &str) -> OriginConfig {
    OriginConfig { url: origin_url(text), weight: None, health_check_path: None }
}

fn base_config() -> ProxyConfig {
    ProxyConfig {
        listen: "0.0.0.0:8080".to_string(),
        metrics_addr: "0.0.0.0:9090".to_string(),
        routes: vec![
            RouteConfig {
                match_host: Some("api.example.com".to_string()),
                match_path: None,
                pools: vec![PoolRef {
                    name: "api".to_string(),
                    origins: vec![origin("http://127.0.0.1:3001"), origin("http://127.0.0.1:3002")],
                }],
                lb_algorithm: LbAlgorithm::RoundRobin,
                ratelimit: Some(RateLimitConfig { rate: 1, burst: 1 }),
            },
            RouteConfig {
                match_host: None,
                match_path: Some("/".to_string()),
                pools: vec![PoolRef { name: "web".to_string(), origins: vec![origin("http://127.0.0.1:4000")] }],
                lb_algorithm: LbAlgorithm::RoundRobin,
                ratelimit: None,
            },
        ],
        ratelimit: None,
        health: HealthConfig::default(),
        kubernetes: None,
        error_pages: None,
    }
}

fn ip(n: u32) -> ClientIp {
    ClientIp::V4(n)
}

fn state_of(s: &AppState, key: &str) -> Option<upstreamer::balance::OriginState> {
    s.origin_snapshot().into_iter().find(|(k, _)| k == key).map(|(_, v)| v)
}

#[test]
fn new_state_tracks_every_configured_origin() {
    let s = AppState::new(base_config(), None);
    let (total, healthy) = s.origin_counts();
    assert_eq!(total, 3);
    assert_eq!(healthy, 3);
    assert!(state_of(&s, "http://127.0.0.1:3001/").is_some());
    assert!(state_of(&s, "http://127.0.0.1:4000/").is_some());
    assert_eq!(s.router.routes.len(), 2);
    assert!(s.ratelimiter.is_none());
}

#[test]
fn route_key_uses_star_for_absent_parts() {
    assert_eq!(AppState::route_key(&Some("h".to_string()), &None), "h:*");
    assert_eq!(AppState::route_key(&None, &Some("/p".to_string())), "*:/p");
}

#[test]
fn requests_are_routed_limited_and_balanced() {
    let mut s = AppState::new(base_config(), None);
    assert_eq!(
        s.route_request("api.example.com", "/x", ip(1)),
        RequestDecision::Forward { route: 0, origin: 0 }
    );
    // The route allows one request per second per client.
    assert_eq!(s.route_request("api.example.com", "/x", ip(1)), RequestDecision::RateLimited { route: 0 });
    // Another client has its own bucket, and round robin moved on.
    assert_eq!(
        s.route_request("api.example.com", "/x", ip(2)),
        RequestDecision::Forward { route: 0, origin: 1 }
    );
    // The catch-all route has no limit.
    for _ in 0..5 {
        assert_eq!(s.route_request("other.com", "/page", ip(1)), RequestDecision::Forward { route: 1, origin: 0 });
    }
}

#[test]
fn no_route_means_not_found() {
    let mut c = base_config();
    c.routes.pop();
    let mut s = AppState::new(c, None);
    assert_eq!(s.route_request("other.com", "/", ip(1)), RequestDecision::NotFound);
}

#[test]
fn global_limit_applies_to_routes_without_their_own() {
    let mut c = base_config();
    c.ratelimit = Some(RateLimitConfig { rate: 1, burst: 2 });
    let mut s = AppState::new(c, None);
    assert!(matches!(s.route_request("a.com", "/", ip(9)), RequestDecision::Forward { .. }));
    assert!(matches!(s.route_request("a.com", "/", ip(9)), RequestDecision::Forward { .. }));
    assert_eq!(s.route_request("a.com", "/", ip(9)), RequestDecision::RateLimited { route: 1 });
}

#[test]
fn failures_mark_an_origin_unhealthy_and_it_is_skipped() {
    let mut c = base_config();
    c.health.passive.enabled = true;
    let mut s = AppState::new(c, None);
    let key = "http://127.0.0.1:4000/";
    for _ in 0..5 {
        s.record_outcome(key, 1_000, Outcome::TransportError);
    }
    let st = state_of(&s, key).unwrap();
    assert!(!st.healthy);
    assert_eq!(st.total_requests, 5);
    assert_eq!(st.total_failures, 5);
    assert_eq!(s.route_request("other.com", "/", ip(1)), RequestDecision::NoHealthyOrigin { route: 1 });
    s.record_outcome(key, 1_000, Outcome::from_status(200));
    s.record_outcome(key, 1_000, Outcome::from_status(404));
    assert!(state_of(&s, key).unwrap().healthy);
    assert_eq!(s.origin_counts(), (3, 3));
}

#[test]
fn passive_tracking_off_only_counts_and_times() {
    let mut s = AppState::new(base_config(), None);
    let key = "http://127.0.0.1:4000/";
    for _ in 0..6 {
        s.record_outcome(key, 1_000, Outcome::from_status(503));
    }
    let st = state_of(&s, key).unwrap();
    assert!(st.healthy);
    assert_eq!(st.total_requests, 6);
    assert_eq!(st.total_failures, 0);
    assert_eq!(st.consecutive_failures, 0);
    assert!(st.ewma_latency_ns > 0);
}

#[test]
fn passive_thresholds_are_used_when_enabled() {
    let mut c = base_config();
    c.health.passive.enabled = true;
    c.health.passive.failure_threshold = 1;
    let mut s = AppState::new(c, None);
    let key = "http://127.0.0.1:4000/";
    s.record_outcome(key, 2_000, Outcome::from_status(503));
    let st = state_of(&s, key).unwrap();
    assert!(!st.healthy);
    assert_eq!(st.ewma_latency_ns, 200);
    // Unknown origins are ignored.
    s.record_outcome("http://nowhere/", 1, Outcome::ServerError);
    assert!(state_of(&s, "http://nowhere/").is_none());
}

#[test]
fn probes_use_the_active_thresholds() {
    let mut s = AppState::new(base_config(), None);
    let key = "http://127.0.0.1:3001/";
    s.record_probe(key, false);
    s.record_probe(key, false);
    assert!(state_of(&s, key).unwrap().healthy);
    s.record_probe(key, false);
    assert!(!state_of(&s, key).unwrap().healthy);
    s.record_probe(key, true);
    s.record_probe(key, true);
    assert!(state_of(&s, key).unwrap().healthy);
}

#[test]
fn outcome_and_probe_classification() {
    assert_eq!(Outcome::from_status(500), Outcome::ServerError);
    assert_eq!(Outcome::from_status(599), Outcome::ServerError);
    assert_eq!(Outcome::from_status(499), Outcome::Success);
    assert_eq!(Outcome::from_status(600), Outcome::Success);
    assert!(probe_passed(Some(200)));
    assert!(probe_passed(Some(299)));
    assert!(!probe_passed(Some(301)));
    assert!(!probe_passed(None));
}

#[test]
fn refused_reload_keeps_everything() {
    let mut s = AppState::new(base_config(), None);
    let mut bad = base_config();
    bad.routes[1].pools.clear();
    assert!(s.reload(bad, true).is_err());
    assert_eq!(s.config.routes[1].pools.len(), 1);
    assert_eq!(s.route_request("other.com", "/", ip(1)), RequestDecision::Forward { route: 1, origin: 0 });
}

#[test]
fn accepted_reload_keeps_states_and_adds_new_origins() {
    let mut s = AppState::new(base_config(), None);
    let kept = "http://127.0.0.1:4000/";
    for _ in 0..3 {
        s.record_probe(kept, false);
    }
    let mut next = base_config();
    next.routes[1].pools[0].origins.push(origin("http://127.0.0.1:4001"));
    next.routes[0].ratelimit = None;
    assert!(s.reload(next, true).is_ok());
    assert!(!state_of(&s, kept).unwrap().healthy);
    assert!(state_of(&s, "http://127.0.0.1:4001/").unwrap().healthy);
    assert_eq!(s.origin_counts(), (4, 3));
    // The route has no limiter any more.
    for _ in 0..3 {
        assert!(matches!(s.route_request("api.example.com", "/", ip(1)), RequestDecision::Forward { .. }));
    }
}

#[test]
fn discovered_service_joins_its_pool() {
    let mut s = AppState::new(base_config(), None);
    let mut k8s = K8sOrigins::new();
    let svc = ServiceInfo {
        name: Some("web-svc".to_string()),
        annotations: Some(vec![("upstreamer.ora.ooo/pool".to_string(), "web".to_string())]),
        spec: Some(ServiceSpecInfo { cluster_ip: Some("10.96.0.7".to_string()), ports: Some(vec![8080]) }),
    };
    assert!(s.apply_service(&mut k8s, &svc));
    assert_eq!(s.router.routes[1].candidates().len(), 2);
    assert_eq!(s.router.routes[1].candidates()[1].url_key, "http://10.96.0.7:8080/");
    assert!(state_of(&s, "http://10.96.0.7:8080/").is_some());
    let nameless = ServiceInfo { name: None, annotations: None, spec: None };
    assert!(!s.apply_service(&mut k8s, &nameless));
}

#[test]
fn stale_cleanup_keeps_recent_buckets() {
    let mut c = base_config();
    c.ratelimit = Some(RateLimitConfig { rate: 5, burst: 5 });
    let mut s = AppState::new(c, None);
    s.route_request("api.example.com", "/", ip(1));
    s.route_request("other.com", "/", ip(1));
    s.cleanup_stale(300_000_000_000);
    assert_eq!(s.ratelimiter.as_ref().unwrap().bucket_count(), 1);
}

#[test]
fn probe_targets_follow_the_configuration() {
    let mut c = base_config();
    c.routes[1].pools[0].origins[0].health_check_path = Some("/healthz".to_string());
    let t = probe_targets(&c);
    assert_eq!(t.len(), 3);
    assert_eq!(t[0].key, "http://127.0.0.1:3001/");
    assert_eq!(t[0].url, "http://127.0.0.1:3001/");
    assert_eq!(t[2].key, "http://127.0.0.1:4000/");
    assert_eq!(t[2].url, "http://127.0.0.1:4000/healthz");
}

#[test]
fn health_paths_and_uris() {
    assert_eq!(health_endpoint("/metrics"), HealthEndpoint::Metrics);
    assert_eq!(health_endpoint("/healthz"), HealthEndpoint::Healthz);
    assert_eq!(health_endpoint("/healthz/upstreams"), HealthEndpoint::Upstreams);
    assert_eq!(health_endpoint("/healthz/"), HealthEndpoint::NotFound);
    let s = AppState::new(base_config(), None);
    let e = &s.router.routes[0].candidates()[0];
    assert_eq!(origin_uri(e, "/a?b=1"), "http://127.0.0.1:3001/a?b=1");
}

#[test]
fn reload_follows_creation_and_modification() {
    assert!(triggers_reload(FileChange::Create));
    assert!(triggers_reload(FileChange::Modify));
    assert!(!triggers_reload(FileChange::Remove));
    assert!(!triggers_reload(FileChange::Access));
    assert!(!triggers_reload(FileChange::Other));
}

#[test]
fn error_pages_replace_default_bodies() {
    let cfg = ErrorPagesConfig {
        directory: "/pages".to_string(),
        pages: vec![
            ErrorPage { code: 404, file: "404.html".to_string() },
            ErrorPage { code: 502, file: "502.html".to_string() },
        ],
    };
    let store = ErrorPageStore::from_config(&cfg, vec![Some(b"<h1>gone</h1>".to_vec()), None]);
    assert_eq!(store.get(404), Some(b"<h1>gone</h1>".to_vec()));
    assert_eq!(store.get(502), None);
    let with = Some(store);
    let r = get_error_response(&with, 404, "Not Found");
    assert!(r.html);
    assert_eq!(r.status, 404);
    assert_eq!(r.body, b"<h1>gone</h1>".to_vec());
    let r = get_error_response(&with, 502, "Bad Gateway");
    assert!(!r.html);
    assert_eq!(r.body, b"Bad Gateway".to_vec());
    let r = get_error_response(&None, 429, "Too Many Requests");
    assert_eq!(r.body, b"Too Many Requests".to_vec());
}

#[test]
fn refusals_and_gates() {
    assert_eq!(refusal(RequestDecision::NotFound), Some((404, "Not Found")));
    assert_eq!(refusal(RequestDecision::RateLimited { route: 0 }), Some((429, "Too Many Requests")));
    assert_eq!(
        refusal(RequestDecision::NoHealthyOrigin { route: 1 }),
        Some((502, "No healthy origins available"))
    );
    assert_eq!(refusal(RequestDecision::Forward { route: 0, origin: 0 }), None);
    let mut c = base_config();
    assert!(!probing_enabled(&c));
    assert!(!discovery_enabled(&c));
    c.health.active.enabled = true;
    c.kubernetes = Some(upstreamer::config::KubernetesConfig {
        namespace: None,
        label_selector: None,
        poll_interval: upstreamer::config::TimeSpan::from_secs(30),
    });
    assert!(probing_enabled(&c));
    assert!(discovery_enabled(&c));
}

#[test]
fn upstreams_report_lists_each_origin_with_its_fields() {
    let state = OriginState {
        ewma_latency_ns: 1500,
        consecutive_successes: 0,
        consecutive_failures: 2,
        total_requests: 7,
        total_failures: 3,
        healthy: false,
    };
    let snapshot = vec![("http://10.0.0.1:80/".to_string(), state)];
    let report = upstreams_report(&snapshot);
    assert_eq!(report.len(), 1);
    assert_eq!(report[0].0, "http://10.0.0.1:80/");
    assert_eq!(
        report[0].1,
        vec![
            ("healthy".to_string(), JsonScalar::Bool(false)),
            ("consecutive_successes".to_string(), JsonScalar::Number(0)),
            ("consecutive_failures".to_string(), JsonScalar::Number(2)),
            ("total_requests".to_string(), JsonScalar::Number(7)),
            ("total_failures".to_string(), JsonScalar::Number(3)),
            ("ewma_latency_ns".to_string(), JsonScalar::Number(1500)),
        ]
    );
    assert_eq!(
        upstreams_body(&snapshot),
        "{\"origins\":{\"http://10.0.0.1:80/\":{\"consecutive_failures\":2,\
\"consecutive_successes\":0,\"ewma_latency_ns\":1500,\"healthy\":false,\
\"total_failures\":3,\"total_requests\":7}}}"
    );
}

#[test]
fn upstreams_body_of_a_fresh_state() {
    let s = AppState::new(base_config(), None);
    let body = upstreams_body(&s.origin_snapshot());
    let doc: serde_json::Value = serde_json::from_str(&body).unwrap();
    let origins = doc["origins"].as_object().unwrap();
    assert_eq!(origins.len(), 3);
    let one = &origins["http://127.0.0.1:3001/"];
    assert_eq!(one["healthy"], serde_json::Value::Bool(true));
    assert_eq!(one["total_requests"], serde_json::Value::from(0u64));
    assert_eq!(upstreams_body(&Vec::new()), "{\"origins\":{}}");
}

#[test]
fn origin_counts_never_exceed_the_total() {
    let mut c = base_config();
    c.health.passive.enabled = true;
    let mut s = AppState::new(c, None);
    for _ in 0..5 {
        s.record_outcome("http://127.0.0.1:3001/", 1_000, Outcome::TransportError);
        s.record_outcome("http://127.0.0.1:4000/", 1_000, Outcome::TransportError);
    }
    let (total, healthy) = s.origin_counts();
    assert_eq!(total, 3);
    assert_eq!(healthy, 1);
    assert!(healthy <= total);
}

#[test]
fn host_header_bytes_read_as_text() {
    assert!(header_value_is_text(b"example.com:8080"));
    assert!(header_value_is_text(b"a\tb"));
    assert!(header_value_is_text(b""));
    assert!(!header_value_is_text(b"caf\xc3\xa9"));
    assert!(!header_value_is_text(b"a\x7fb"));
    assert!(!header_value_is_text(b"line\nbreak"));
}
