use dashmap::DashMap;
use upstreamer::balance::weighted::{total_weight, weighted_pick};
use upstreamer::balance::{
    LoadBalancer, OriginEndpoint, OriginState, RoundRobinBalancer, WeightedLatencyBalancer,
    WeightedMetricsBalancer,
};
use upstreamer::origin_url::OriginUrl;

fn origin_url(text: &str) -> OriginUrl {
    let u = url::Url::parse(text).unwrap();
    OriginUrl {
        serialization: u.as_str().to_string(),
        scheme: u.scheme().to_string(),
        authority: u.authority().to_string(),
    }
}

fn endpoints(n: usize) -> Vec<OriginEndpoint> {
    (0..n)
        .map(|i| OriginEndpoint::new(origin_url(&format!("http://10.0.0.{}:80", i + 1)), None, None))
        .collect()
}

fn states_for(c: &[OriginEndpoint]) -> DashMap<String, OriginState> {
    let m = DashMap::new();
    for e in c {
        m.insert(e.url_key.clone(), OriginState::new());
    }
    m
}

fn mark_unhealthy(m: &DashMap<String, OriginState>, key: &str) {
    let mut s = *m.get(key).unwrap();
    s.healthy = false;
    m.insert(key.to_string(), s);
}

#[test]
fn new_state_is_healthy_and_empty() {
    let s = OriginState::new();
    assert!(s.healthy);
    assert_eq!(s.total_requests, 0);
    assert_eq!(s.total_failures, 0);
    assert_eq!(s.ewma_latency_ns, 0);
    assert_eq!(OriginState::default(), s);
}

#[test]
fn ewma_takes_one_tenth_of_each_sample() {
    let mut s = OriginState::new();
    s.record_latency(1000);
    assert_eq!(s.ewma_latency_ns, 100);
    s.record_latency(1000);
    assert_eq!(s.ewma_latency_ns, 190);
    s.ewma_latency_ns = u64::MAX;
    s.record_latency(u64::MAX);
    assert_eq!(s.ewma_latency_ns, u64::MAX);
}

#[test]
fn default_thresholds_five_failures_two_successes() {
    let mut s = OriginState::new();
    for _ in 0..4 {
        s.record_failure();
    }
    assert!(s.healthy);
    s.record_failure();
    assert!(!s.healthy);
    assert_eq!(s.consecutive_failures, 5);
    assert_eq!(s.total_failures, 5);
    s.record_success();
    assert!(!s.healthy);
    assert_eq!(s.consecutive_failures, 0);
    s.record_success();
    assert!(s.healthy);
    assert_eq!(s.consecutive_successes, 2);
}

#[test]
fn custom_thresholds_and_request_count() {
    let mut s = OriginState::new();
    s.record_failure_with_threshold(1);
    assert!(!s.healthy);
    s.record_success_with_threshold(3);
    s.record_success_with_threshold(3);
    assert!(!s.healthy);
    s.record_success_with_threshold(3);
    assert!(s.healthy);
    s.increment_requests();
    s.increment_requests();
    assert_eq!(s.total_requests, 2);
    s.total_requests = u64::MAX;
    s.increment_requests();
    assert_eq!(s.total_requests, 0);
}

#[test]
fn round_robin_goes_round() {
    let c = endpoints(3);
    let m = states_for(&c);
    let mut rr = RoundRobinBalancer::new();
    let picks: Vec<Option<usize>> = (0..4).map(|_| rr.select_origin(&c, &m)).collect();
    assert_eq!(picks, vec![Some(0), Some(1), Some(2), Some(0)]);
}

#[test]
fn round_robin_skips_unhealthy_and_unknown() {
    let c = endpoints(3);
    let m = states_for(&c);
    mark_unhealthy(&m, &c[1].url_key);
    let mut rr = RoundRobinBalancer::new();
    assert_eq!(rr.select_origin(&c, &m), Some(0));
    assert_eq!(rr.select_origin(&c, &m), Some(2));
    assert_eq!(rr.select_origin(&c, &m), Some(2));
    let empty: DashMap<String, OriginState> = DashMap::new();
    assert_eq!(rr.select_origin(&c, &empty), None);
    assert_eq!(rr.select_origin(&[], &m), None);
}

#[test]
fn weighted_pick_finds_the_share() {
    let w: Vec<u128> = vec![0, 5, 0, 3];
    assert_eq!(weighted_pick(&w, 0), 1);
    assert_eq!(weighted_pick(&w, 4), 1);
    assert_eq!(weighted_pick(&w, 5), 3);
    assert_eq!(weighted_pick(&w, 7), 3);
}

#[test]
fn weighted_never_picks_unhealthy() {
    let c = endpoints(3);
    let m = states_for(&c);
    mark_unhealthy(&m, &c[0].url_key);
    mark_unhealthy(&m, &c[2].url_key);
    let mut wl = WeightedLatencyBalancer::new();
    let mut wm = WeightedMetricsBalancer::new();
    for _ in 0..20 {
        assert_eq!(wl.select_origin(&c, &m), Some(1));
        assert_eq!(wm.select_origin(&c, &m), Some(1));
    }
    mark_unhealthy(&m, &c[1].url_key);
    assert_eq!(wl.select_origin(&c, &m), None);
    assert_eq!(wm.select_origin(&c, &m), None);
}

#[test]
fn weighted_treats_unknown_origins_as_selectable() {
    let c = endpoints(2);
    let m: DashMap<String, OriginState> = DashMap::new();
    let mut wl = WeightedLatencyBalancer::default();
    for _ in 0..20 {
        let r = wl.select_origin(&c, &m);
        assert!(r == Some(0) || r == Some(1));
    }
}

#[test]
fn endpoint_keys_follow_the_url() {
    let e = OriginEndpoint::new(origin_url("http://example.com/base/"), Some(4), Some("/hc".to_string()));
    assert_eq!(e.url_key, "http://example.com/base/");
    assert_eq!(e.url_base, "http://example.com/base");
    assert_eq!(e.weight, Some(4));
}

#[test]
fn total_weight_adds_and_saturates() {
    assert_eq!(total_weight(&vec![]), 0);
    assert_eq!(total_weight(&vec![0, 0]), 0);
    assert_eq!(total_weight(&vec![3, 0, 4]), 7);
    assert_eq!(total_weight(&vec![u128::MAX, 1, 5]), u128::MAX);
}
