use upstreamer::config::{
    ErrorPage, ErrorPagesConfig, HealthConfig, KubernetesConfig, LbAlgorithm, OriginConfig,
    PoolRef, ProxyConfig, RateLimitConfig, RouteConfig, TimeSpan,
};
use upstreamer::discovery::{
    origin_from_parsed, service_to_origin, service_url, K8sOrigins, ServiceInfo, ServiceSpecInfo,
};
use upstreamer::origin_url::OriginUrl;
use upstreamer::procstat::{cpu_times, is_space, resident_pages, split_fields};
use upstreamer::cli::{config_summary, dim, green};
use upstreamer::text::{decimal_string, parse_u16, parse_u64, trim_end_slashes};

fn origin_url(text: &str) -> OriginUrl {
    let u = url::Url::parse(text).unwrap();
    OriginUrl {
        serialization: u.as_str().to_string(),
        scheme: u.scheme().to_string(),
        authority: u.authority().to_string(),
    }
}

fn service(name: Option<&str>, anns: Vec<(&str, &str)>, ip: Option<&str>, ports: Option<Vec<i32>>) -> ServiceInfo {
    ServiceInfo {
        name: name.map(|n| n.to_string()),
        annotations: Some(anns.into_iter().map(|(k, v)| (k.to_string(), v.to_string())).collect()),
        spec: Some(ServiceSpecInfo { cluster_ip: ip.map(|i| i.to_string()), ports }),
    }
}

#[test]
fn service_url_prefers_the_port_annotation() {
    let s = service(Some("svc"), vec![("upstreamer.ora.ooo/port", "9000")], Some("10.0.0.5"), Some(vec![80]));
    assert_eq!(service_url(&s).as_deref(), Some("http://10.0.0.5:9000"));
    let s = service(Some("svc"), vec![], Some("10.0.0.5"), Some(vec![80, 81]));
    assert_eq!(service_url(&s).as_deref(), Some("http://10.0.0.5:80"));
}

#[test]
fn service_without_usable_port_or_ip_stands_for_nothing() {
    let s = service(Some("svc"), vec![("upstreamer.ora.ooo/port", "http")], Some("10.0.0.5"), Some(vec![80]));
    assert_eq!(service_url(&s), None);
    let s = service(Some("svc"), vec![], Some("10.0.0.5"), Some(vec![70000]));
    assert_eq!(service_url(&s), None);
    let s = service(Some("svc"), vec![], None, Some(vec![80]));
    assert_eq!(service_url(&s), None);
    let s = service(None, vec![], Some("10.0.0.5"), Some(vec![80]));
    assert_eq!(service_url(&s), None);
    assert!(service_to_origin(&s).is_none());
}

#[test]
fn pool_comes_from_annotation_or_name() {
    let s = service(Some("svc"), vec![("upstreamer.ora.ooo/pool", "backend")], Some("10.0.0.5"), Some(vec![80]));
    let (pool, url) = service_to_origin(&s).unwrap();
    assert_eq!(pool, "backend");
    assert_eq!(url.serialization, "http://10.0.0.5/");
    let s = service(Some("svc"), vec![], Some("10.0.0.6"), Some(vec![8080]));
    let (pool, url) = service_to_origin(&s).unwrap();
    assert_eq!(pool, "svc");
    assert_eq!(url.serialization, "http://10.0.0.6:8080/");
    assert_eq!(url.authority, "10.0.0.6:8080");
}

#[test]
fn parsed_url_is_paired_with_the_pool() {
    let s = service(Some("svc"), vec![("upstreamer.ora.ooo/pool", "p1")], Some("10.0.0.5"), Some(vec![80]));
    assert!(origin_from_parsed(&s, None).is_none());
    let (pool, url) = origin_from_parsed(&s, Some(origin_url("http://10.0.0.5:80"))).unwrap();
    assert_eq!(pool, "p1");
    assert_eq!(url.serialization, "http://10.0.0.5/");
    let bad = service(Some("svc"), vec![], Some("not an ip"), Some(vec![80]));
    assert!(service_to_origin(&bad).is_none());
}

#[test]
fn k8s_pools_are_replaced_per_event() {
    let mut k = K8sOrigins::new();
    assert_eq!(k.find("a"), None);
    k.set_pool("a".to_string(), origin_url("http://10.0.0.1"));
    k.set_pool("b".to_string(), origin_url("http://10.0.0.2"));
    k.set_pool("a".to_string(), origin_url("http://10.0.0.3"));
    let i = k.find("a").unwrap();
    assert_eq!(k.pools[i].1.len(), 1);
    assert_eq!(k.pools[i].1[0].serialization, "http://10.0.0.3/");
    assert!(k.find("b").is_some());
}

#[test]
fn number_parsing_and_printing() {
    assert_eq!(parse_u16("8080"), Some(8080));
    assert_eq!(parse_u16("+1"), Some(1));
    assert_eq!(parse_u16("65536"), None);
    assert_eq!(parse_u16(""), None);
    assert_eq!(parse_u64("18446744073709551615"), Some(u64::MAX));
    assert_eq!(parse_u64("18446744073709551616"), None);
    assert_eq!(parse_u64("12a"), None);
    assert_eq!(decimal_string(0), "0");
    assert_eq!(decimal_string(1234567), "1234567");
    assert_eq!(trim_end_slashes("http://a/b//"), "http://a/b");
}

#[test]
fn kernel_status_fields() {
    assert_eq!(split_fields("  a b\tc\n"), vec!["a", "b", "c"]);
    assert!(split_fields(" \n ").is_empty());
    assert!(is_space('\u{3000}'));
    assert!(!is_space('x'));
    assert_eq!(resident_pages("1234 567 89 0 0 0 0\n"), Some(567));
    assert_eq!(resident_pages("1234"), None);
    assert_eq!(resident_pages("1 x"), None);
    let stat = "42 (proc) S 1 2 3 4 5 6 7 8 9 10 150 25 0 0";
    assert_eq!(cpu_times(stat), Some((150, 25)));
    let odd = "42 (proc) S 1 2 3 4 5 6 7 8 9 10 x 25";
    assert_eq!(cpu_times(odd), Some((0, 25)));
    assert_eq!(cpu_times("1 2 3"), None);
}

#[test]
fn colours_wrap_text() {
    assert_eq!(green("ok"), "\x1b[32mok\x1b[0m");
    assert_eq!(dim("x"), "\x1b[2mx\x1b[0m");
}

#[test]
fn summary_lists_the_configuration() {
    let config = ProxyConfig {
        listen: "0.0.0.0:8080".to_string(),
        metrics_addr: "0.0.0.0:9090".to_string(),
        routes: vec![RouteConfig {
            match_host: Some("example.com".to_string()),
            match_path: None,
            pools: vec![PoolRef {
                name: "backend".to_string(),
                origins: vec![OriginConfig { url: origin_url("http://127.0.0.1:3000"), weight: Some(3), health_check_path: None }],
            }],
            lb_algorithm: LbAlgorithm::WeightedLatency,
            ratelimit: Some(RateLimitConfig { rate: 10, burst: 20 }),
        }],
        ratelimit: Some(RateLimitConfig { rate: 100, burst: 200 }),
        health: HealthConfig::default(),
        kubernetes: Some(KubernetesConfig { namespace: None, label_selector: Some("app=web".to_string()), poll_interval: TimeSpan::from_secs(30) }),
        error_pages: Some(ErrorPagesConfig {
            directory: "/srv/errors".to_string(),
            pages: vec![ErrorPage { code: 404, file: "404.html".to_string() }],
        }),
    };
    let lines = config_summary(&config, "0.1.0");
    let d = |s: &str| dim(s);
    let expected = vec![
        format!("  {} upstreamer v0.1.0 — {}", green("✓"), green("configuration valid")),
        String::new(),
        format!("  {} 0.0.0.0:8080", d("listen:")),
        format!("  {} 0.0.0.0:9090", d("metrics:")),
        String::new(),
        format!("  {} 1", d("routes:")),
        String::new(),
        format!("  {} [0]", d("route")),
        format!("    {} example.com /", d("match:")),
        format!("    {} weightedlatency", d("algo:")),
        format!("    {} backend", d("pool:")),
        format!("      {} http://127.0.0.1:3000/ {}", d("→"), d("weight=3")),
        format!("    {} 10/s burst=20", d("ratelimit:")),
        String::new(),
        format!("  {} 100/s burst=200", d("ratelimit:")),
        String::new(),
        format!("  {}", d("health:")),
        format!("    {} \x1b[31moff\x1b[0m", d("active:")),
        format!("    {} failures=5 successes=2", d("passive:")),
        String::new(),
        format!("  {} ns=default selector=app=web", d("kubernetes:")),
        String::new(),
        format!("  {} /srv/errors", d("error_pages:")),
        "    404 → 404.html".to_string(),
    ];
    assert_eq!(lines, expected);
}

#[test]
fn summary_shows_active_probe_timings() {
    let mut health = HealthConfig::default();
    health.active.enabled = true;
    health.active.interval = TimeSpan { secs: 1, nanos: 500_000_000 };
    let config = ProxyConfig {
        listen: "127.0.0.1:1".to_string(),
        metrics_addr: "127.0.0.1:2".to_string(),
        routes: vec![],
        ratelimit: None,
        health,
        kubernetes: None,
        error_pages: None,
    };
    let lines = config_summary(&config, "9");
    assert_eq!(
        lines[8],
        format!(
            "    {} {} interval=1.5s timeout=5s thresholds=2/3",
            dim("active:"),
            green("on")
        )
    );
    assert_eq!(lines.len(), 10);
}

#[test]
fn summary_shows_durations_past_the_nanosecond_range() {
    let mut health = HealthConfig::default();
    health.active.enabled = true;
    // Six hundred years: more nanoseconds than a u64 holds.
    health.active.interval = TimeSpan::from_secs(18_921_600_000);
    health.active.timeout = TimeSpan { secs: 0, nanos: 250_000_000 };
    let config = ProxyConfig {
        listen: "127.0.0.1:1".to_string(),
        metrics_addr: "127.0.0.1:2".to_string(),
        routes: vec![],
        ratelimit: None,
        health,
        kubernetes: None,
        error_pages: None,
    };
    let lines = config_summary(&config, "9");
    assert_eq!(
        lines[8],
        format!(
            "    {} {} interval=18921600000s timeout=250ms thresholds=2/3",
            dim("active:"),
            green("on")
        )
    );
}
