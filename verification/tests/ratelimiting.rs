use upstreamer::ratelimit::{ClientIp, RateLimiter, TokenBucket};

fn v4(text: &str) -> ClientIp {
    let octets: Vec<u32> = text.split('.').map(|p| p.parse().unwrap()).collect();
    ClientIp::V4((octets[0] << 24) | (octets[1] << 16) | (octets[2] << 8) | octets[3])
}

#[test]
fn test_fresh_bucket_allows_requests() {
    let mut bucket = TokenBucket::new(10, 5);
    assert!(bucket.try_consume(), "Fresh bucket should allow request");
    assert_eq!(bucket.tokens(), 4);
}

#[test]
fn test_exceeding_burst_rate_limits() {
    let mut bucket = TokenBucket::new(10, 2);
    assert!(bucket.try_consume(), "First request should be allowed");
    assert!(bucket.try_consume(), "Second request should be allowed");
    assert!(!bucket.try_consume(), "Third request should be rate limited");
}

#[test]
fn test_tokens_refill_over_time() {
    let mut bucket = TokenBucket::new(100, 5); // 100 tokens/sec

    // Exhaust bucket
    for _ in 0..5 {
        assert!(bucket.try_consume());
    }
    assert!(!bucket.try_consume(), "Should be rate limited after exhaustion");

    // Wait for at least one token to refill (100 tokens/sec = 10ms per token)
    wait_millis(20);

    assert!(bucket.try_consume(), "Should allow request after refill");
}

#[test]
fn tokens_refill_by_elapsed_time() {
    let mut bucket = TokenBucket::new(100, 5); // 100 tokens/sec

    // Exhaust bucket at one instant
    for _ in 0..5 {
        assert!(bucket.consume_after(0));
    }
    assert!(!bucket.consume_after(0), "Should be rate limited after exhaustion");

    // 20ms at 100 tokens/sec refills two tokens
    assert!(bucket.consume_after(20_000_000), "Should allow request after refill");
    assert_eq!(bucket.tokens(), 1);
}

#[test]
fn test_multiple_ips_independent_buckets() {
    let mut limiter = RateLimiter::new(10, 2);

    let ip1 = v4("127.0.0.1");
    let ip2 = v4("127.0.0.2");

    assert!(limiter.check(ip1));
    assert!(limiter.check(ip1));
    assert!(!limiter.check(ip1));

    assert!(limiter.check(ip2));
    assert!(limiter.check(ip2));
    assert!(!limiter.check(ip2));
    assert_eq!(limiter.bucket_count(), 2);
}

#[test]
fn refill_never_exceeds_burst() {
    let mut bucket = TokenBucket::new(1_000, 3);
    assert!(bucket.consume_after(0));
    // A very long wait fills the bucket to its burst only.
    assert!(bucket.consume_after(u128::MAX));
    assert_eq!(bucket.tokens(), 2);
}

#[test]
fn partial_tokens_do_not_pass() {
    let mut bucket = TokenBucket::new(10, 1);
    assert!(bucket.consume_after(0));
    // 50ms at 10 tokens/sec is half a token.
    assert!(!bucket.consume_after(50_000_000));
    // Another 50ms completes it.
    assert!(bucket.consume_after(50_000_000));
    assert!(!bucket.consume_after(0));
}

#[test]
fn idle_time_comparison() {
    assert!(TokenBucket::idle_exceeds(21, 20));
    assert!(!TokenBucket::idle_exceeds(20, 20));
    let bucket = TokenBucket::new(10, 5);
    assert!(!bucket.is_stale(60_000_000_000));
}

#[test]
fn ipv6_clients_have_their_own_buckets() {
    let mut limiter = RateLimiter::new(1, 1);
    assert!(limiter.check(ClientIp::V6(1)));
    assert!(!limiter.check(ClientIp::V6(1)));
    assert!(limiter.check(ClientIp::V4(1)));
    limiter.cleanup_stale(60_000_000_000);
    assert_eq!(limiter.bucket_count(), 2);
}

fn wait_millis(ms: u64) {
    let start = std::time::Instant::now();
    while start.elapsed() < std::time::Duration::from_millis(ms) {
        std::hint::spin_loop();
    }
}

#[test]
fn test_cleanup_stale_buckets() {
    let mut limiter = RateLimiter::new(10, 5);

    let ip1 = v4("127.0.0.1");
    let ip2 = v4("127.0.0.2");

    limiter.check(ip1);
    limiter.check(ip2);

    assert_eq!(limiter.bucket_count(), 2);

    wait_millis(60);

    limiter.cleanup_stale(20_000_000);

    assert_eq!(limiter.bucket_count(), 0);
}

#[test]
fn test_is_stale() {
    let bucket = TokenBucket::new(10, 5);
    assert!(!bucket.is_stale(1_000_000_000));

    wait_millis(10);
    assert!(bucket.is_stale(5_000_000));
    assert!(!bucket.is_stale(20_000_000));
}

#[test]
fn idle_readings_remove_exactly_the_idle_clients() {
    let mut limiter = RateLimiter::new(10, 5);
    let a = v4("10.0.0.1");
    let b = v4("10.0.0.2");
    let c = v4("10.0.0.3");
    limiter.check(a);
    limiter.check(b);
    limiter.check(c);
    limiter.remove_idle(&vec![(a, 500), (b, 20), (c, 21)], 20);
    assert_eq!(limiter.bucket_count(), 1);
    // The remaining client keeps its bucket: one token was used of five.
    assert!(limiter.check(b));
    assert!(limiter.check(b));
    assert!(limiter.check(b));
    assert!(limiter.check(b));
    assert!(!limiter.check(b));
    // A removed client starts again with a full bucket.
    for _ in 0..5 {
        assert!(limiter.check(a));
    }
}
