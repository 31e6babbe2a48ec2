//! Per-client token bucket rate limiting.
//!
//! Tokens are counted exactly in billionths: a bucket that refills `rate`
//! tokens per second gains `rate` billionths per elapsed nanosecond.
use crate::tables::{
    bucket_table, bucket_table_get, bucket_table_insert, bucket_table_keys, bucket_table_len,
    bucket_table_new, bucket_table_remove, instant_now, nanos_between,
};
use dashmap::DashMap;
use std::time::Instant;
use vstd::prelude::*;

verus! {

/// Billionths of a token in one token.
pub const UNIT: u128 = 1_000_000_000;

/// A client address: an IPv4 address as its 32 bits, an IPv6 address as its
/// 128 bits.
#[derive(Clone, Copy, Debug, PartialEq, Eq, Hash, Structural)]
pub enum ClientIp {
    V4(u32),
    V6(u128),
}

/// The token counts of a bucket, in billionths of a token, its refill
/// rate in billionths per nanosecond (that is, tokens per second), and how
/// many times it has been refilled for the time read from the clock.
pub struct TokenBucketView {
    pub tokens: u128,
    pub max_tokens: u128,
    pub refill_rate: u128,
    pub clock_refills: nat,
}

/// A token bucket for one client.
#[derive(Clone, Copy)]
pub struct TokenBucket {
    tokens: u128,
    max_tokens: u128,
    refill_rate: u128,
    last_refill: Instant,
    last_used: Instant,
    clock_refills: Ghost<nat>,
}

impl View for TokenBucket {
    type V = TokenBucketView;

    closed spec fn view(&self) -> TokenBucketView {
        TokenBucketView {
            tokens: self.tokens,
            max_tokens: self.max_tokens,
            refill_rate: self.refill_rate,
            clock_refills: self.clock_refills@,
        }
    }
}

/// A bucket never holds more than it may: burst and rate fit in `u32`.
pub open spec fn bucket_wf(v: TokenBucketView) -> bool {
    &&& v.tokens <= v.max_tokens
    &&& v.max_tokens <= u32::MAX as nat * UNIT
    &&& v.refill_rate <= u32::MAX
}

/// A full bucket for `rate` tokens per second and a burst of `burst`.
pub open spec fn fresh_bucket(rate: u32, burst: u32) -> TokenBucketView {
    TokenBucketView {
        tokens: (burst as nat * UNIT) as u128,
        max_tokens: (burst as nat * UNIT) as u128,
        refill_rate: rate as u128,
        clock_refills: 0,
    }
}

/// The tokens after `elapsed` nanoseconds: what was there plus what the rate
/// adds, capped at the burst.
pub open spec fn refilled(v: TokenBucketView, elapsed: nat) -> u128 {
    if v.tokens + elapsed * v.refill_rate >= v.max_tokens {
        v.max_tokens
    } else {
        (v.tokens + elapsed * v.refill_rate) as u128
    }
}

/// One request after `elapsed` nanoseconds: refill, then take one whole token
/// if there is one. Gives the new bucket and whether the request passes.
pub open spec fn consume(v: TokenBucketView, elapsed: nat) -> (TokenBucketView, bool) {
    let t = refilled(v, elapsed);
    if t >= UNIT {
        (TokenBucketView { tokens: (t - UNIT) as u128, ..v }, true)
    } else {
        (TokenBucketView { tokens: t, ..v }, false)
    }
}

/// One request that refills the bucket for the `elapsed` nanoseconds read
/// from the clock since its last refill: [`consume`], counted as one more
/// clock refill.
pub open spec fn clock_consume(v: TokenBucketView, elapsed: nat) -> (TokenBucketView, bool) {
    let (w, ok) = consume(v, elapsed);
    (TokenBucketView { clock_refills: v.clock_refills + 1, ..w }, ok)
}

/// `n` requests at the same instant.
pub open spec fn consume_now(v: TokenBucketView, n: nat) -> (TokenBucketView, Seq<bool>)
    decreases n,
{
    if n == 0 {
        (v, Seq::empty())
    } else {
        let (w, out) = consume_now(v, (n - 1) as nat);
        let (x, ok) = consume(w, 0);
        (x, out.push(ok))
    }
}

impl TokenBucket {
    /// A full bucket: `burst` tokens, refilling `rate` tokens per second; its
    /// last refill and last use are one clock reading taken now.
    pub fn new(rate: u32, burst: u32) -> (r: Self)
        ensures
            r@ == fresh_bucket(rate, burst),
            bucket_wf(r@),
            r.last_refill() == r.last_used(),
    {
        let now = instant_now();
        TokenBucket {
            tokens: burst as u128 * UNIT,
            max_tokens: burst as u128 * UNIT,
            refill_rate: rate as u128,
            last_refill: now,
            last_used: now,
            clock_refills: Ghost(0),
        }
    }

    /// The clock reading of the last refill.
    pub closed spec fn last_refill(&self) -> Instant {
        self.last_refill
    }

    /// The clock reading of the last request.
    pub closed spec fn last_used(&self) -> Instant {
        self.last_used
    }

    /// The well-formedness of this bucket.
    pub open spec fn wf(&self) -> bool {
        bucket_wf(self@)
    }

    /// Refills for `elapsed` nanoseconds and tries to take one token.
    pub fn consume_after(&mut self, elapsed: u128) -> (allowed: bool)
        requires
            old(self).wf(),
        ensures
            final(self).wf(),
            (final(self)@, allowed) == consume(old(self)@, elapsed as nat),
            final(self).last_refill() == old(self).last_refill(),
            final(self).last_used() == old(self).last_used(),
    {
        let t: u128 = match elapsed.checked_mul(self.refill_rate) {
            Some(add) => {
                if add >= self.max_tokens || self.tokens + add >= self.max_tokens {
                    self.max_tokens
                } else {
                    self.tokens + add
                }
            },
            None => self.max_tokens,
        };
        proof {
            if elapsed as nat * self.refill_rate as nat > u128::MAX {
                assert(self.tokens + elapsed as nat * self.refill_rate as nat >= self.max_tokens);
            }
        }
        if t >= UNIT {
            self.tokens = t - UNIT;
            true
        } else {
            self.tokens = t;
            false
        }
    }

    /// Tries to consume one token, first adding what the rate gives for the
    /// time since the last refill (read from the monotonic clock); the last
    /// refill and the last use then both become that one reading.
    ///
    /// Returns true if a token was consumed (request allowed), false if rate
    /// limited.
    pub fn try_consume(&mut self) -> (allowed: bool)
        requires
            old(self).wf(),
        ensures
            final(self).wf(),
            exists|elapsed: nat|
                (#[trigger] clock_consume(old(self)@, elapsed)) == (final(self)@, allowed),
            final(self).last_refill() == final(self).last_used(),
    {
        let now = instant_now();
        let elapsed = nanos_between(self.last_refill, now);
        let allowed = self.consume_after(elapsed);
        self.last_refill = now;
        self.last_used = now;
        self.clock_refills = Ghost(self.clock_refills@ + 1);
        assert(clock_consume(old(self)@, elapsed as nat) == (self@, allowed));
        allowed
    }

    /// The whole tokens left.
    pub fn tokens(&self) -> (r: u64)
        requires
            self.wf(),
        ensures
            r == self@.tokens / UNIT,
    {
        (self.tokens / UNIT) as u64
    }

    /// Whether an idle time of `idle` nanoseconds exceeds `max_idle`.
    pub fn idle_exceeds(idle: u128, max_idle: u64) -> (r: bool)
        ensures
            r == (idle > max_idle),
    {
        idle > max_idle as u128
    }

    /// Whether the bucket has been idle (per the monotonic clock) longer than
    /// `max_idle` nanoseconds; the clock reading decides, so nothing is stated
    /// beyond [`TokenBucket::idle_exceeds`].
    pub fn is_stale(&self, max_idle: u64) -> bool {
        Self::idle_exceeds(self.idle_nanos(), max_idle)
    }

    /// The nanoseconds since the bucket was last used, per a fresh reading
    /// of the monotonic clock; the reading decides, so nothing is stated of
    /// the value.
    pub fn idle_nanos(&self) -> u128 {
        nanos_between(self.last_used, instant_now())
    }
}

/// The buckets of a limiter, with its rate and burst.
pub struct RateLimiterView {
    pub buckets: Map<ClientIp, TokenBucketView>,
    pub rate: u32,
    pub burst: u32,
}

/// Per-client rate limiter: each client address gets its own token bucket,
/// created full on its first request.
pub struct RateLimiter {
    buckets: DashMap<ClientIp, TokenBucket>,
    rate: u32,
    burst: u32,
}

impl View for RateLimiter {
    type V = RateLimiterView;

    closed spec fn view(&self) -> RateLimiterView {
        RateLimiterView { buckets: bucket_table(self.buckets), rate: self.rate, burst: self.burst }
    }
}

/// Every bucket of a limiter is well formed.
pub open spec fn limiter_wf(v: RateLimiterView) -> bool {
    forall|ip: ClientIp| #[trigger] v.buckets.contains_key(ip) ==> bucket_wf(v.buckets[ip])
}

/// The bucket a request from `ip` meets: the kept one, else a fresh one.
pub open spec fn bucket_for(v: RateLimiterView, ip: ClientIp) -> TokenBucketView {
    if v.buckets.contains_key(ip) {
        v.buckets[ip]
    } else {
        fresh_bucket(v.rate, v.burst)
    }
}

/// What a check from `ip` after `elapsed` nanoseconds does: the bucket of
/// `ip` is refilled for that clock reading and takes one request, every
/// other bucket stays as it was.
pub open spec fn check_step(v: RateLimiterView, ip: ClientIp, elapsed: nat) -> (
    RateLimiterView,
    bool,
) {
    let (b, ok) = clock_consume(bucket_for(v, ip), elapsed);
    (RateLimiterView { buckets: v.buckets.insert(ip, b), ..v }, ok)
}

/// `idle` reports client `c` idle for longer than `max_idle` nanoseconds.
pub open spec fn idle_in(idle: Seq<(ClientIp, u128)>, c: ClientIp, max_idle: u64) -> bool {
    exists|k: int| 0 <= k < idle.len() && (#[trigger] idle[k]).0 == c && idle[k].1 > max_idle
}

/// `after` is `before` without the buckets of the clients that `idle`
/// reports idle for longer than `max_idle`: the same rate and burst, and
/// every other bucket as it was.
pub open spec fn idle_removed(
    before: RateLimiterView,
    idle: Seq<(ClientIp, u128)>,
    max_idle: u64,
    after: RateLimiterView,
) -> bool {
    &&& after.rate == before.rate
    &&& after.burst == before.burst
    &&& forall|c: ClientIp|
        #[trigger] after.buckets.contains_key(c) <==> before.buckets.contains_key(c) && !idle_in(
            idle,
            c,
            max_idle,
        )
    &&& forall|c: ClientIp| #[trigger]
        after.buckets.contains_key(c) ==> after.buckets[c] == before.buckets[c]
}

/// `after` is `before` with every bucket removed whose idle time, read from
/// the clock once per bucket, exceeds `max_idle`: there are readings that
/// cover every client of `before`, and `after` is what they leave.
pub open spec fn stale_removed(before: RateLimiterView, max_idle: u64, after: RateLimiterView) -> bool {
    exists|idle: Seq<(ClientIp, u128)>|
        #![trigger idle_removed(before, idle, max_idle, after)]
        (forall|c: ClientIp| #[trigger]
            before.buckets.contains_key(c) ==> exists|k: int|
                0 <= k < idle.len() && (#[trigger] idle[k]).0 == c) && idle_removed(
            before,
            idle,
            max_idle,
            after,
        )
}

impl RateLimiter {
    /// A limiter that adds `rate` tokens per second to each client's bucket,
    /// up to `burst`.
    pub fn new(rate: u32, burst: u32) -> (r: Self)
        ensures
            r@.buckets == Map::<ClientIp, TokenBucketView>::empty(),
            r@.rate == rate,
            r@.burst == burst,
    {
        RateLimiter { buckets: bucket_table_new(), rate, burst }
    }

    /// Whether a request from `ip` is allowed, consuming a token from its
    /// bucket (created full on the first request).
    pub fn check(&mut self, ip: ClientIp) -> (allowed: bool)
        requires
            limiter_wf(old(self)@),
        ensures
            limiter_wf(final(self)@),
            exists|elapsed: nat| #[trigger]
                check_step(old(self)@, ip, elapsed) == (final(self)@, allowed),
    {
        let mut bucket = match bucket_table_get(&self.buckets, ip) {
            Some(b) => b,
            None => TokenBucket::new(self.rate, self.burst),
        };
        assert(bucket@ == bucket_for(old(self)@, ip));
        assert(bucket.wf());
        let ghost before = bucket@;
        let allowed = bucket.try_consume();
        let ghost elapsed = choose|e: nat| #[trigger] clock_consume(before, e) == (bucket@, allowed);
        bucket_table_insert(&mut self.buckets, ip, bucket);
        proof {
            assert(self@.buckets =~= old(self)@.buckets.insert(ip, bucket@));
            assert(check_step(old(self)@, ip, elapsed) == (self@, allowed));
            assert forall|k: ClientIp| #[trigger] self@.buckets.contains_key(k) implies bucket_wf(
                self@.buckets[k],
            ) by {
                if k != ip {
                    assert(old(self)@.buckets.contains_key(k));
                }
            }
        }
        allowed
    }

    /// Removes the bucket of each client that `idle` reports idle for longer
    /// than `max_idle` nanoseconds (`idle` holds a client and its idle time
    /// per entry); every other bucket stays as it was.
    pub fn remove_idle(&mut self, idle: &Vec<(ClientIp, u128)>, max_idle: u64)
        requires
            limiter_wf(old(self)@),
        ensures
            limiter_wf(final(self)@),
            idle_removed(old(self)@, idle@, max_idle, final(self)@),
    {
        let ghost start = self@;
        let mut i: usize = 0;
        while i < idle.len()
            invariant
                i <= idle@.len(),
                start == old(self)@,
                limiter_wf(start),
                idle_removed(start, idle@.take(i as int), max_idle, self@),
            decreases idle@.len() - i,
        {
            let (ip, t) = idle[i];
            let ghost cur = self@;
            if t > max_idle as u128 {
                bucket_table_remove(&mut self.buckets, ip);
            }
            proof {
                let before_i = idle@.take(i as int);
                let after_i = idle@.take(i + 1);
                assert(after_i =~= before_i.push((ip, t)));
                assert forall|c: ClientIp| #[trigger] idle_in(after_i, c, max_idle) == (idle_in(
                    before_i,
                    c,
                    max_idle,
                ) || (c == ip && t > max_idle)) by {
                    if idle_in(after_i, c, max_idle) {
                        let k = choose|k: int|
                            0 <= k < after_i.len() && (#[trigger] after_i[k]).0 == c && after_i[k].1
                                > max_idle;
                        if k < i {
                            assert(before_i[k] == after_i[k]);
                        }
                    }
                    if idle_in(before_i, c, max_idle) {
                        let k = choose|k: int|
                            0 <= k < before_i.len() && (#[trigger] before_i[k]).0 == c
                                && before_i[k].1 > max_idle;
                        assert(after_i[k] == before_i[k]);
                    }
                    if c == ip && t > max_idle {
                        assert(after_i[i as int] == (ip, t));
                    }
                }
                assert forall|c: ClientIp| #[trigger] self@.buckets.contains_key(c) <==> (
                start.buckets.contains_key(c) && !idle_in(after_i, c, max_idle)) by {
                    assert(idle_in(after_i, c, max_idle) == (idle_in(before_i, c, max_idle) || (c
                        == ip && t > max_idle)));
                    assert(cur.buckets.contains_key(c) <==> start.buckets.contains_key(c)
                        && !idle_in(before_i, c, max_idle));
                }
                assert forall|c: ClientIp| #[trigger]
                    self@.buckets.contains_key(c) implies self@.buckets[c] == start.buckets[c] by {
                    assert(cur.buckets.contains_key(c));
                }
            }
            i = i + 1;
        }
        assert(idle@.take(i as int) =~= idle@);
        assert forall|k: ClientIp| #[trigger] self@.buckets.contains_key(k) implies bucket_wf(
            self@.buckets[k],
        ) by {
            assert(start.buckets.contains_key(k));
        }
    }

    /// Removes the buckets that have been idle longer than `max_idle`
    /// nanoseconds, each measured against its own reading of the monotonic
    /// clock; the others stay as they were.
    pub fn cleanup_stale(&mut self, max_idle: u64)
        requires
            limiter_wf(old(self)@),
        ensures
            limiter_wf(final(self)@),
            stale_removed(old(self)@, max_idle, final(self)@),
    {
        let keys = bucket_table_keys(&self.buckets);
        let mut idle: Vec<(ClientIp, u128)> = Vec::new();
        let mut i: usize = 0;
        while i < keys.len()
            invariant
                i <= keys@.len(),
                idle@.len() == i,
                forall|k: int| 0 <= k < i ==> (#[trigger] idle@[k]).0 == keys@[k],
                forall|k: int| 0 <= k < keys@.len() ==> bucket_table(self.buckets).contains_key(
                    #[trigger] keys@[k],
                ),
            decreases keys@.len() - i,
        {
            let ip = keys[i];
            match bucket_table_get(&self.buckets, ip) {
                Some(b) => idle.push((ip, b.idle_nanos())),
                None => {},
            }
            i = i + 1;
        }
        proof {
            assert forall|c: ClientIp| #[trigger] self@.buckets.contains_key(c) implies exists|k: int|
                0 <= k < idle@.len() && (#[trigger] idle@[k]).0 == c by {
                let k = choose|k: int| 0 <= k < keys@.len() && keys@[k] == c;
                assert(idle@[k].0 == c);
            }
        }
        let ghost readings = idle@;
        self.remove_idle(&idle, max_idle);
        assert(idle_removed(old(self)@, readings, max_idle, self@));
    }

    /// The number of clients with a bucket.
    pub fn bucket_count(&self) -> (r: usize)
        ensures
            r == self@.buckets.len(),
    {
        bucket_table_len(&self.buckets)
    }
}

/// A bucket that has just been created lets exactly `burst` requests through
/// at one instant and refuses the next: of `burst + 1` back-to-back requests
/// the first `burst` pass and the last is refused.
pub proof fn lemma_fresh_bucket_allows_exactly_burst(rate: u32, burst: u32)
    ensures
        forall|j: int|
            0 <= j < burst ==> (#[trigger] consume_now(fresh_bucket(rate, burst), burst as nat).1[j]),
        consume_now(fresh_bucket(rate, burst), (burst + 1) as nat).1[burst as int] == false,
{
    lemma_burst_prefix(rate, burst, burst as nat);
    let v = consume_now(fresh_bucket(rate, burst), burst as nat).0;
    assert(refilled(v, 0) == 0);
}

proof fn lemma_burst_prefix(rate: u32, burst: u32, k: nat)
    requires
        k <= burst,
    ensures
        consume_now(fresh_bucket(rate, burst), k).0.tokens == (burst - k) * UNIT,
        consume_now(fresh_bucket(rate, burst), k).0.max_tokens == burst * UNIT,
        consume_now(fresh_bucket(rate, burst), k).0.refill_rate == rate,
        consume_now(fresh_bucket(rate, burst), k).1.len() == k,
        forall|j: int| 0 <= j < k ==> consume_now(fresh_bucket(rate, burst), k).1[j],
    decreases k,
{
    if k > 0 {
        lemma_burst_prefix(rate, burst, (k - 1) as nat);
        let w = consume_now(fresh_bucket(rate, burst), (k - 1) as nat).0;
        assert(w.tokens == (burst - (k - 1)) * UNIT);
        assert((burst - (k - 1)) * UNIT == (burst - k) * UNIT + UNIT) by (nonlinear_arith)
            requires
                k >= 1,
                k <= burst,
        ;
        assert((burst - k) * UNIT <= burst * UNIT) by (nonlinear_arith)
            requires
                k <= burst,
        ;
        assert(refilled(w, 0) == w.tokens);
    }
}

/// A check from one client leaves the bucket of every other client as it
/// was, and keeps the limiter's rate and burst.
pub proof fn lemma_clients_are_independent(
    v: RateLimiterView,
    ip: ClientIp,
    other: ClientIp,
    elapsed: nat,
)
    requires
        other != ip,
    ensures
        check_step(v, ip, elapsed).0.rate == v.rate,
        check_step(v, ip, elapsed).0.burst == v.burst,
        check_step(v, ip, elapsed).0.buckets.contains_key(other) == v.buckets.contains_key(other),
        bucket_for(check_step(v, ip, elapsed).0, other) == bucket_for(v, other),
{
}

/// However long a bucket waits, it never holds more than its burst, and its
/// burst and rate stay as they were.
pub proof fn lemma_consume_keeps_bucket_wf(v: TokenBucketView, elapsed: nat)
    requires
        bucket_wf(v),
    ensures
        bucket_wf(consume(v, elapsed).0),
        consume(v, elapsed).0.max_tokens == v.max_tokens,
        consume(v, elapsed).0.refill_rate == v.refill_rate,
{
}

/// After a wait long enough for the rate to fill the bucket, a request
/// passes and leaves the bucket one token short of its burst.
pub proof fn lemma_refilled_bucket_allows(v: TokenBucketView, elapsed: nat)
    requires
        bucket_wf(v),
        v.max_tokens >= UNIT,
        elapsed * v.refill_rate >= v.max_tokens,
    ensures
        consume(v, elapsed) == (TokenBucketView { tokens: (v.max_tokens - UNIT) as u128, ..v }, true),
{
}

/// Each check refills the client's bucket for exactly one new reading of
/// the clock, before taking its token: the bucket's count of clock refills
/// grows by one (a bucket made by this check has one), and its tokens are
/// those the elapsed time adds, capped at the burst, less the token taken.
pub proof fn lemma_check_refills_from_the_clock_once(v: RateLimiterView, ip: ClientIp, elapsed: nat)
    ensures
        check_step(v, ip, elapsed).0.buckets[ip].clock_refills == bucket_for(v, ip).clock_refills
            + 1,
        !v.buckets.contains_key(ip) ==> check_step(v, ip, elapsed).0.buckets[ip].clock_refills
            == 1,
        check_step(v, ip, elapsed).1 ==> check_step(v, ip, elapsed).0.buckets[ip].tokens
            + UNIT == refilled(bucket_for(v, ip), elapsed),
        !check_step(v, ip, elapsed).1 ==> check_step(v, ip, elapsed).0.buckets[ip].tokens
            == refilled(bucket_for(v, ip), elapsed) && refilled(bucket_for(v, ip), elapsed)
            < UNIT,
{
}

/// A client whose bucket has waited long enough for the rate to refill the
/// whole burst (at least `burst / rate` seconds) is let through by its next
/// check, which leaves it one token short of its burst; every other client
/// keeps its bucket.
pub proof fn lemma_check_after_full_refill_allows(v: RateLimiterView, ip: ClientIp, elapsed: nat)
    requires
        limiter_wf(v),
        v.burst >= 1,
        v.buckets.contains_key(ip) ==> v.buckets[ip].max_tokens == v.burst * UNIT
            && v.buckets[ip].refill_rate == v.rate,
        elapsed * v.rate >= v.burst * UNIT,
    ensures
        check_step(v, ip, elapsed).1,
        check_step(v, ip, elapsed).0.buckets[ip].tokens == (v.burst - 1) * UNIT,
        forall|c: ClientIp| #![trigger check_step(v, ip, elapsed).0.buckets[c]]
            c != ip && v.buckets.contains_key(c) ==> check_step(v, ip, elapsed).0.buckets[c]
                == v.buckets[c],
{
    let b = bucket_for(v, ip);
    assert(b.max_tokens == v.burst * UNIT) by (nonlinear_arith)
        requires
            b.max_tokens == v.burst * UNIT || b == fresh_bucket(v.rate, v.burst),
    ;
    assert(b.refill_rate == v.rate);
    assert(bucket_wf(b)) by {
        if !v.buckets.contains_key(ip) {
            assert(v.burst * UNIT <= u32::MAX as nat * UNIT) by (nonlinear_arith)
                requires
                    v.burst <= u32::MAX,
            ;
        }
    }
    assert(b.max_tokens >= UNIT) by (nonlinear_arith)
        requires
            b.max_tokens == v.burst * UNIT,
            v.burst >= 1,
    ;
    lemma_refilled_bucket_allows(b, elapsed);
    assert((v.burst - 1) * UNIT == v.burst * UNIT - UNIT) by (nonlinear_arith);
}

/// A bucket with less than one whole token refuses a request made at the
/// same instant, and keeps what it holds.
pub proof fn lemma_empty_bucket_refuses(v: TokenBucketView)
    requires
        bucket_wf(v),
        v.tokens < UNIT,
    ensures
        consume(v, 0) == (v, false),
{
}

} // verus!
