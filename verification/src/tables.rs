//! The concurrent maps of the `dashmap` crate that the proxy keeps its
//! per-origin, per-client, per-route and per-status state in, and the clock
//! that the rate limiter reads.
//!
//! Each map type is given a name for what it holds, and each method that the
//! library calls a wrapper whose contract states, over that name, what the
//! `dashmap` source does: `insert` replaces or adds the value of one key,
//! `remove` takes one key out and hands back its value, `get` reads the value
//! of one key, `len` counts the keys, `iter` visits each entry once, `clear`
//! empties the map. The library only calls these through `&mut` where the map
//! changes, so the contents seen by one call are those left by the previous.
use crate::balance::OriginState;
use crate::ratelimit::{ClientIp, RateLimiter, RateLimiterView, TokenBucket, TokenBucketView};
use dashmap::DashMap;
use std::time::Instant;
use vstd::prelude::*;

verus! {

#[verifier::external_type_specification]
#[verifier::external_body]
#[verifier::reject_recursive_types(K)]
#[verifier::reject_recursive_types(V)]
#[verifier::reject_recursive_types(S)]
pub struct ExDashMap<K, V, S>(DashMap<K, V, S>);

#[verifier::external_type_specification]
#[verifier::external_body]
pub struct ExInstant(Instant);

// ---------------------------------------------------------------------------
// Origin states, keyed by the origin's URL string
// ---------------------------------------------------------------------------
/// What an origin-state map holds: URL string to origin state.
pub uninterp spec fn origin_table(m: DashMap<String, OriginState>) -> Map<Seq<char>, OriginState>;

/// `DashMap::new`: an empty map.
#[verifier::external_body]
pub(crate) fn origin_table_new() -> (r: DashMap<String, OriginState>)
    ensures
        origin_table(r) == (Map::<Seq<char>, OriginState>::empty()),
{
    DashMap::new()
}

/// `DashMap::get`: the state kept for `key`, if any.
#[verifier::external_body]
pub(crate) fn origin_table_get(m: &DashMap<String, OriginState>, key: &str) -> (r: Option<OriginState>)
    ensures
        r == (if origin_table(*m).contains_key(key@) {
            Some(origin_table(*m)[key@])
        } else {
            None
        }),
{
    m.get(key).map(|e| *e.value())
}

/// `DashMap::insert`: `key` now holds `s`; every other key is unchanged.
#[verifier::external_body]
pub(crate) fn origin_table_insert(m: &mut DashMap<String, OriginState>, key: String, s: OriginState)
    ensures
        origin_table(*final(m)) == origin_table(*old(m)).insert(key@, s),
{
    m.insert(key, s);
}

/// `DashMap::len`: the number of keys.
#[verifier::external_body]
pub(crate) fn origin_table_len(m: &DashMap<String, OriginState>) -> (r: usize)
    ensures
        r == origin_table(*m).len(),
{
    m.len()
}

/// `entries` lists each key of `m` once, with its state.
pub open spec fn lists_entries(
    m: Map<Seq<char>, OriginState>,
    entries: Seq<(String, OriginState)>,
) -> bool {
    &&& forall|i: int|
        0 <= i < entries.len() ==> #[trigger] m.contains_key(entries[i].0@) && m[entries[i].0@]
            == entries[i].1
    &&& forall|k: Seq<char>| #[trigger]
        m.contains_key(k) ==> exists|i: int| 0 <= i < entries.len() && entries[i].0@ == k
    &&& forall|i: int, j: int| 0 <= i < j < entries.len() ==> entries[i].0@ != entries[j].0@
}

/// `DashMap::iter`: every entry once, in an unspecified order.
#[verifier::external_body]
pub(crate) fn origin_table_entries(m: &DashMap<String, OriginState>) -> (r: Vec<(String, OriginState)>)
    ensures
        lists_entries(origin_table(*m), r@),
{
    m.iter().map(|e| (e.key().clone(), *e.value())).collect()
}

// ---------------------------------------------------------------------------
// Token buckets, keyed by client address
// ---------------------------------------------------------------------------
/// What a bucket map holds: client address to bucket.
pub uninterp spec fn bucket_table(m: DashMap<ClientIp, TokenBucket>) -> Map<
    ClientIp,
    TokenBucketView,
>;

/// `DashMap::new`: an empty map.
#[verifier::external_body]
pub(crate) fn bucket_table_new() -> (r: DashMap<ClientIp, TokenBucket>)
    ensures
        bucket_table(r) == (Map::<ClientIp, TokenBucketView>::empty()),
{
    DashMap::new()
}

/// `DashMap::get`: a copy of the bucket kept for `ip`, if any.
#[verifier::external_body]
pub(crate) fn bucket_table_get(m: &DashMap<ClientIp, TokenBucket>, ip: ClientIp) -> (r: Option<
    TokenBucket,
>)
    ensures
        r is Some == bucket_table(*m).contains_key(ip),
        r matches Some(b) ==> b@ == bucket_table(*m)[ip],
{
    m.get(&ip).map(|e| *e.value())
}

/// `DashMap::insert`: `ip` now holds `b`; every other address is unchanged.
#[verifier::external_body]
pub(crate) fn bucket_table_insert(m: &mut DashMap<ClientIp, TokenBucket>, ip: ClientIp, b: TokenBucket)
    ensures
        bucket_table(*final(m)) == bucket_table(*old(m)).insert(ip, b@),
{
    m.insert(ip, b);
}

/// `DashMap::remove`: `ip` is gone; every other address is unchanged.
#[verifier::external_body]
pub(crate) fn bucket_table_remove(m: &mut DashMap<ClientIp, TokenBucket>, ip: ClientIp)
    ensures
        bucket_table(*final(m)) == bucket_table(*old(m)).remove(ip),
{
    m.remove(&ip);
}

/// `DashMap::len`: the number of addresses.
#[verifier::external_body]
pub(crate) fn bucket_table_len(m: &DashMap<ClientIp, TokenBucket>) -> (r: usize)
    ensures
        r == bucket_table(*m).len(),
{
    m.len()
}

/// `DashMap::iter`, keeping the keys: every address once.
#[verifier::external_body]
pub(crate) fn bucket_table_keys(m: &DashMap<ClientIp, TokenBucket>) -> (r: Vec<ClientIp>)
    ensures
        forall|i: int| 0 <= i < r@.len() ==> #[trigger] bucket_table(*m).contains_key(r@[i]),
        forall|k: ClientIp| #[trigger]
            bucket_table(*m).contains_key(k) ==> exists|i: int| 0 <= i < r@.len() && r@[i] == k,
{
    m.iter().map(|e| *e.key()).collect()
}

// ---------------------------------------------------------------------------
// Per-route rate limiters, keyed by route key
// ---------------------------------------------------------------------------
/// What a route limiter map holds: route key to limiter.
pub uninterp spec fn limiter_table(m: DashMap<String, RateLimiter>) -> Map<
    Seq<char>,
    RateLimiterView,
>;

/// `DashMap::new`: an empty map.
#[verifier::external_body]
pub(crate) fn limiter_table_new() -> (r: DashMap<String, RateLimiter>)
    ensures
        limiter_table(r) == (Map::<Seq<char>, RateLimiterView>::empty()),
{
    DashMap::new()
}

/// `DashMap::insert`: `key` now holds `l`; every other key is unchanged.
#[verifier::external_body]
pub(crate) fn limiter_table_insert(m: &mut DashMap<String, RateLimiter>, key: String, l: RateLimiter)
    ensures
        limiter_table(*final(m)) == limiter_table(*old(m)).insert(key@, l@),
{
    m.insert(key, l);
}

/// `DashMap::remove`: takes the limiter of `key` out, handing it back.
#[verifier::external_body]
pub(crate) fn limiter_table_remove(m: &mut DashMap<String, RateLimiter>, key: &str) -> (r: Option<
    RateLimiter,
>)
    ensures
        limiter_table(*final(m)) == limiter_table(*old(m)).remove(key@),
        r is Some == limiter_table(*old(m)).contains_key(key@),
        r matches Some(l) ==> l@ == limiter_table(*old(m))[key@],
{
    m.remove(key).map(|(_, l)| l)
}

/// `DashMap::clear`: no keys left.
#[verifier::external_body]
pub(crate) fn limiter_table_clear(m: &mut DashMap<String, RateLimiter>)
    ensures
        limiter_table(*final(m)) == (Map::<Seq<char>, RateLimiterView>::empty()),
{
    m.clear();
}

/// `DashMap::iter`, keeping the keys: every route key once.
#[verifier::external_body]
pub(crate) fn limiter_table_keys(m: &DashMap<String, RateLimiter>) -> (r: Vec<String>)
    ensures
        forall|i: int| 0 <= i < r@.len() ==> #[trigger] limiter_table(*m).contains_key(r@[i]@),
        forall|k: Seq<char>| #[trigger]
            limiter_table(*m).contains_key(k) ==> exists|i: int| 0 <= i < r@.len() && r@[i]@ == k,
        forall|i: int, j: int| 0 <= i < j < r@.len() ==> r@[i]@ != r@[j]@,
{
    m.iter().map(|e| e.key().clone()).collect()
}

// ---------------------------------------------------------------------------
// Error page bodies, keyed by status code
// ---------------------------------------------------------------------------
/// What an error page map holds: status code to page body.
pub uninterp spec fn page_table(m: DashMap<u16, Vec<u8>>) -> Map<u16, Seq<u8>>;

/// `DashMap::new`: an empty map.
#[verifier::external_body]
pub(crate) fn page_table_new() -> (r: DashMap<u16, Vec<u8>>)
    ensures
        page_table(r) == (Map::<u16, Seq<u8>>::empty()),
{
    DashMap::new()
}

/// `DashMap::insert`: `code` now holds `body`; every other code is unchanged.
#[verifier::external_body]
pub(crate) fn page_table_insert(m: &mut DashMap<u16, Vec<u8>>, code: u16, body: Vec<u8>)
    ensures
        page_table(*final(m)) == page_table(*old(m)).insert(code, body@),
{
    m.insert(code, body);
}

/// `DashMap::get`: a copy of the body kept for `code`, if any.
#[verifier::external_body]
pub(crate) fn page_table_get(m: &DashMap<u16, Vec<u8>>, code: u16) -> (r: Option<Vec<u8>>)
    ensures
        r is Some == page_table(*m).contains_key(code),
        r matches Some(b) ==> b@ == page_table(*m)[code],
{
    m.get(&code).map(|e| e.value().clone())
}

// ---------------------------------------------------------------------------
// The monotonic clock
// ---------------------------------------------------------------------------
/// `Instant::now`: a reading of the monotonic clock. Nothing is stated of the
/// reading, which depends on the time of the call.
#[verifier::external_body]
pub(crate) fn instant_now() -> Instant {
    Instant::now()
}

/// `Instant::saturating_duration_since`, in nanoseconds: the time from
/// `earlier` to `later`, zero when `later` is not after `earlier`. Nothing is
/// stated of the value, which depends on the two clock readings.
#[verifier::external_body]
pub(crate) fn nanos_between(earlier: Instant, later: Instant) -> u128 {
    later.saturating_duration_since(earlier).as_nanos()
}

} // verus!
