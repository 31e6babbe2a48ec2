//! The command line: its arguments, and the text that `--validate` prints
//! for a configuration that passed validation, one line per entry, with
//! terminal colours.
use crate::config::{
    ErrorPage, LbAlgorithm, OriginConfig, PoolRef, ProxyConfig, RateLimitConfig, RouteConfig,
    TimeSpan,
};
use crate::text::{decimal, decimal_string, texts};
use vstd::prelude::*;

verus! {

/// The command-line arguments.
pub struct Args {
    /// Path to the configuration file.
    pub config: String,
    /// Validate the configuration and exit.
    pub validate: bool,
    /// Log level (trace, debug, info, warn, error).
    pub log_level: String,
}

// ---------------------------------------------------------------------------
// Colours
// ---------------------------------------------------------------------------
/// `s` in green.
pub open spec fn green_text(s: Seq<char>) -> Seq<char> {
    "\x1b[32m"@ + s + "\x1b[0m"@
}

/// `s` dimmed.
pub open spec fn dim_text(s: Seq<char>) -> Seq<char> {
    "\x1b[2m"@ + s + "\x1b[0m"@
}

/// `s` wrapped in the terminal codes for green text.
pub fn green(s: &str) -> (r: String)
    ensures
        r@ == green_text(s@),
{
    let mut r = String::from_str("\x1b[32m");
    r.append(s);
    r.append("\x1b[0m");
    r
}

/// `s` wrapped in the terminal codes for dimmed text.
pub fn dim(s: &str) -> (r: String)
    ensures
        r@ == dim_text(s@),
{
    let mut r = String::from_str("\x1b[2m");
    r.append(s);
    r.append("\x1b[0m");
    r
}

// ---------------------------------------------------------------------------
// Durations
// ---------------------------------------------------------------------------
/// The `Debug` text of the duration of `secs` seconds and `nanos`
/// nanoseconds.
pub uninterp spec fn duration_text(secs: u64, nanos: u32) -> Seq<char>;

/// `<Duration as Debug>::fmt` on `Duration::new(d.secs, d.nanos)`: the
/// result is named `duration_text(d.secs, d.nanos)`, a function of the two
/// alone (such as `10s` or `1.5s`); its digits are not stated here.
/// `Duration::new` panics only when the nanoseconds carry into seconds past
/// `u64::MAX`, which a well-formed span rules out.
#[verifier::external_body]
fn duration_debug(d: TimeSpan) -> (r: String)
    requires
        d.wf(),
    ensures
        r@ == duration_text(d.secs, d.nanos),
{
    format!("{:?}", std::time::Duration::new(d.secs, d.nanos))
}

// ---------------------------------------------------------------------------
// The lines
// ---------------------------------------------------------------------------
/// The text of an optional string, `d` when it is absent.
pub open spec fn or_text(o: Option<String>, d: Seq<char>) -> Seq<char> {
    match o {
        Some(s) => s@,
        None => d,
    }
}

/// The algorithm's name, in lower case.
pub open spec fn algo_text(a: LbAlgorithm) -> Seq<char> {
    match a {
        LbAlgorithm::RoundRobin => "roundrobin"@,
        LbAlgorithm::WeightedLatency => "weightedlatency"@,
        LbAlgorithm::WeightedMetrics => "weightedmetrics"@,
    }
}

/// `rate/s burst=burst`.
pub open spec fn rate_text(rl: RateLimitConfig) -> Seq<char> {
    decimal(rl.rate as nat) + "/s burst="@ + decimal(rl.burst as nat)
}

/// The line of one origin: its URL, then its weight when it has one.
pub open spec fn origin_line(o: OriginConfig) -> Seq<char> {
    "      "@ + dim_text("→"@) + " "@ + o.url@.serialization + match o.weight {
        Some(w) => " "@ + dim_text("weight="@ + decimal(w as nat)),
        None => ""@,
    }
}

/// The lines of one pool: its name, then one line per origin.
pub open spec fn pool_lines(p: PoolRef) -> Seq<Seq<char>> {
    seq!["    "@ + dim_text("pool:"@) + " "@ + p.name@] + origin_lines(p.origins@)
}

/// One line per origin.
pub open spec fn origin_lines(os: Seq<OriginConfig>) -> Seq<Seq<char>> {
    Seq::new(os.len(), |k: int| origin_line(os[k]))
}

/// The lines of each pool.
pub open spec fn pool_groups(ps: Seq<PoolRef>) -> Seq<Seq<Seq<char>>> {
    Seq::new(ps.len(), |j: int| pool_lines(ps[j]))
}

/// The lines of every pool, pool after pool.
pub open spec fn pools_block(ps: Seq<PoolRef>) -> Seq<Seq<char>> {
    pool_groups(ps).flatten_alt()
}

/// The first lines of route `i`: a blank line, its index, what it matches
/// (`*` and `/` for what is absent) and its algorithm.
pub open spec fn route_head(i: nat, r: RouteConfig) -> Seq<Seq<char>> {
    seq![
        ""@,
        "  "@ + dim_text("route"@) + " ["@ + decimal(i) + "]"@,
        "    "@ + dim_text("match:"@) + " "@ + or_text(r.match_host, "*"@) + " "@ + or_text(
            r.match_path,
            "/"@,
        ),
        "    "@ + dim_text("algo:"@) + " "@ + algo_text(r.lb_algorithm),
    ]
}

/// The rate limit line of a route, when it has one.
pub open spec fn route_rate_line(r: RouteConfig) -> Seq<Seq<char>> {
    match r.ratelimit {
        Some(rl) => seq!["    "@ + dim_text("ratelimit:"@) + " "@ + rate_text(rl)],
        None => Seq::empty(),
    }
}

/// The lines of route `i`.
pub open spec fn route_lines(i: nat, r: RouteConfig) -> Seq<Seq<char>> {
    route_head(i, r) + pools_block(r.pools@) + route_rate_line(r)
}

/// The lines of every route, route after route.
pub open spec fn routes_block(rs: Seq<RouteConfig>) -> Seq<Seq<char>> {
    route_groups(rs).flatten_alt()
}

/// The lines of each route.
pub open spec fn route_groups(rs: Seq<RouteConfig>) -> Seq<Seq<Seq<char>>> {
    Seq::new(rs.len(), |i: int| route_lines(i as nat, rs[i]))
}

/// The first lines: the tick, the version, the two addresses and the number
/// of routes.
pub open spec fn header_lines(c: ProxyConfig, version: Seq<char>) -> Seq<Seq<char>> {
    seq![
        "  "@ + green_text("✓"@) + " upstreamer v"@ + version + " — "@ + green_text(
            "configuration valid"@,
        ),
        ""@,
        "  "@ + dim_text("listen:"@) + " "@ + c.listen@,
        "  "@ + dim_text("metrics:"@) + " "@ + c.metrics_addr@,
        ""@,
        "  "@ + dim_text("routes:"@) + " "@ + decimal(c.routes@.len()),
    ]
}

/// The global rate limit, when there is one.
pub open spec fn global_rate_lines(c: ProxyConfig) -> Seq<Seq<char>> {
    match c.ratelimit {
        Some(rl) => seq![""@, "  "@ + dim_text("ratelimit:"@) + " "@ + rate_text(rl)],
        None => Seq::empty(),
    }
}

/// The health lines: active probing (its timings and thresholds when on),
/// then the passive thresholds.
pub open spec fn health_lines(c: ProxyConfig) -> Seq<Seq<char>> {
    let a = c.health.active;
    let p = c.health.passive;
    seq![
        ""@,
        "  "@ + dim_text("health:"@),
        if a.enabled {
            "    "@ + dim_text("active:"@) + " "@ + green_text("on"@) + " interval="@
                + duration_text(a.interval.secs, a.interval.nanos) + " timeout="@ + duration_text(
                a.timeout.secs,
                a.timeout.nanos,
            )
                + " thresholds="@ + decimal(a.healthy_threshold as nat) + "/"@ + decimal(
                a.unhealthy_threshold as nat,
            )
        } else {
            "    "@ + dim_text("active:"@) + " \x1b[31moff\x1b[0m"@
        },
        "    "@ + dim_text("passive:"@) + " failures="@ + decimal(p.failure_threshold as nat)
            + " successes="@ + decimal(p.success_threshold as nat),
    ]
}

/// The discovery line, when discovery is configured.
pub open spec fn kubernetes_lines(c: ProxyConfig) -> Seq<Seq<char>> {
    match c.kubernetes {
        Some(k) => seq![
            ""@,
            "  "@ + dim_text("kubernetes:"@) + " ns="@ + or_text(k.namespace, "default"@)
                + " selector="@ + or_text(k.label_selector, "(none)"@),
        ],
        None => Seq::empty(),
    }
}

/// The line of one error page: its status code and file.
pub open spec fn page_line(pg: ErrorPage) -> Seq<char> {
    "    "@ + decimal(pg.code as nat) + " → "@ + pg.file@
}

/// One line per error page.
pub open spec fn page_lines(pages: Seq<ErrorPage>) -> Seq<Seq<char>> {
    Seq::new(pages.len(), |k: int| page_line(pages[k]))
}

/// The error page lines, when error pages are configured.
pub open spec fn error_page_lines(c: ProxyConfig) -> Seq<Seq<char>> {
    match c.error_pages {
        Some(ep) => seq![""@, "  "@ + dim_text("error_pages:"@) + " "@ + ep.directory@]
            + page_lines(ep.pages@),
        None => Seq::empty(),
    }
}

/// Every line of the summary of `c`, for program version `version`.
pub open spec fn summary_lines(c: ProxyConfig, version: Seq<char>) -> Seq<Seq<char>> {
    header_lines(c, version) + routes_block(c.routes@) + global_rate_lines(c) + health_lines(c)
        + kubernetes_lines(c) + error_page_lines(c)
}

proof fn lemma_flatten_take<A>(ss: Seq<Seq<A>>, j: int)
    requires
        0 <= j < ss.len(),
    ensures
        ss.take(j + 1).flatten_alt() == ss.take(j).flatten_alt() + ss[j],
{
    assert(ss.take(j + 1).drop_last() =~= ss.take(j));
}

fn push_line(out: &mut Vec<String>, line: String)
    ensures
        texts(final(out)@) == texts(old(out)@).push(line@),
{
    let ghost before = out@;
    out.push(line);
    assert(texts(out@) =~= texts(before).push(line@));
}

fn push_origin_lines(out: &mut Vec<String>, p: &PoolRef)
    ensures
        texts(final(out)@) == texts(old(out)@) + pool_lines(*p),
{
    let ghost start = texts(out@);
    let mut head = String::from_str("    ");
    head.append(dim("pool:").as_str());
    head.append(" ");
    head.append(p.name.as_str());
    push_line(out, head);
    let ghost lines = origin_lines(p.origins@);
    let mut k: usize = 0;
    while k < p.origins.len()
        invariant
            k <= p.origins@.len(),
            lines == origin_lines(p.origins@),
            texts(out@) == start + seq!["    "@ + dim_text("pool:"@) + " "@ + p.name@]
                + lines.take(k as int),
        decreases p.origins@.len() - k,
    {
        let o = &p.origins[k];
        let mut l = String::from_str("      ");
        l.append(dim("→").as_str());
        l.append(" ");
        l.append(o.url.serialization.as_str());
        match o.weight {
            Some(w) => {
                let mut wt = String::from_str("weight=");
                wt.append(decimal_string(w as u64).as_str());
                l.append(" ");
                l.append(dim(wt.as_str()).as_str());
            },
            None => {
                l.append("");
            },
        }
        assert(l@ == origin_line(*o));
        push_line(out, l);
        assert(lines.take(k + 1) =~= lines.take(k as int).push(lines[k as int]));
        k = k + 1;
    }
    assert(lines.take(k as int) =~= lines);
}

fn push_route_lines(out: &mut Vec<String>, i: usize, r: &RouteConfig)
    ensures
        texts(final(out)@) == texts(old(out)@) + route_lines(i as nat, *r),
{
    let ghost start = texts(out@);
    push_line(out, String::from_str(""));
    let mut l1 = String::from_str("  ");
    l1.append(dim("route").as_str());
    l1.append(" [");
    l1.append(decimal_string(i as u64).as_str());
    l1.append("]");
    push_line(out, l1);
    let mut l2 = String::from_str("    ");
    l2.append(dim("match:").as_str());
    l2.append(" ");
    match &r.match_host {
        Some(h) => l2.append(h.as_str()),
        None => l2.append("*"),
    }
    l2.append(" ");
    match &r.match_path {
        Some(p) => l2.append(p.as_str()),
        None => l2.append("/"),
    }
    push_line(out, l2);
    let mut l3 = String::from_str("    ");
    l3.append(dim("algo:").as_str());
    l3.append(" ");
    match r.lb_algorithm {
        LbAlgorithm::RoundRobin => l3.append("roundrobin"),
        LbAlgorithm::WeightedLatency => l3.append("weightedlatency"),
        LbAlgorithm::WeightedMetrics => l3.append("weightedmetrics"),
    }
    push_line(out, l3);
    assert(texts(out@) =~= start + route_head(i as nat, *r));
    let ghost head_end = texts(out@);
    let ghost ss = pool_groups(r.pools@);
    let mut j: usize = 0;
    assert(ss.take(0).flatten_alt() =~= Seq::<Seq<char>>::empty());
    while j < r.pools.len()
        invariant
            j <= r.pools@.len(),
            ss == pool_groups(r.pools@),
            head_end == start + route_head(i as nat, *r),
            texts(out@) == head_end + ss.take(j as int).flatten_alt(),
        decreases r.pools@.len() - j,
    {
        push_origin_lines(out, &r.pools[j]);
        proof {
            lemma_flatten_take(ss, j as int);
        }
        j = j + 1;
    }
    assert(ss.take(j as int) =~= ss);
    let ghost pools_end = texts(out@);
    match &r.ratelimit {
        Some(rl) => push_line(out, rate_line("    ", rl)),
        None => {},
    }
    assert(texts(out@) =~= pools_end + route_rate_line(*r));
    assert(texts(out@) =~= start + route_lines(i as nat, *r));
}

fn push_header(out: &mut Vec<String>, config: &ProxyConfig, version: &str)
    ensures
        texts(final(out)@) == texts(old(out)@) + header_lines(*config, version@),
{
    let ghost start = texts(out@);
    let mut l0 = String::from_str("  ");
    l0.append(green("✓").as_str());
    l0.append(" upstreamer v");
    l0.append(version);
    l0.append(" — ");
    l0.append(green("configuration valid").as_str());
    push_line(out, l0);
    push_line(out, String::from_str(""));
    let mut l1 = String::from_str("  ");
    l1.append(dim("listen:").as_str());
    l1.append(" ");
    l1.append(config.listen.as_str());
    push_line(out, l1);
    let mut l2 = String::from_str("  ");
    l2.append(dim("metrics:").as_str());
    l2.append(" ");
    l2.append(config.metrics_addr.as_str());
    push_line(out, l2);
    push_line(out, String::from_str(""));
    let mut l3 = String::from_str("  ");
    l3.append(dim("routes:").as_str());
    l3.append(" ");
    l3.append(decimal_string(config.routes.len() as u64).as_str());
    push_line(out, l3);
    assert(texts(out@) =~= start + header_lines(*config, version@));
}

fn push_routes(out: &mut Vec<String>, routes: &Vec<RouteConfig>)
    ensures
        texts(final(out)@) == texts(old(out)@) + routes_block(routes@),
{
    let ghost start = texts(out@);
    let ghost ss = route_groups(routes@);
    let mut i: usize = 0;
    assert(ss.take(0).flatten_alt() =~= Seq::<Seq<char>>::empty());
    while i < routes.len()
        invariant
            i <= routes@.len(),
            ss == route_groups(routes@),
            texts(out@) == start + ss.take(i as int).flatten_alt(),
        decreases routes@.len() - i,
    {
        push_route_lines(out, i, &routes[i]);
        proof {
            lemma_flatten_take(ss, i as int);
        }
        i = i + 1;
    }
    assert(ss.take(i as int) =~= ss);
}

fn rate_line(indent: &str, rl: &RateLimitConfig) -> (r: String)
    ensures
        r@ == indent@ + dim_text("ratelimit:"@) + " "@ + rate_text(*rl),
{
    let mut l = String::from_str(indent);
    l.append(dim("ratelimit:").as_str());
    l.append(" ");
    l.append(decimal_string(rl.rate as u64).as_str());
    l.append("/s burst=");
    l.append(decimal_string(rl.burst as u64).as_str());
    l
}

fn push_global_rate(out: &mut Vec<String>, config: &ProxyConfig)
    ensures
        texts(final(out)@) == texts(old(out)@) + global_rate_lines(*config),
{
    let ghost start = texts(out@);
    match &config.ratelimit {
        Some(rl) => {
            push_line(out, String::from_str(""));
            push_line(out, rate_line("  ", rl));
        },
        None => {},
    }
    assert(texts(out@) =~= start + global_rate_lines(*config));
}

fn push_health(out: &mut Vec<String>, config: &ProxyConfig)
    requires
        config.health.active.interval.wf(),
        config.health.active.timeout.wf(),
    ensures
        texts(final(out)@) == texts(old(out)@) + health_lines(*config),
{
    let ghost start = texts(out@);
    let a = &config.health.active;
    let p = &config.health.passive;
    push_line(out, String::from_str(""));
    let mut h0 = String::from_str("  ");
    h0.append(dim("health:").as_str());
    push_line(out, h0);
    let mut h1 = String::from_str("    ");
    h1.append(dim("active:").as_str());
    if a.enabled {
        h1.append(" ");
        h1.append(green("on").as_str());
        h1.append(" interval=");
        h1.append(duration_debug(a.interval).as_str());
        h1.append(" timeout=");
        h1.append(duration_debug(a.timeout).as_str());
        h1.append(" thresholds=");
        h1.append(decimal_string(a.healthy_threshold as u64).as_str());
        h1.append("/");
        h1.append(decimal_string(a.unhealthy_threshold as u64).as_str());
    } else {
        h1.append(" \x1b[31moff\x1b[0m");
    }
    push_line(out, h1);
    let mut h2 = String::from_str("    ");
    h2.append(dim("passive:").as_str());
    h2.append(" failures=");
    h2.append(decimal_string(p.failure_threshold as u64).as_str());
    h2.append(" successes=");
    h2.append(decimal_string(p.success_threshold as u64).as_str());
    push_line(out, h2);
    assert(texts(out@) =~= start + health_lines(*config));
}

fn push_kubernetes(out: &mut Vec<String>, config: &ProxyConfig)
    ensures
        texts(final(out)@) == texts(old(out)@) + kubernetes_lines(*config),
{
    let ghost start = texts(out@);
    match &config.kubernetes {
        Some(k) => {
            push_line(out, String::from_str(""));
            let mut l = String::from_str("  ");
            l.append(dim("kubernetes:").as_str());
            l.append(" ns=");
            match &k.namespace {
                Some(ns) => l.append(ns.as_str()),
                None => l.append("default"),
            }
            l.append(" selector=");
            match &k.label_selector {
                Some(sel) => l.append(sel.as_str()),
                None => l.append("(none)"),
            }
            push_line(out, l);
        },
        None => {},
    }
    assert(texts(out@) =~= start + kubernetes_lines(*config));
}

fn push_error_pages(out: &mut Vec<String>, config: &ProxyConfig)
    ensures
        texts(final(out)@) == texts(old(out)@) + error_page_lines(*config),
{
    let ghost start = texts(out@);
    match &config.error_pages {
        Some(ep) => {
            push_line(out, String::from_str(""));
            let mut l = String::from_str("  ");
            l.append(dim("error_pages:").as_str());
            l.append(" ");
            l.append(ep.directory.as_str());
            push_line(out, l);
            let ghost mid = texts(out@);
            let ghost lines = page_lines(ep.pages@);
            let mut k: usize = 0;
            while k < ep.pages.len()
                invariant
                    k <= ep.pages@.len(),
                    lines == page_lines(ep.pages@),
                    texts(out@) == mid + lines.take(k as int),
                decreases ep.pages@.len() - k,
            {
                let pg = &ep.pages[k];
                let mut pl = String::from_str("    ");
                pl.append(decimal_string(pg.code as u64).as_str());
                pl.append(" → ");
                pl.append(pg.file.as_str());
                push_line(out, pl);
                assert(lines.take(k + 1) =~= lines.take(k as int).push(lines[k as int]));
                k = k + 1;
            }
            assert(lines.take(k as int) =~= lines);
            assert(texts(out@) =~= start + error_page_lines(*config));
        },
        None => {
            assert(texts(out@) =~= start + error_page_lines(*config));
        },
    }
}

/// The lines that `--validate` prints for `config`, program version
/// `version` (see `summary_lines`).
pub fn config_summary(config: &ProxyConfig, version: &str) -> (r: Vec<String>)
    requires
        config.health.active.interval.wf(),
        config.health.active.timeout.wf(),
    ensures
        texts(r@) == summary_lines(*config, version@),
{
    let mut out: Vec<String> = Vec::new();
    assert(texts(out@) =~= Seq::<Seq<char>>::empty());
    push_header(&mut out, config, version);
    assert(texts(out@) =~= header_lines(*config, version@));
    push_routes(&mut out, &config.routes);
    push_global_rate(&mut out, config);
    push_health(&mut out, config);
    push_kubernetes(&mut out, config);
    push_error_pages(&mut out, config);
    out
}

} // verus!
