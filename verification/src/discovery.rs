//! Kubernetes Service discovery: which origin a Service stands for, and the
//! discovered origins of each pool.
use crate::origin_url::{url_parse, OriginUrl, OriginUrlView};
use crate::text::{decimal, decimal_string, parse_u16, parse_u16_spec, str_eq};
use vstd::prelude::*;

verus! {

/// Annotation naming the pool a Service feeds.
pub const POOL_ANNOTATION: &'static str = "upstreamer.ora.ooo/pool";

/// Annotation naming the port to use for a Service.
pub const PORT_ANNOTATION: &'static str = "upstreamer.ora.ooo/port";

/// What discovery reads of a Kubernetes Service: its name, its annotations
/// (each key once), and, when it has a spec, the cluster IP and the ports.
pub struct ServiceInfo {
    pub name: Option<String>,
    pub annotations: Option<Vec<(String, String)>>,
    pub spec: Option<ServiceSpecInfo>,
}

/// What discovery reads of a Service spec.
pub struct ServiceSpecInfo {
    pub cluster_ip: Option<String>,
    pub ports: Option<Vec<i32>>,
}

/// The value of the first annotation with key `key`.
pub open spec fn annotation(anns: Seq<(String, String)>, key: Seq<char>) -> Option<Seq<char>>
    decreases anns.len(),
{
    if anns.len() == 0 {
        None
    } else if anns[0].0@ == key {
        Some(anns[0].1@)
    } else {
        annotation(anns.drop_first(), key)
    }
}

/// The value of annotation `key`, when there are annotations.
pub open spec fn opt_annotation(anns: Option<Vec<(String, String)>>, key: Seq<char>) -> Option<
    Seq<char>,
> {
    match anns {
        Some(a) => annotation(a@, key),
        None => None,
    }
}

/// The port a Service is reached on: the port annotation when present
/// (parsed as a `u16`), else the first spec port when it is a valid `u16`.
pub open spec fn service_port(svc: ServiceInfo, spec: ServiceSpecInfo) -> Option<u16> {
    match opt_annotation(svc.annotations, PORT_ANNOTATION@) {
        Some(p) => parse_u16_spec(p),
        None => match spec.ports {
            Some(ports) => if ports@.len() > 0 && 0 <= ports@[0] <= 65535 {
                Some(ports@[0] as u16)
            } else {
                None
            },
            None => None,
        },
    }
}

/// The URL text `http://<cluster ip>:<port>`.
pub open spec fn origin_text(ip: Seq<char>, port: u16) -> Seq<char> {
    "http://"@ + ip + ":"@ + decimal(port as nat)
}

/// The URL text of a Service: it needs a name, a spec with a cluster IP, and
/// a port.
pub open spec fn service_url_text(svc: ServiceInfo) -> Option<Seq<char>> {
    match (svc.name, svc.spec) {
        (Some(_), Some(spec)) => match spec.cluster_ip {
            Some(ip) => match service_port(svc, spec) {
                Some(port) => Some(origin_text(ip@, port)),
                None => None,
            },
            None => None,
        },
        _ => None,
    }
}

/// The pool a Service feeds: the pool annotation, else the Service name.
pub open spec fn service_pool(svc: ServiceInfo) -> Seq<char> {
    match opt_annotation(svc.annotations, POOL_ANNOTATION@) {
        Some(p) => p,
        None => match svc.name {
            Some(n) => n@,
            None => Seq::empty(),
        },
    }
}

/// The (pool, origin) a Service stands for, given what parsing its URL text
/// gave: none when the text did not parse.
pub open spec fn origin_of_parsed(svc: ServiceInfo, parsed: Option<OriginUrlView>) -> Option<
    (Seq<char>, OriginUrlView),
> {
    match parsed {
        Some(u) => Some((service_pool(svc), u)),
        None => None,
    }
}

/// The (pool, origin) a Service stands for: it needs a URL text (see
/// `service_url_text`) that parses.
pub open spec fn service_origin(svc: ServiceInfo) -> Option<(Seq<char>, OriginUrlView)> {
    match service_url_text(svc) {
        Some(t) => origin_of_parsed(svc, url_parse(t)),
        None => None,
    }
}

fn find_annotation(anns: &Option<Vec<(String, String)>>, key: &str) -> (r: Option<String>)
    ensures
        r.deep_view() == opt_annotation(*anns, key@),
{
    match anns {
        None => None,
        Some(a) => {
            let mut i: usize = 0;
            assert(a@.skip(0) =~= a@);
            while i < a.len()
                invariant
                    i <= a@.len(),
                    opt_annotation(*anns, key@) == annotation(a@, key@),
                    annotation(a@, key@) == annotation(a@.skip(i as int), key@),
                decreases a@.len() - i,
            {
                assert(a@.skip(i as int).drop_first() =~= a@.skip(i + 1));
                if str_eq(a[i].0.as_str(), key) {
                    assert(a@.skip(i as int)[0] == a@[i as int]);
                    assert(annotation(a@.skip(i as int), key@) == Some(a@[i as int].1@));
                    let v = a[i].1.clone();
                    assert(Some(v).deep_view() == Some(v@));
                    return Some(v);
                }
                i = i + 1;
            }
            None
        },
    }
}

/// The URL text `http://<cluster ip>:<port>` of a Service, when it has a
/// name, a cluster IP and a port.
pub fn service_url(svc: &ServiceInfo) -> (r: Option<String>)
    ensures
        r.deep_view() == service_url_text(*svc),
{
    if svc.name.is_none() {
        return None;
    }
    let spec = match &svc.spec {
        Some(s) => s,
        None => return None,
    };
    let ip = match &spec.cluster_ip {
        Some(ip) => ip,
        None => return None,
    };
    let port: u16 = match find_annotation(&svc.annotations, PORT_ANNOTATION) {
        Some(p) => match parse_u16(p.as_str()) {
            Some(v) => v,
            None => return None,
        },
        None => match &spec.ports {
            Some(ports) => {
                if ports.len() > 0 && 0 <= ports[0] && ports[0] <= 65535 {
                    ports[0] as u16
                } else {
                    return None;
                }
            },
            None => return None,
        },
    };
    let mut text = String::from_str("http://");
    text.append(ip.as_str());
    text.append(":");
    let digits = decimal_string(port as u64);
    text.append(digits.as_str());
    let r = Some(text);
    assert(r.deep_view() == Some(origin_text(ip@, port)));
    r
}

/// The view of an optional URL.
pub open spec fn opt_url_view(o: Option<OriginUrl>) -> Option<OriginUrlView> {
    match o {
        Some(u) => Some(u@),
        None => None,
    }
}

/// The pool and origin of a Service, given what parsing its URL text gave.
pub fn origin_from_parsed(svc: &ServiceInfo, parsed: Option<OriginUrl>) -> (r: Option<
    (String, OriginUrl),
>)
    ensures
        match r {
            Some((pool, url)) => origin_of_parsed(*svc, opt_url_view(parsed)) == Some(
                (pool@, url@),
            ),
            None => origin_of_parsed(*svc, opt_url_view(parsed)) is None,
        },
{
    let url = match parsed {
        Some(u) => u,
        None => return None,
    };
    let pool = match find_annotation(&svc.annotations, POOL_ANNOTATION) {
        Some(p) => p,
        None => match &svc.name {
            Some(n) => n.clone(),
            None => String::new(),
        },
    };
    Some((pool, url))
}

/// The pool and origin URL a Service stands for, if it stands for one.
pub fn service_to_origin(svc: &ServiceInfo) -> (r: Option<(String, OriginUrl)>)
    ensures
        match r {
            Some((pool, url)) => service_origin(*svc) == Some((pool@, url@)),
            None => service_origin(*svc) is None,
        },
{
    let text = match service_url(svc) {
        Some(t) => t,
        None => return None,
    };
    let parsed = OriginUrl::parse(text.as_str());
    proof {
        assert(opt_url_view(parsed) == url_parse(text@));
    }
    origin_from_parsed(svc, parsed)
}

/// The views of a list of URLs.
pub open spec fn url_views(v: Seq<OriginUrl>) -> Seq<OriginUrlView> {
    v.map_values(|u: OriginUrl| u@)
}

/// The URLs recorded for pool `name`: those of the first entry with that
/// name.
pub open spec fn pool_lookup(pools: Seq<(String, Vec<OriginUrl>)>, name: Seq<char>) -> Option<
    Seq<OriginUrlView>,
>
    decreases pools.len(),
{
    if pools.len() == 0 {
        None
    } else if pools[0].0@ == name {
        Some(url_views(pools[0].1@))
    } else {
        pool_lookup(pools.drop_first(), name)
    }
}

/// The origins discovered for each pool.
pub struct K8sOrigins {
    pub pools: Vec<(String, Vec<OriginUrl>)>,
}

impl K8sOrigins {
    /// The origins recorded for pool `name`.
    pub open spec fn lookup(&self, name: Seq<char>) -> Option<Seq<OriginUrlView>> {
        pool_lookup(self.pools@, name)
    }

    /// No pool has discovered origins.
    pub fn new() -> (r: Self)
        ensures
            forall|k: Seq<char>| #[trigger] r.lookup(k) is None,
    {
        K8sOrigins { pools: Vec::new() }
    }

    /// The index of the first entry for pool `name`, if any.
    pub fn find(&self, name: &str) -> (r: Option<usize>)
        ensures
            match r {
                Some(i) => i < self.pools@.len() && self.pools@[i as int].0@ == name@
                    && self.lookup(name@) == Some(url_views(self.pools@[i as int].1@)) && forall|j: int|
                    0 <= j < i ==> #[trigger] self.pools@[j].0@ != name@,
                None => self.lookup(name@) is None,
            },
    {
        let mut i: usize = 0;
        assert(self.pools@.skip(0) =~= self.pools@);
        while i < self.pools.len()
            invariant
                i <= self.pools@.len(),
                forall|j: int| 0 <= j < i ==> #[trigger] self.pools@[j].0@ != name@,
                pool_lookup(self.pools@, name@) == pool_lookup(self.pools@.skip(i as int), name@),
            decreases self.pools@.len() - i,
        {
            assert(self.pools@.skip(i as int).drop_first() =~= self.pools@.skip(i + 1));
            if str_eq(self.pools[i].0.as_str(), name) {
                assert(self.pools@.skip(i as int)[0] == self.pools@[i as int]);
                return Some(i);
            }
            i = i + 1;
        }
        None
    }

    /// Records `url` as the one origin of `pool`, replacing what was recorded
    /// for it; every other pool keeps its origins.
    pub fn set_pool(&mut self, pool: String, url: OriginUrl)
        ensures
            forall|k: Seq<char>| #[trigger]
                final(self).lookup(k) == if k == pool@ {
                    Some(seq![url@])
                } else {
                    old(self).lookup(k)
                },
    {
        let mut urls: Vec<OriginUrl> = Vec::new();
        urls.push(url);
        assert(url_views(urls@) =~= seq![url@]);
        match self.find(pool.as_str()) {
            Some(i) => {
                let ghost before = self.pools@;
                let name = self.pools[i].0.clone();
                self.pools.set(i, (name, urls));
                proof {
                    lemma_lookup_update(before, i as int, self.pools@, pool@);
                }
            },
            None => {
                let ghost before = self.pools@;
                self.pools.push((pool, urls));
                proof {
                    lemma_lookup_push(before, self.pools@);
                }
            },
        }
    }
}

proof fn lemma_lookup_update(
    before: Seq<(String, Vec<OriginUrl>)>,
    i: int,
    after: Seq<(String, Vec<OriginUrl>)>,
    name: Seq<char>,
)
    requires
        0 <= i < before.len(),
        after.len() == before.len(),
        before[i].0@ == name,
        after[i].0@ == name,
        forall|j: int| 0 <= j < i ==> #[trigger] before[j].0@ != name,
        forall|j: int| 0 <= j < before.len() && j != i ==> after[j] == before[j],
    ensures
        forall|k: Seq<char>| #[trigger]
            pool_lookup(after, k) == if k == name {
                Some(url_views(after[i].1@))
            } else {
                pool_lookup(before, k)
            },
    decreases before.len(),
{
    if i > 0 {
        assert(before[0].0@ != name);
        assert(after[0] == before[0]);
        lemma_lookup_update(before.drop_first(), i - 1, after.drop_first(), name);
        assert(after.drop_first()[i - 1] == after[i]);
    } else {
        assert(after.drop_first() =~= before.drop_first());
    }
    assert forall|k: Seq<char>| #[trigger]
        pool_lookup(after, k) == if k == name {
            Some(url_views(after[i].1@))
        } else {
            pool_lookup(before, k)
        } by {
        if i > 0 {
            if before[0].0@ == k {
            } else {
                assert(pool_lookup(after, k) == pool_lookup(after.drop_first(), k));
                assert(pool_lookup(before, k) == pool_lookup(before.drop_first(), k));
            }
        } else {
            if k != name {
                assert(pool_lookup(after, k) == pool_lookup(after.drop_first(), k));
                assert(pool_lookup(before, k) == pool_lookup(before.drop_first(), k));
            }
        }
    }
}

proof fn lemma_lookup_push(before: Seq<(String, Vec<OriginUrl>)>, after: Seq<(String, Vec<OriginUrl>)>)
    requires
        after.len() == before.len() + 1,
        forall|j: int| 0 <= j < before.len() ==> after[j] == before[j],
        pool_lookup(before, after[before.len() as int].0@) is None,
    ensures
        forall|k: Seq<char>| #[trigger]
            pool_lookup(after, k) == if k == after[before.len() as int].0@ {
                Some(url_views(after[before.len() as int].1@))
            } else {
                pool_lookup(before, k)
            },
    decreases before.len(),
{
    let last = after[before.len() as int];
    if before.len() > 0 {
        assert(after[0] == before[0]);
        assert(after.drop_first()[before.len() - 1] == last);
        assert(before[0].0@ != last.0@);
        lemma_lookup_push(before.drop_first(), after.drop_first());
    }
    assert forall|k: Seq<char>| #[trigger]
        pool_lookup(after, k) == if k == last.0@ {
            Some(url_views(last.1@))
        } else {
            pool_lookup(before, k)
        } by {
        if before.len() > 0 {
            if before[0].0@ != k {
                assert(pool_lookup(after, k) == pool_lookup(after.drop_first(), k));
                assert(pool_lookup(before, k) == pool_lookup(before.drop_first(), k));
            }
        } else {
            assert(after.drop_first().len() == 0);
        }
    }
}

} // verus!
