//! The per-origin health report served at `/healthz/upstreams`: each tracked
//! origin with its health flag and counters, written as JSON.
use crate::balance::OriginState;
use crate::tables::lists_entries;
use vstd::prelude::*;

verus! {

/// A scalar value of the report.
#[derive(Clone, Copy, Debug, PartialEq, Eq, Structural)]
pub enum JsonScalar {
    Bool(bool),
    Number(u64),
}

/// The character view of a list of named values.
pub open spec fn fields_view(fields: Seq<(String, JsonScalar)>) -> Seq<(Seq<char>, JsonScalar)> {
    fields.map_values(|f: (String, JsonScalar)| (f.0@, f.1))
}

/// The character view of a list of named objects.
pub open spec fn report_view(entries: Seq<(String, Vec<(String, JsonScalar)>)>) -> Seq<
    (Seq<char>, Seq<(Seq<char>, JsonScalar)>),
> {
    entries.map_values(|e: (String, Vec<(String, JsonScalar)>)| (e.0@, fields_view(e.1@)))
}

/// The compact JSON text that `serde_json` writes for the object whose one
/// member `outer` holds, for each entry, a member named by its key whose
/// value is the object of its named scalars.
pub uninterp spec fn json_nested_text(
    outer: Seq<char>,
    entries: Seq<(Seq<char>, Seq<(Seq<char>, JsonScalar)>)>,
) -> Seq<char>;

/// Builds `serde_json::Value` objects from `entries`, puts them under
/// `outer`, and writes the document with `Value::to_string`. The text is a
/// function of the arguments alone (without the `preserve_order` feature a
/// `serde_json::Map` orders its members by name); it is named
/// `json_nested_text`, not stated.
#[verifier::external_body]
pub(crate) fn json_nested(outer: &str, entries: &Vec<(String, Vec<(String, JsonScalar)>)>) -> (r:
    String)
    ensures
        r@ == json_nested_text(outer@, report_view(entries@)),
{
    let scalar = |v: &JsonScalar| match v {
        JsonScalar::Bool(b) => serde_json::Value::Bool(*b),
        JsonScalar::Number(n) => serde_json::Value::from(*n),
    };
    let object = |fs: &Vec<(String, JsonScalar)>|
        serde_json::Value::Object(fs.iter().map(|(n, v)| (n.clone(), scalar(v))).collect());
    let inner = entries.iter().map(|(k, fs)| (k.clone(), object(fs))).collect();
    let mut root = serde_json::Map::new();
    root.insert(outer.to_string(), serde_json::Value::Object(inner));
    serde_json::Value::Object(root).to_string()
}

/// The report fields of one origin, in the order they are listed.
pub open spec fn state_fields(s: OriginState) -> Seq<(Seq<char>, JsonScalar)> {
    seq![
        ("healthy"@, JsonScalar::Bool(s.healthy)),
        ("consecutive_successes"@, JsonScalar::Number(s.consecutive_successes as u64)),
        ("consecutive_failures"@, JsonScalar::Number(s.consecutive_failures as u64)),
        ("total_requests"@, JsonScalar::Number(s.total_requests)),
        ("total_failures"@, JsonScalar::Number(s.total_failures)),
        ("ewma_latency_ns"@, JsonScalar::Number(s.ewma_latency_ns)),
    ]
}

/// The report entries of a snapshot: each origin's key with its fields.
pub open spec fn snapshot_report(snapshot: Seq<(String, OriginState)>) -> Seq<
    (Seq<char>, Seq<(Seq<char>, JsonScalar)>),
> {
    snapshot.map_values(|e: (String, OriginState)| (e.0@, state_fields(e.1)))
}

fn named(name: &str, value: JsonScalar) -> (r: (String, JsonScalar))
    ensures
        r.0@ == name@,
        r.1 == value,
{
    (String::from_str(name), value)
}

/// The report fields of one origin.
pub fn state_report(s: &OriginState) -> (r: Vec<(String, JsonScalar)>)
    ensures
        fields_view(r@) == state_fields(*s),
{
    let mut v: Vec<(String, JsonScalar)> = Vec::new();
    v.push(named("healthy", JsonScalar::Bool(s.healthy)));
    v.push(named("consecutive_successes", JsonScalar::Number(s.consecutive_successes as u64)));
    v.push(named("consecutive_failures", JsonScalar::Number(s.consecutive_failures as u64)));
    v.push(named("total_requests", JsonScalar::Number(s.total_requests)));
    v.push(named("total_failures", JsonScalar::Number(s.total_failures)));
    v.push(named("ewma_latency_ns", JsonScalar::Number(s.ewma_latency_ns)));
    assert(fields_view(v@) =~= state_fields(*s));
    v
}

/// The report entries of a snapshot of the origin states, in its order.
pub fn upstreams_report(snapshot: &Vec<(String, OriginState)>) -> (r: Vec<
    (String, Vec<(String, JsonScalar)>),
>)
    ensures
        report_view(r@) == snapshot_report(snapshot@),
{
    let mut out: Vec<(String, Vec<(String, JsonScalar)>)> = Vec::new();
    let mut i: usize = 0;
    while i < snapshot.len()
        invariant
            i <= snapshot@.len(),
            out@.len() == i,
            report_view(out@) =~= snapshot_report(snapshot@.take(i as int)),
        decreases snapshot@.len() - i,
    {
        let fields = state_report(&snapshot[i].1);
        let key = snapshot[i].0.clone();
        let ghost before = out@;
        out.push((key, fields));
        proof {
            let now = snapshot@.take(i + 1);
            assert(now =~= snapshot@.take(i as int).push(snapshot@[i as int]));
            assert forall|j: int| 0 <= j < i + 1 implies #[trigger] report_view(out@)[j]
                == snapshot_report(now)[j] by {
                if j < i {
                    assert(out@[j] == before[j]);
                    assert(report_view(before)[j] == snapshot_report(snapshot@.take(i as int))[j]);
                    assert(snapshot@.take(i as int)[j] == now[j]);
                } else {
                    assert(out@[j].0@ == now[j].0@);
                    assert(fields_view(out@[j].1@) == state_fields(now[j].1));
                }
            }
            assert(report_view(out@) =~= snapshot_report(now));
        }
        i = i + 1;
    }
    assert(snapshot@.take(snapshot@.len() as int) =~= snapshot@);
    out
}

/// The body served at `/healthz/upstreams` for a snapshot of the origin
/// states: `{"origins": {key: {fields...}, ...}}`.
pub fn upstreams_body(snapshot: &Vec<(String, OriginState)>) -> (r: String)
    ensures
        r@ == json_nested_text("origins"@, snapshot_report(snapshot@)),
{
    let entries = upstreams_report(snapshot);
    json_nested("origins", &entries)
}

/// The report of a snapshot that lists an origin-state map names each
/// tracked origin exactly once, each with the fields of its own state.
pub proof fn lemma_report_names_each_origin_once(
    m: Map<Seq<char>, OriginState>,
    snapshot: Seq<(String, OriginState)>,
)
    requires
        lists_entries(m, snapshot),
    ensures
        snapshot_report(snapshot).len() == snapshot.len(),
        forall|i: int|
            0 <= i < snapshot.len() ==> {
                let e = #[trigger] snapshot_report(snapshot)[i];
                m.contains_key(e.0) && e.1 == state_fields(m[e.0])
            },
        forall|k: Seq<char>|
            #[trigger] m.contains_key(k) ==> exists|i: int|
                0 <= i < snapshot.len() && snapshot_report(snapshot)[i].0 == k,
        forall|i: int, j: int|
            0 <= i < j < snapshot.len() ==> snapshot_report(snapshot)[i].0 != snapshot_report(
                snapshot,
            )[j].0,
{
    let r = snapshot_report(snapshot);
    assert forall|k: Seq<char>| #[trigger] m.contains_key(k) implies exists|i: int|
        0 <= i < snapshot.len() && r[i].0 == k by {
        let i = choose|i: int| 0 <= i < snapshot.len() && snapshot[i].0@ == k;
        assert(r[i].0 == k);
    }
    assert forall|i: int| 0 <= i < snapshot.len() implies {
        let e = #[trigger] r[i];
        m.contains_key(e.0) && e.1 == state_fields(m[e.0])
    } by {
        assert(m.contains_key(snapshot[i].0@));
    }
    assert forall|i: int, j: int| 0 <= i < j < snapshot.len() implies r[i].0 != r[j].0 by {
        assert(snapshot[i].0@ != snapshot[j].0@);
    }
}

} // verus!
