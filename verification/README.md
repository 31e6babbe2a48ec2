# upstreamer

A reverse proxy library with machine-checked contracts: host and path
routing, round-robin and latency-weighted load balancing, per-client token
bucket rate limiting, passive and active health tracking, Kubernetes Service
discovery, hot reload of the configuration, and custom error pages.

## Layout

- `src/` — the library, written in Verus. Every public function states in
  its `ensures` what it returns or changes, except the two that only read
  the clock (`TokenBucket::idle_nanos` and `TokenBucket::is_stale`), whose
  result the clock decides; the laws that relate several functions are
  public proof functions (`lemma_*`).
  - `config` — the configuration, its defaults and its validation.
  - `route` — host glob and path prefix matching, building routes.
  - `balance` — origin state (EWMA latency, health thresholds) and the
    balancers (`round_robin`, `weighted`).
  - `ratelimit` — token buckets counted exactly in billionths of a token.
  - `state` — the proxy state: routing a request, recording outcomes and
    probes, reloading the configuration, merging discovered origins.
  - `discovery` — which origin a Kubernetes Service stands for.
  - `errors` — custom error pages.
  - `report` — the per-origin health report served at `/healthz/upstreams`,
    written as JSON through `serde_json`.
  - `cli` — command-line arguments and the `--validate` summary text.
  - `procstat` — figures read from `/proc/self/statm` and `/proc/self/stat`.
  - `text`, `origin_url`, `tables` — string helpers, URL parts, and the
    `dashmap` maps and clock the library calls through trusted wrappers.
- `app/` — the program: listeners, HTTP forwarding, the file watcher, the
  Kubernetes watcher, metrics, and the TOML form of the configuration.
- `tests/` — tests of the library on concrete values.
