//! Configuration as the router's logic reads it.
//!
//! Reading and parsing the TOML file, and turning its floating-point
//! settings (costs, latencies, throughputs, fallback scores) into the
//! integer order keys used here, is the job of the program around the
//! library. An order key `k(x)` of a float `x` is an integer with
//! `k(x) < k(y)` exactly when `x < y`, so every comparison the routing rules
//! make on floats is made on keys instead.

use vstd::prelude::*;

use crate::json::JsonValue;

verus! {

/// Whether a plugin or classifier is on by default, plus its settings.
#[derive(Debug, PartialEq)]
pub struct EntryConfig {
    pub enabled: bool,
    pub settings: Vec<(String, JsonValue)>,
}

/// A `(provider, model)` pair a `random` rule may pick.
#[derive(Debug, Clone, PartialEq)]
pub struct RandomCandidate {
    pub provider: String,
    pub model: String,
}

/// One entry of the `routers` chain. Each rule either resolves a request to
/// a provider (and a model name to send it) or passes through.
///
/// `providers` lists restrict which providers a rule considers; an empty
/// list means every configured provider.
#[derive(Debug, Clone, PartialEq)]
pub enum RouterRule {
    /// Matches when the request's model starts with `model_prefix`.
    Prefix { model_prefix: String, provider: String, rewrite_model: Option<String> },
    /// Matches when the request carries the classifier tag `tag`.
    Tag { tag: String, provider: String, rewrite_model: Option<String> },
    /// Picks the cheapest candidate; `max_cost_per_1m_tokens` (an order key)
    /// excludes dearer ones.
    Price { providers: Vec<String>, max_cost_per_1m_tokens: Option<i64> },
    /// Picks the candidate with the lowest declared latency; candidates that
    /// declare none are excluded, as are those above `max_latency_ms`.
    Latency { providers: Vec<String>, max_latency_ms: Option<i64> },
    /// Picks the candidate with the highest declared throughput; candidates
    /// that declare none are excluded, as are those below
    /// `min_tokens_per_sec`.
    Throughput { providers: Vec<String>, min_tokens_per_sec: Option<i64> },
    /// Picks the candidate with the highest score
    /// `quality_bias * quality - (1 - quality_bias) * cost_per_1m_tokens`.
    /// `scores` holds, for each configured provider name, the order key of
    /// that score under this rule's `quality_bias`.
    Fallback { providers: Vec<String>, scores: Vec<(String, i64)>, rewrite_model: Option<String> },
    /// Matches when `provider` reported having the requested model.
    Discover { provider: String },
    /// Picks a provider at random (or a `(provider, model)` pair from
    /// `candidates`, when that list is non-empty).
    Random { providers: Vec<String>, rewrite_model: Option<String>, candidates: Vec<RandomCandidate> },
}

/// The wire format a provider's API speaks.
#[derive(Debug, Clone, Copy, PartialEq, Eq, Structural)]
pub enum ProviderFormat {
    OpenAi,
    Anthropic,
    /// Ollama's native API; `base_url` is Ollama's root.
    Ollama,
}

#[derive(Debug, Clone, PartialEq)]
pub struct ProviderConfig {
    /// Name used to refer to this provider from `routers`.
    pub name: String,
    pub format: ProviderFormat,
    pub base_url: String,
    /// Name of an environment variable holding the API key, if one is needed.
    pub api_key_env: Option<String>,
    /// Skip this provider at startup when its key is unset.
    pub strict: bool,
    /// Order key of the blended cost in USD per 1M tokens.
    pub cost_per_1m_tokens: i64,
    /// Order key of the typical latency, if declared.
    pub latency_ms: Option<i64>,
    /// Order key of the typical output throughput, if declared.
    pub throughput_tokens_per_sec: Option<i64>,
}

/// Records every request and response as a line of JSON.
#[derive(Debug, Clone, PartialEq)]
pub struct LoggingConfig {
    pub enabled: bool,
    pub path: String,
}

impl Default for LoggingConfig {
    fn default() -> (r: LoggingConfig)
        ensures
            !r.enabled,
            r.path@ == "logs/requests.jsonl"@,
    {
        LoggingConfig { enabled: false, path: String::from_str("logs/requests.jsonl") }
    }
}

#[derive(Debug, Clone, PartialEq)]
pub struct ServerConfig {
    /// Address to bind; only this machine can reach the default.
    pub host: String,
    pub port: u16,
    /// Serve the live request dashboard at `/dashboard`.
    pub dashboard: bool,
    /// Environment variable holding the key clients must present; the
    /// server is open when it is not set.
    pub api_key_env: Option<String>,
}

impl Default for ServerConfig {
    fn default() -> (r: ServerConfig)
        ensures
            r.host@ == "127.0.0.1"@,
            r.port == 8090,
            !r.dashboard,
            r.api_key_env is None,
    {
        ServerConfig { host: String::from_str("127.0.0.1"), port: 8090, dashboard: false, api_key_env: None }
    }
}

#[derive(Debug)]
pub struct Config {
    pub server: ServerConfig,
    pub logging: LoggingConfig,
    pub providers: Vec<ProviderConfig>,
    /// Routing rules, evaluated in order; the first that resolves wins.
    pub routers: Vec<RouterRule>,
    /// Plugins available to requests, keyed by plugin id.
    pub plugins: Vec<(String, EntryConfig)>,
    /// Classifiers run on every request before routing, keyed by id.
    pub classifiers: Vec<(String, EntryConfig)>,
    /// Classifiers run on every response, keyed by id.
    pub response_classifiers: Vec<(String, EntryConfig)>,
}

/// The entry bound to `id` in a keyed table (the last one with that id).
pub open spec fn entry_for(table: Seq<(String, EntryConfig)>, id: Seq<char>) -> Option<EntryConfig>
    decreases table.len(),
{
    if table.len() == 0 {
        None
    } else if table.last().0@ == id {
        Some(table.last().1)
    } else {
        entry_for(table.drop_last(), id)
    }
}

/// The entry bound to `id` in a keyed table (the last one with that id).
pub fn find_entry<'a>(table: &'a Vec<(String, EntryConfig)>, id: &str) -> (r: Option<&'a EntryConfig>)
    ensures
        match r {
            Some(e) => entry_for(table@, id@) == Some(*e),
            None => entry_for(table@, id@).is_none(),
        },
{
    let mut i: usize = table.len();
    proof {
        assert(table@.take(i as int) =~= table@);
    }
    while i > 0
        invariant
            i <= table.len(),
            entry_for(table@, id@) == entry_for(table@.take(i as int), id@),
        decreases i,
    {
        proof {
            assert(table@.take(i as int).drop_last() =~= table@.take(i - 1));
            assert(table@.take(i as int).last() == table@[i - 1]);
        }
        if crate::text::str_eq(table[i - 1].0.as_str(), id) {
            return Some(&table[i - 1].1);
        }
        i = i - 1;
    }
    None
}

} // verus!
