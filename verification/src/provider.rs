//! A configured upstream LLM backend: where to reach it and what it needs.
//! The HTTP calls themselves are made by the program around the library.

use vstd::prelude::*;

use crate::canonical::ChatRequest;
use crate::config::{ProviderConfig, ProviderFormat};
use crate::text::chars_of;

verus! {

#[derive(Debug, Clone, PartialEq)]
pub struct Provider {
    pub name: String,
    pub format: ProviderFormat,
    /// Base URL with every trailing `/` removed.
    pub base_url: String,
    pub api_key_env: Option<String>,
}

/// `s` with every trailing `/` removed.
pub open spec fn trim_slashes(s: Seq<char>) -> Seq<char>
    decreases s.len(),
{
    if s.len() > 0 && s.last() == '/' {
        trim_slashes(s.drop_last())
    } else {
        s
    }
}

/// The endpoint a chat request goes to for a provider of format `format`.
pub open spec fn chat_endpoint(base: Seq<char>, format: ProviderFormat) -> Seq<char> {
    match format {
        ProviderFormat::OpenAi => base + "/chat/completions"@,
        ProviderFormat::Anthropic => base + "/messages"@,
        ProviderFormat::Ollama => base + "/api/chat"@,
    }
}

/// `s` with every trailing `/` removed.
pub fn trim_trailing_slashes(s: &str) -> (r: String)
    ensures
        r@ == trim_slashes(s@),
{
    let cs = chars_of(s);
    let mut n: usize = cs.len();
    proof {
        assert(cs@.take(n as int) =~= cs@);
    }
    while n > 0 && cs[n - 1] == '/'
        invariant
            n <= cs.len(),
            trim_slashes(cs@) == trim_slashes(cs@.take(n as int)),
        decreases n,
    {
        proof {
            assert(cs@.take(n as int).drop_last() =~= cs@.take(n - 1));
        }
        n = n - 1;
    }
    proof {
        assert(cs@.subrange(0, n as int) =~= cs@.take(n as int));
    }
    crate::text::substring(&cs, 0, n)
}

impl Provider {
    pub fn from_config(config: &ProviderConfig) -> (r: Provider)
        ensures
            r.name == config.name,
            r.format == config.format,
            r.base_url@ == trim_slashes(config.base_url@),
            r.api_key_env == config.api_key_env,
    {
        Provider {
            name: config.name.clone(),
            format: config.format,
            base_url: trim_trailing_slashes(config.base_url.as_str()),
            api_key_env: crate::canonical::copy_opt_string(&config.api_key_env),
        }
    }

    /// The URL a (streaming or not) chat request is posted to.
    pub fn chat_url(&self) -> (r: String)
        ensures
            r@ == chat_endpoint(self.base_url@, self.format),
    {
        match self.format {
            ProviderFormat::OpenAi => crate::text::concat(self.base_url.as_str(), "/chat/completions"),
            ProviderFormat::Anthropic => crate::text::concat(self.base_url.as_str(), "/messages"),
            ProviderFormat::Ollama => crate::text::concat(self.base_url.as_str(), "/api/chat"),
        }
    }

    /// Whether replies from this provider can be streamed: Anthropic-format
    /// upstream streaming is not implemented, so a streamed request routed
    /// there fails.
    pub fn supports_streaming(&self) -> (r: bool)
        ensures
            r == (self.format != ProviderFormat::Anthropic),
    {
        self.format != ProviderFormat::Anthropic
    }

    /// Whether this provider can list its models and report their
    /// capabilities (only Ollama-format providers can).
    pub fn lists_models(&self) -> (r: bool)
        ensures
            r == (self.format == ProviderFormat::Ollama),
    {
        self.format == ProviderFormat::Ollama
    }

    /// The URL that lists an Ollama provider's models (`GET /api/tags`).
    pub fn tags_url(&self) -> (r: String)
        ensures
            r@ == self.base_url@ + "/api/tags"@,
    {
        crate::text::concat(self.base_url.as_str(), "/api/tags")
    }

    /// The URL that reports an Ollama model's capabilities (`POST /api/show`).
    pub fn show_url(&self) -> (r: String)
        ensures
            r@ == self.base_url@ + "/api/show"@,
    {
        crate::text::concat(self.base_url.as_str(), "/api/show")
    }
}

/// The `anthropic-beta` header value needed to forward a request's
/// Anthropic-only fields: only `task_budget` is beta-gated.
pub fn anthropic_beta_header(req: &ChatRequest) -> (r: Option<&'static str>)
    ensures
        req.task_budget.is_some() <==> r.is_some(),
        r matches Some(h) ==> h@ == "task-budgets-2026-03-13"@,
{
    if req.task_budget.is_some() {
        let h = "task-budgets-2026-03-13";
        proof {
            reveal_strlit("task-budgets-2026-03-13");
        }
        Some(h)
    } else {
        None
    }
}

} // verus!
