//! Resolves a request's model to a provider by walking the `routers` chain
//! in order. Each rule either decides a provider (and the model name to send
//! it) or passes through; the first decision that names an available
//! provider wins.

use vstd::prelude::*;

use crate::canonical::views;
use crate::config::{ProviderConfig, RandomCandidate, RouterRule};
use crate::provider::Provider;
use crate::text::{has_prefix, starts_with_str, str_eq};

verus! {

/// Which provider setting a `price`/`latency`/`throughput`/`fallback`
/// rule ranks candidates by.
#[derive(Debug, Clone, Copy, PartialEq, Eq, Structural)]
pub enum Metric {
    /// Lower is better.
    Cost,
    /// Lower is better; providers that declare none are excluded.
    Latency,
    /// Higher is better; providers that declare none are excluded.
    Throughput,
    /// Higher is better: the fallback score from the rule's own table.
    Score,
}

/// What a rule decided: the provider's name and the model to send, or
/// nothing (pass through).
pub type Outcome = Option<(Seq<char>, Seq<char>)>;

pub struct ModelRouter {
    /// The providers kept at startup, in configuration order.
    pub providers: Vec<Provider>,
    /// The configuration of each kept provider, parallel to `providers`.
    pub provider_configs: Vec<ProviderConfig>,
    pub rules: Vec<RouterRule>,
    /// Models each provider reported having, as recorded by
    /// [`ModelRouter::record_models`]; a later entry for a provider shadows
    /// an earlier one.
    pub available_models: Vec<(String, Vec<String>)>,
}

/// The error when no provider survives startup.
#[derive(Debug, Clone, Copy, PartialEq, Eq, Structural)]
pub enum RouterError {
    /// Every provider was skipped (all require API keys that are not set).
    NoProviders,
}

pub open spec fn lower_is_better(m: Metric) -> bool {
    m is Cost || m is Latency
}

/// `v` passes the rule's threshold (`≤` when lower is better, `≥` otherwise).
pub open spec fn within(v: i64, threshold: Option<i64>, m: Metric) -> bool {
    match threshold {
        None => true,
        Some(t) => if lower_is_better(m) { v <= t } else { v >= t },
    }
}

/// `a` is strictly better than `b`.
pub open spec fn better(a: i64, b: i64, m: Metric) -> bool {
    if lower_is_better(m) { a < b } else { a > b }
}

/// The model to send: `rewrite` if set, else the requested model.
pub open spec fn target_model(rewrite: Option<String>, model: Seq<char>) -> Seq<char> {
    match rewrite {
        Some(m) => m@,
        None => model,
    }
}

/// The score bound to `name` in a fallback rule's table (last entry wins).
pub open spec fn score_in(scores: Seq<(String, i64)>, name: Seq<char>) -> Option<i64>
    decreases scores.len(),
{
    if scores.len() == 0 {
        None
    } else if scores.last().0@ == name {
        Some(scores.last().1)
    } else {
        score_in(scores.drop_last(), name)
    }
}

/// The models recorded for `name` (last entry wins).
pub open spec fn models_in(table: Seq<(String, Vec<String>)>, name: Seq<char>) -> Option<Seq<Seq<char>>>
    decreases table.len(),
{
    if table.len() == 0 {
        None
    } else if table.last().0@ == name {
        Some(views(table.last().1@))
    } else {
        models_in(table.drop_last(), name)
    }
}

/// Outcomes a `random` rule may produce: a pair from `candidates` when that
/// list is non-empty; otherwise any of `names` with the target model, or
/// nothing when `names` is empty.
pub open spec fn random_allows(
    candidates: Seq<RandomCandidate>,
    names: Seq<Seq<char>>,
    target: Seq<char>,
    out: Outcome,
) -> bool {
    if candidates.len() > 0 {
        exists|i: int|
            0 <= i < candidates.len() && out == Some(
                (#[trigger] candidates[i].provider@, candidates[i].model@),
            )
    } else if names.len() == 0 {
        out is None
    } else {
        exists|i: int| 0 <= i < names.len() && out == Some((#[trigger] names[i], target))
    }
}

/// `p` is the provider built from configuration `c`.
pub open spec fn built_from(p: Provider, c: ProviderConfig) -> bool {
    &&& p.name == c.name
    &&& p.format == c.format
    &&& p.base_url@ == crate::provider::trim_slashes(c.base_url@)
    &&& p.api_key_env == c.api_key_env
}

/// A provider is skipped at startup when it is strict and its key is
/// missing.
pub open spec fn skipped(c: ProviderConfig, key_missing: bool) -> bool {
    c.api_key_env.is_some() && key_missing && c.strict
}

/// `kept` with `c` in place of the entry of the same name, or `c` appended
/// when there is none (a later provider of the same name replaces an
/// earlier one).
pub open spec fn upsert(kept: Seq<ProviderConfig>, c: ProviderConfig) -> Seq<ProviderConfig> {
    if exists|i: int| 0 <= i < kept.len() && (#[trigger] kept[i]).name@ == c.name@ {
        kept.update(choose|i: int| 0 <= i < kept.len() && (#[trigger] kept[i]).name@ == c.name@, c)
    } else {
        kept.push(c)
    }
}

/// The providers that survive startup, in configuration order.
pub open spec fn kept_configs(cfgs: Seq<ProviderConfig>, missing: Seq<bool>) -> Seq<ProviderConfig>
    decreases cfgs.len(),
{
    if cfgs.len() == 0 {
        Seq::empty()
    } else {
        let prev = kept_configs(cfgs.drop_last(), missing.drop_last());
        if skipped(cfgs.last(), missing.last()) {
            prev
        } else {
            upsert(prev, cfgs.last())
        }
    }
}

/// Names in `s` are unique.
pub open spec fn unique_names(s: Seq<ProviderConfig>) -> bool {
    forall|i: int, j: int| 0 <= i < j < s.len() ==> (#[trigger] s[i]).name@ != (#[trigger] s[j]).name@
}

impl ModelRouter {
    /// Providers and their configurations line up, and names are unique.
    pub open spec fn wf(self) -> bool {
        &&& self.providers@.len() == self.provider_configs@.len()
        &&& forall|i: int|
            0 <= i < self.providers@.len() ==> built_from(#[trigger] self.providers@[i], self.provider_configs@[i])
        &&& forall|i: int|
            0 <= i < self.providers@.len() ==> (#[trigger] self.providers@[i]).name@
                == self.provider_configs@[i].name@
        &&& forall|i: int, j: int|
            0 <= i < j < self.provider_configs@.len() ==> (#[trigger] self.provider_configs@[i]).name@
                != (#[trigger] self.provider_configs@[j]).name@
    }

    /// A provider named `n` was kept at startup.
    pub open spec fn has_provider(self, n: Seq<char>) -> bool {
        exists|i: int| 0 <= i < self.provider_configs@.len() && (#[trigger] self.provider_configs@[i]).name@ == n
    }

    /// The position of the provider named `n`.
    pub open spec fn index_of(self, n: Seq<char>) -> int {
        choose|i: int| 0 <= i < self.provider_configs@.len() && (#[trigger] self.provider_configs@[i]).name@ == n
    }

    /// The value `m` ranks provider `n` by, if it has one.
    pub open spec fn metric(self, n: Seq<char>, m: Metric, scores: Seq<(String, i64)>) -> Option<i64> {
        if !self.has_provider(n) {
            None
        } else {
            let pc = self.provider_configs@[self.index_of(n)];
            match m {
                Metric::Cost => Some(pc.cost_per_1m_tokens),
                Metric::Latency => pc.latency_ms,
                Metric::Throughput => pc.throughput_tokens_per_sec,
                Metric::Score => score_in(scores, n),
            }
        }
    }

    /// The provider names a rule with provider list `list` considers.
    pub open spec fn candidates(self, list: Seq<String>) -> Seq<Seq<char>> {
        if list.len() == 0 {
            self.provider_configs@.map_values(|c: ProviderConfig| c.name@)
        } else {
            views(list)
        }
    }

    /// Candidate `i` has a value for `m` that passes `threshold`.
    pub open spec fn qualifies(
        self,
        cands: Seq<Seq<char>>,
        i: int,
        threshold: Option<i64>,
        m: Metric,
        scores: Seq<(String, i64)>,
    ) -> bool {
        &&& 0 <= i < cands.len()
        &&& self.metric(cands[i], m, scores) is Some
        &&& within(self.metric(cands[i], m, scores)->0, threshold, m)
    }

    /// Candidate `k` qualifies, is strictly better than every earlier
    /// qualifying candidate, and no later one is strictly better.
    pub open spec fn is_first_best(
        self,
        cands: Seq<Seq<char>>,
        k: int,
        threshold: Option<i64>,
        m: Metric,
        scores: Seq<(String, i64)>,
    ) -> bool {
        let v = self.metric(cands[k], m, scores)->0;
        &&& self.qualifies(cands, k, threshold, m, scores)
        &&& forall|j: int|
            0 <= j < k && #[trigger] self.qualifies(cands, j, threshold, m, scores) ==> better(
                v,
                self.metric(cands[j], m, scores)->0,
                m,
            )
        &&& forall|j: int|
            k < j < cands.len() && #[trigger] self.qualifies(cands, j, threshold, m, scores) ==> !better(
                self.metric(cands[j], m, scores)->0,
                v,
                m,
            )
    }

    /// The outcome a ranking rule must produce: the first best candidate
    /// with `target` as the model, or nothing when no candidate qualifies.
    pub open spec fn best_allows(
        self,
        cands: Seq<Seq<char>>,
        threshold: Option<i64>,
        m: Metric,
        scores: Seq<(String, i64)>,
        target: Seq<char>,
        out: Outcome,
    ) -> bool {
        match out {
            None => forall|j: int| !#[trigger] self.qualifies(cands, j, threshold, m, scores),
            Some((n, t)) => t == target && exists|k: int|
                #[trigger] self.is_first_best(cands, k, threshold, m, scores) && cands[k] == n,
        }
    }

    /// Outcomes `rule` may produce for a request for `model` tagged `tags`.
    pub open spec fn rule_allows(self, rule: RouterRule, model: Seq<char>, tags: Seq<Seq<char>>, out: Outcome) -> bool {
        match rule {
            RouterRule::Prefix { model_prefix, provider, rewrite_model } => out == if has_prefix(
                model,
                model_prefix@,
            ) {
                Some((provider@, target_model(rewrite_model, model)))
            } else {
                None
            },
            RouterRule::Tag { tag, provider, rewrite_model } => out == if tags.contains(tag@) {
                Some((provider@, target_model(rewrite_model, model)))
            } else {
                None
            },
            RouterRule::Price { providers, max_cost_per_1m_tokens } => self.best_allows(
                self.candidates(providers@),
                max_cost_per_1m_tokens,
                Metric::Cost,
                Seq::empty(),
                model,
                out,
            ),
            RouterRule::Latency { providers, max_latency_ms } => self.best_allows(
                self.candidates(providers@),
                max_latency_ms,
                Metric::Latency,
                Seq::empty(),
                model,
                out,
            ),
            RouterRule::Throughput { providers, min_tokens_per_sec } => self.best_allows(
                self.candidates(providers@),
                min_tokens_per_sec,
                Metric::Throughput,
                Seq::empty(),
                model,
                out,
            ),
            RouterRule::Fallback { providers, scores, rewrite_model } => self.best_allows(
                self.candidates(providers@),
                None,
                Metric::Score,
                scores@,
                target_model(rewrite_model, model),
                out,
            ),
            RouterRule::Discover { provider } => out == match models_in(self.available_models@, provider@) {
                Some(ms) => if ms.contains(model) {
                    Some((provider@, model))
                } else {
                    None
                },
                None => None,
            },
            RouterRule::Random { providers, rewrite_model, candidates } => random_allows(
                candidates@,
                self.candidates(providers@),
                target_model(rewrite_model, model),
                out,
            ),
        }
    }

    /// `out` names a provider that was kept.
    pub open spec fn lands(self, out: Outcome) -> bool {
        out matches Some((n, _)) && self.has_provider(n)
    }

    /// `outs` is a possible run of the chain: one allowed outcome per rule
    /// tried, in order, stopping at the first that lands on a kept provider
    /// or after the last rule.
    pub open spec fn is_run(self, model: Seq<char>, tags: Seq<Seq<char>>, outs: Seq<Outcome>) -> bool {
        &&& outs.len() <= self.rules@.len()
        &&& forall|k: int| 0 <= k < outs.len() ==> self.rule_allows(self.rules@[k], model, tags, #[trigger] outs[k])
        &&& forall|k: int| 0 <= k < outs.len() - 1 ==> !self.lands(#[trigger] outs[k])
        &&& outs.len() == self.rules@.len() || (outs.len() > 0 && self.lands(outs.last()))
    }

    /// The position of the provider named `name`, if one was kept.
    fn position(&self, name: &str) -> (r: Option<usize>)
        requires
            self.wf(),
        ensures
            match r {
                Some(i) => i < self.provider_configs@.len() && self.provider_configs@[i as int].name@ == name@
                    && i == self.index_of(name@) && self.has_provider(name@),
                None => !self.has_provider(name@),
            },
    {
        let mut i: usize = 0;
        while i < self.provider_configs.len()
            invariant
                self.wf(),
                i <= self.provider_configs.len(),
                forall|j: int| 0 <= j < i ==> (#[trigger] self.provider_configs@[j]).name@ != name@,
            decreases self.provider_configs.len() - i,
        {
            if str_eq(self.provider_configs[i].name.as_str(), name) {
                proof {
                    let k = self.index_of(name@);
                    assert(self.has_provider(name@));
                    if k != i {
                        if k < i {
                            assert(self.provider_configs@[k].name@ != self.provider_configs@[i as int].name@);
                        } else {
                            assert(self.provider_configs@[i as int].name@ != self.provider_configs@[k].name@);
                        }
                    }
                }
                return Some(i);
            }
            i = i + 1;
        }
        None
    }

    /// Look up a kept provider by name, bypassing the `routers` chain.
    pub fn provider(&self, name: &str) -> (r: Option<&Provider>)
        requires
            self.wf(),
        ensures
            match r {
                Some(p) => self.has_provider(name@) && *p == self.providers@[self.index_of(name@)]
                    && p.name@ == name@,
                None => !self.has_provider(name@),
            },
    {
        match self.position(name) {
            Some(i) => Some(&self.providers[i]),
            None => None,
        }
    }

    /// The names a rule with provider list `list` considers.
    pub fn candidate_names(&self, list: &Vec<String>) -> (r: Vec<String>)
        ensures
            views(r@) == self.candidates(list@),
    {
        if list.len() > 0 {
            let r = crate::canonical::copy_strings(list);
            r
        } else {
            let mut out: Vec<String> = Vec::new();
            let mut i: usize = 0;
            while i < self.provider_configs.len()
                invariant
                    i <= self.provider_configs.len(),
                    out@.len() == i,
                    forall|j: int| 0 <= j < i ==> (#[trigger] out@[j])@ == self.provider_configs@[j].name@,
                decreases self.provider_configs.len() - i,
            {
                out.push(self.provider_configs[i].name.clone());
                i = i + 1;
            }
            proof {
                assert(views(out@) =~= self.provider_configs@.map_values(|c: ProviderConfig| c.name@));
            }
            out
        }
    }
}

/// The outcome a pair of strings stands for.
pub open spec fn outcome_of(r: Option<(String, String)>) -> Outcome {
    match r {
        Some((a, b)) => Some((a@, b@)),
        None => None,
    }
}

fn passes(v: i64, threshold: Option<i64>, m: Metric) -> (r: bool)
    ensures
        r == within(v, threshold, m),
{
    match threshold {
        None => true,
        Some(t) => match m {
            Metric::Cost | Metric::Latency => v <= t,
            _ => v >= t,
        },
    }
}

fn is_better(a: i64, b: i64, m: Metric) -> (r: bool)
    ensures
        r == better(a, b, m),
{
    match m {
        Metric::Cost | Metric::Latency => a < b,
        _ => a > b,
    }
}

impl ModelRouter {
    /// The value `m` ranks provider `name` by.
    fn metric_value(&self, name: &str, m: Metric, scores: &Vec<(String, i64)>) -> (r: Option<i64>)
        requires
            self.wf(),
        ensures
            r == self.metric(name@, m, scores@),
    {
        match self.position(name) {
            None => None,
            Some(i) => {
                let pc = &self.provider_configs[i];
                match m {
                    Metric::Cost => Some(pc.cost_per_1m_tokens),
                    Metric::Latency => pc.latency_ms,
                    Metric::Throughput => pc.throughput_tokens_per_sec,
                    Metric::Score => score_for(scores, name),
                }
            },
        }
    }

    /// Picks the first candidate whose value for `m` is best among those
    /// that have one and pass `threshold`; nothing when none qualifies.
    pub fn best_by(
        &self,
        providers: &Vec<String>,
        threshold: Option<i64>,
        target: &str,
        m: Metric,
        scores: &Vec<(String, i64)>,
    ) -> (r: Option<(String, String)>)
        requires
            self.wf(),
        ensures
            self.best_allows(self.candidates(providers@), threshold, m, scores@, target@, outcome_of(r)),
    {
        let cands = self.candidate_names(providers);
        let ghost c = views(cands@);
        let mut best: Option<(usize, i64)> = None;
        let mut i: usize = 0;
        while i < cands.len()
            invariant
                self.wf(),
                c == views(cands@),
                i <= cands.len(),
                match best {
                    None => forall|j: int| 0 <= j < i ==> !#[trigger] self.qualifies(c, j, threshold, m, scores@),
                    Some((k, v)) => {
                        &&& k < i
                        &&& self.qualifies(c, k as int, threshold, m, scores@)
                        &&& self.metric(c[k as int], m, scores@) == Some(v)
                        &&& forall|j: int|
                            0 <= j < k && #[trigger] self.qualifies(c, j, threshold, m, scores@) ==> better(
                                v,
                                self.metric(c[j], m, scores@)->0,
                                m,
                            )
                        &&& forall|j: int|
                            k < j < i && #[trigger] self.qualifies(c, j, threshold, m, scores@) ==> !better(
                                self.metric(c[j], m, scores@)->0,
                                v,
                                m,
                            )
                    },
                },
            decreases cands.len() - i,
        {
            let mv = self.metric_value(cands[i].as_str(), m, scores);
            if let Some(v) = mv {
                if passes(v, threshold, m) {
                    let replace = match best {
                        None => true,
                        Some((_, bv)) => is_better(v, bv, m),
                    };
                    if replace {
                        best = Some((i, v));
                    }
                }
            }
            i = i + 1;
        }
        match best {
            None => {
                proof {
                    assert forall|j: int| !#[trigger] self.qualifies(c, j, threshold, m, scores@) by {
                        if 0 <= j < c.len() {
                            assert(j < i);
                        }
                    }
                }
                None
            },
            Some((k, _)) => {
                proof {
                    assert(self.is_first_best(c, k as int, threshold, m, scores@));
                }
                Some((cands[k].clone(), String::from_str(target)))
            },
        }
    }
}

/// `rand::seq::SliceRandom::choose` with the thread-local generator.
/// Claims only what holds of every draw: nothing comes back exactly when
/// `items` is empty, and otherwise one of its elements does.
#[verifier::external_body]
fn choose_one<'a, T>(items: &'a [T]) -> (r: Option<&'a T>)
    ensures
        r is None <==> items@.len() == 0,
        r matches Some(x) ==> items@.contains(*x),
{
    rand::seq::SliceRandom::choose(items, &mut rand::thread_rng())
}

/// Whether `v` holds a string equal to `s`.
pub fn contains_string(v: &Vec<String>, s: &str) -> (r: bool)
    ensures
        r == views(v@).contains(s@),
{
    let mut i: usize = 0;
    while i < v.len()
        invariant
            i <= v.len(),
            forall|j: int| 0 <= j < i ==> (#[trigger] v@[j])@ != s@,
        decreases v.len() - i,
    {
        if str_eq(v[i].as_str(), s) {
            proof {
                assert(views(v@)[i as int] == s@);
            }
            return true;
        }
        i = i + 1;
    }
    proof {
        if views(v@).contains(s@) {
            let j = choose|j: int| 0 <= j < views(v@).len() && views(v@)[j] == s@;
            assert(v@[j]@ == s@);
        }
    }
    false
}

/// The model to send: `rewrite` if set, else `model`.
fn pick_target(rewrite: &Option<String>, model: &str) -> (r: String)
    ensures
        r@ == target_model(*rewrite, model@),
{
    match rewrite {
        Some(m) => m.clone(),
        None => String::from_str(model),
    }
}

/// The models recorded for `name`.
fn models_for<'a>(table: &'a Vec<(String, Vec<String>)>, name: &str) -> (r: Option<&'a Vec<String>>)
    ensures
        match r {
            Some(ms) => models_in(table@, name@) == Some(views(ms@)),
            None => models_in(table@, name@).is_none(),
        },
{
    let mut i: usize = table.len();
    proof {
        assert(table@.take(i as int) =~= table@);
    }
    while i > 0
        invariant
            i <= table.len(),
            models_in(table@, name@) == models_in(table@.take(i as int), name@),
        decreases i,
    {
        proof {
            assert(table@.take(i as int).drop_last() =~= table@.take(i - 1));
            assert(table@.take(i as int).last() == table@[i - 1]);
        }
        if str_eq(table[i - 1].0.as_str(), name) {
            return Some(&table[i - 1].1);
        }
        i = i - 1;
    }
    None
}

impl ModelRouter {
    /// Applies one rule to a request for `model` tagged `tags`.
    pub fn apply_rule(&self, rule: &RouterRule, model: &str, tags: &Vec<String>) -> (r: Option<(String, String)>)
        requires
            self.wf(),
        ensures
            self.rule_allows(*rule, model@, views(tags@), outcome_of(r)),
    {
        match rule {
            RouterRule::Prefix { model_prefix, provider, rewrite_model } => {
                if starts_with_str(model, model_prefix.as_str()) {
                    Some((provider.clone(), pick_target(rewrite_model, model)))
                } else {
                    None
                }
            },
            RouterRule::Tag { tag, provider, rewrite_model } => {
                if contains_string(tags, tag.as_str()) {
                    Some((provider.clone(), pick_target(rewrite_model, model)))
                } else {
                    None
                }
            },
            RouterRule::Price { providers, max_cost_per_1m_tokens } => {
                let none: Vec<(String, i64)> = Vec::new();
                proof {
                    assert(none@ =~= Seq::<(String, i64)>::empty());
                }
                self.best_by(providers, *max_cost_per_1m_tokens, model, Metric::Cost, &none)
            },
            RouterRule::Latency { providers, max_latency_ms } => {
                let none: Vec<(String, i64)> = Vec::new();
                proof {
                    assert(none@ =~= Seq::<(String, i64)>::empty());
                }
                self.best_by(providers, *max_latency_ms, model, Metric::Latency, &none)
            },
            RouterRule::Throughput { providers, min_tokens_per_sec } => {
                let none: Vec<(String, i64)> = Vec::new();
                proof {
                    assert(none@ =~= Seq::<(String, i64)>::empty());
                }
                self.best_by(providers, *min_tokens_per_sec, model, Metric::Throughput, &none)
            },
            RouterRule::Fallback { providers, scores, rewrite_model } => {
                let target = pick_target(rewrite_model, model);
                self.best_by(providers, None, target.as_str(), Metric::Score, scores)
            },
            RouterRule::Discover { provider } => {
                match models_for(&self.available_models, provider.as_str()) {
                    Some(ms) => {
                        if contains_string(ms, model) {
                            Some((provider.clone(), String::from_str(model)))
                        } else {
                            None
                        }
                    },
                    None => None,
                }
            },
            RouterRule::Random { providers, rewrite_model, candidates } => {
                if candidates.len() > 0 {
                    match choose_one(candidates.as_slice()) {
                        Some(c) => {
                            proof {
                                let i = choose|i: int| 0 <= i < candidates@.len() && candidates@[i] == *c;
                                assert(outcome_of(Some((c.provider, c.model))) == Some(
                                    (candidates@[i].provider@, candidates@[i].model@),
                                ));
                            }
                            Some((c.provider.clone(), c.model.clone()))
                        },
                        None => None,
                    }
                } else {
                    let names = self.candidate_names(providers);
                    match choose_one(names.as_slice()) {
                        Some(n) => {
                            let target = pick_target(rewrite_model, model);
                            proof {
                                let i = choose|i: int| 0 <= i < names@.len() && names@[i] == *n;
                                assert(views(names@)[i] == n@);
                            }
                            Some((n.clone(), target))
                        },
                        None => None,
                    }
                }
            },
        }
    }
}

impl ModelRouter {
    /// Resolves a request for `model`, tagged `tags` by the classifiers, to
    /// a kept provider and the model name to send it, walking the rules in
    /// order; nothing when no rule lands on a kept provider.
    pub fn resolve(&self, model: &str, tags: &Vec<String>) -> (r: Option<(&Provider, String)>)
        requires
            self.wf(),
        ensures
            exists|outs: Seq<Outcome>| {
                &&& #[trigger] self.is_run(model@, views(tags@), outs)
                &&& match r {
                    Some((p, m)) => {
                        &&& outs.len() > 0
                        &&& outs.last() == Some((p.name@, m@))
                        &&& self.has_provider(p.name@)
                        &&& *p == self.providers@[self.index_of(p.name@)]
                    },
                    None => outs.len() == self.rules@.len() && forall|k: int|
                        0 <= k < outs.len() ==> !self.lands(#[trigger] outs[k]),
                }
            },
    {
        let ghost t = views(tags@);
        let ghost mut outs: Seq<Outcome> = Seq::empty();
        let mut i: usize = 0;
        while i < self.rules.len()
            invariant
                self.wf(),
                t == views(tags@),
                i <= self.rules.len(),
                outs.len() == i,
                forall|k: int| 0 <= k < i ==> self.rule_allows(self.rules@[k], model@, t, #[trigger] outs[k]),
                forall|k: int| 0 <= k < i ==> !self.lands(#[trigger] outs[k]),
            decreases self.rules.len() - i,
        {
            let decided = self.apply_rule(&self.rules[i], model, tags);
            proof {
                outs = outs.push(outcome_of(decided));
            }
            if let Some((name, target)) = decided {
                if let Some(p) = self.provider(name.as_str()) {
                    proof {
                        assert(self.is_run(model@, t, outs));
                    }
                    return Some((p, target));
                }
            }
            i = i + 1;
        }
        proof {
            assert(self.is_run(model@, t, outs));
        }
        None
    }

    /// Records the models provider `name` reported having; an empty report
    /// leaves what was known before.
    pub fn record_models(&mut self, name: &str, models: Vec<String>)
        ensures
            final(self).providers@ == old(self).providers@,
            final(self).provider_configs@ == old(self).provider_configs@,
            final(self).rules@ == old(self).rules@,
            models@.len() > 0 ==> models_in(final(self).available_models@, name@) == Some(views(models@)),
            models@.len() > 0 ==> forall|n: Seq<char>|
                n != name@ ==> models_in(final(self).available_models@, n) == models_in(
                    old(self).available_models@,
                    n,
                ),
            models@.len() == 0 ==> final(self).available_models@ == old(self).available_models@,
    {
        if models.len() > 0 {
            let ghost before = self.available_models@;
            self.available_models.push((String::from_str(name), models));
            proof {
                assert(self.available_models@.drop_last() =~= before);
            }
        }
    }
}

/// The position of the configuration named `name` in `kept`.
fn name_position(kept: &Vec<ProviderConfig>, name: &str) -> (r: Option<usize>)
    ensures
        match r {
            Some(j) => j < kept@.len() && kept@[j as int].name@ == name@,
            None => forall|k: int| 0 <= k < kept@.len() ==> (#[trigger] kept@[k]).name@ != name@,
        },
{
    let mut j: usize = 0;
    while j < kept.len()
        invariant
            j <= kept.len(),
            forall|k: int| 0 <= k < j ==> (#[trigger] kept@[k]).name@ != name@,
        decreases kept.len() - j,
    {
        if str_eq(kept[j].name.as_str(), name) {
            return Some(j);
        }
        j = j + 1;
    }
    None
}

/// A copy of a provider configuration.
pub fn copy_config(c: &ProviderConfig) -> (r: ProviderConfig)
    ensures
        r == *c,
{
    ProviderConfig {
        name: c.name.clone(),
        format: c.format,
        base_url: c.base_url.clone(),
        api_key_env: crate::canonical::copy_opt_string(&c.api_key_env),
        strict: c.strict,
        cost_per_1m_tokens: c.cost_per_1m_tokens,
        latency_ms: c.latency_ms,
        throughput_tokens_per_sec: c.throughput_tokens_per_sec,
    }
}

impl ModelRouter {
    /// Builds the router from the configured providers and rules.
    /// `key_missing[i]` says whether provider `i` declares an API-key
    /// variable that is unset or empty; a strict provider whose key is
    /// missing is skipped. Fails when no provider is kept.
    pub fn from_config(
        providers: &Vec<ProviderConfig>,
        key_missing: &Vec<bool>,
        rules: Vec<RouterRule>,
    ) -> (r: Result<ModelRouter, RouterError>)
        requires
            key_missing@.len() == providers@.len(),
        ensures
            match r {
                Ok(router) => {
                    &&& router.wf()
                    &&& router.provider_configs@ == kept_configs(providers@, key_missing@)
                    &&& router.rules@ == rules@
                    &&& router.available_models@.len() == 0
                    &&& router.provider_configs@.len() > 0
                },
                Err(e) => e == RouterError::NoProviders && kept_configs(providers@, key_missing@).len() == 0,
            },
    {
        let mut kept: Vec<ProviderConfig> = Vec::new();
        let mut built: Vec<Provider> = Vec::new();
        let mut i: usize = 0;
        while i < providers.len()
            invariant
                i <= providers.len(),
                key_missing@.len() == providers@.len(),
                kept@ == kept_configs(providers@.take(i as int), key_missing@.take(i as int)),
                unique_names(kept@),
                built@.len() == kept@.len(),
                forall|j: int| 0 <= j < built@.len() ==> built_from(#[trigger] built@[j], kept@[j]),
            decreases providers.len() - i,
        {
            proof {
                assert(providers@.take(i + 1).drop_last() =~= providers@.take(i as int));
                assert(key_missing@.take(i + 1).drop_last() =~= key_missing@.take(i as int));
                assert(providers@.take(i + 1).last() == providers@[i as int]);
                assert(key_missing@.take(i + 1).last() == key_missing@[i as int]);
            }
            let c = &providers[i];
            let skip = c.api_key_env.is_some() && key_missing[i] && c.strict;
            if !skip {
                let pos = name_position(&kept, c.name.as_str());
                let ghost before = kept@;
                match pos {
                    Some(j) => {
                        proof {
                            let k = choose|k: int| 0 <= k < before.len() && (#[trigger] before[k]).name@ == c.name@;
                            if k != j {
                                if k < j {
                                    assert(before[k].name@ != before[j as int].name@);
                                } else {
                                    assert(before[j as int].name@ != before[k].name@);
                                }
                            }
                        }
                        kept.set(j, copy_config(c));
                        built.set(j, Provider::from_config(c));
                    },
                    None => {
                        kept.push(copy_config(c));
                        built.push(Provider::from_config(c));
                    },
                }
                proof {
                    assert(kept@ =~= upsert(before, *c));
                    assert(unique_names(kept@)) by {
                        assert forall|a: int, b: int| 0 <= a < b < kept@.len() implies (#[trigger] kept@[a]).name@
                            != (#[trigger] kept@[b]).name@ by {
                            if b < before.len() {
                                assert(before[a].name@ == kept@[a].name@ || a == pos->0);
                            }
                        }
                    }
                }
            }
            i = i + 1;
        }
        proof {
            assert(providers@.take(i as int) =~= providers@);
            assert(key_missing@.take(i as int) =~= key_missing@);
        }
        if kept.len() == 0 {
            return Err(RouterError::NoProviders);
        }
        Ok(ModelRouter { providers: built, provider_configs: kept, rules, available_models: Vec::new() })
    }
}

/// The score bound to `name` in a fallback rule's table.
fn score_for(scores: &Vec<(String, i64)>, name: &str) -> (r: Option<i64>)
    ensures
        r == score_in(scores@, name@),
{
    let mut i: usize = scores.len();
    proof {
        assert(scores@.take(i as int) =~= scores@);
    }
    while i > 0
        invariant
            i <= scores.len(),
            score_in(scores@, name@) == score_in(scores@.take(i as int), name@),
        decreases i,
    {
        proof {
            assert(scores@.take(i as int).drop_last() =~= scores@.take(i - 1));
            assert(scores@.take(i as int).last() == scores@[i - 1]);
        }
        if str_eq(scores[i - 1].0.as_str(), name) {
            return Some(scores[i - 1].1);
        }
        i = i - 1;
    }
    None
}

} // verus!

verus! {

/// Every rule but `random` is deterministic: a rule allows at most one
/// outcome for a given request.
pub proof fn law_rules_are_deterministic(
    router: ModelRouter,
    rule: RouterRule,
    model: Seq<char>,
    tags: Seq<Seq<char>>,
    a: Outcome,
    b: Outcome,
)
    requires
        router.wf(),
        !(rule is Random),
        router.rule_allows(rule, model, tags, a),
        router.rule_allows(rule, model, tags, b),
    ensures
        a == b,
{
    match rule {
        RouterRule::Price { providers, max_cost_per_1m_tokens } => {
            lemma_best_unique(router, router.candidates(providers@), max_cost_per_1m_tokens, Metric::Cost, Seq::empty(), model, a, b);
        },
        RouterRule::Latency { providers, max_latency_ms } => {
            lemma_best_unique(router, router.candidates(providers@), max_latency_ms, Metric::Latency, Seq::empty(), model, a, b);
        },
        RouterRule::Throughput { providers, min_tokens_per_sec } => {
            lemma_best_unique(router, router.candidates(providers@), min_tokens_per_sec, Metric::Throughput, Seq::empty(), model, a, b);
        },
        RouterRule::Fallback { providers, scores, rewrite_model } => {
            lemma_best_unique(router, router.candidates(providers@), None, Metric::Score, scores@, target_model(rewrite_model, model), a, b);
        },
        _ => {},
    }
}

proof fn lemma_best_unique(
    router: ModelRouter,
    cands: Seq<Seq<char>>,
    threshold: Option<i64>,
    m: Metric,
    scores: Seq<(String, i64)>,
    target: Seq<char>,
    a: Outcome,
    b: Outcome,
)
    requires
        router.best_allows(cands, threshold, m, scores, target, a),
        router.best_allows(cands, threshold, m, scores, target, b),
    ensures
        a == b,
{
    match (a, b) {
        (Some((na, ta)), Some((nb, tb))) => {
            let ka = choose|k: int| #[trigger] router.is_first_best(cands, k, threshold, m, scores) && cands[k] == na;
            let kb = choose|k: int| #[trigger] router.is_first_best(cands, k, threshold, m, scores) && cands[k] == nb;
            if ka < kb {
                assert(router.qualifies(cands, ka, threshold, m, scores));
            } else if kb < ka {
                assert(router.qualifies(cands, kb, threshold, m, scores));
            }
        },
        (Some((na, _)), None) => {
            let ka = choose|k: int| #[trigger] router.is_first_best(cands, k, threshold, m, scores) && cands[k] == na;
            assert(router.qualifies(cands, ka, threshold, m, scores));
        },
        (None, Some((nb, _))) => {
            let kb = choose|k: int| #[trigger] router.is_first_best(cands, k, threshold, m, scores) && cands[k] == nb;
            assert(router.qualifies(cands, kb, threshold, m, scores));
        },
        (None, None) => {},
    }
}

/// A `fallback` rule always decides when at least one of its candidates
/// is a kept provider with a score.
pub proof fn law_fallback_decides(
    router: ModelRouter,
    providers: Vec<String>,
    scores: Vec<(String, i64)>,
    rewrite_model: Option<String>,
    model: Seq<char>,
    tags: Seq<Seq<char>>,
    out: Outcome,
    i: int,
)
    requires
        router.wf(),
        0 <= i < router.candidates(providers@).len(),
        router.metric(router.candidates(providers@)[i], Metric::Score, scores@) is Some,
        router.rule_allows(RouterRule::Fallback { providers, scores, rewrite_model }, model, tags, out),
    ensures
        out is Some,
{
    assert(router.qualifies(router.candidates(providers@), i, None, Metric::Score, scores@));
}

/// A `price` rule with no cost ceiling always decides when at least one of
/// its candidates is a kept provider.
pub proof fn law_price_without_ceiling_decides(
    router: ModelRouter,
    providers: Vec<String>,
    model: Seq<char>,
    tags: Seq<Seq<char>>,
    out: Outcome,
    i: int,
)
    requires
        router.wf(),
        0 <= i < router.candidates(providers@).len(),
        router.has_provider(router.candidates(providers@)[i]),
        router.rule_allows(RouterRule::Price { providers, max_cost_per_1m_tokens: None }, model, tags, out),
    ensures
        out is Some,
{
    assert(router.qualifies(router.candidates(providers@), i, None, Metric::Cost, Seq::empty()));
}

/// A ranking rule only ever picks one of its own candidates, and sends the
/// requested model unchanged (`price`, `latency`, `throughput`).
pub proof fn law_ranked_pick_is_a_candidate(
    router: ModelRouter,
    cands: Seq<Seq<char>>,
    threshold: Option<i64>,
    m: Metric,
    model: Seq<char>,
    n: Seq<char>,
    t: Seq<char>,
)
    requires
        router.best_allows(cands, threshold, m, Seq::empty(), model, Some((n, t))),
    ensures
        cands.contains(n),
        t == model,
        router.has_provider(n),
{
    let k = choose|k: int| #[trigger] router.is_first_best(cands, k, threshold, m, Seq::empty()) && cands[k] == n;
    assert(cands[k] == n);
}

/// A provider that is skipped at startup (strict, with its key missing) is
/// never kept, unless another, non-skipped provider shares its name.
pub proof fn law_skipped_provider_never_kept(cfgs: Seq<ProviderConfig>, missing: Seq<bool>, name: Seq<char>)
    requires
        cfgs.len() == missing.len(),
        forall|i: int| 0 <= i < cfgs.len() && (#[trigger] cfgs[i]).name@ == name ==> skipped(cfgs[i], missing[i]),
    ensures
        forall|k: int|
            0 <= k < kept_configs(cfgs, missing).len() ==> (#[trigger] kept_configs(cfgs, missing)[k]).name@ != name,
    decreases cfgs.len(),
{
    if cfgs.len() > 0 {
        let pc = cfgs.drop_last();
        let pm = missing.drop_last();
        assert forall|i: int| 0 <= i < pc.len() && (#[trigger] pc[i]).name@ == name implies skipped(pc[i], pm[i]) by {
            assert(cfgs[i] == pc[i]);
        }
        law_skipped_provider_never_kept(pc, pm, name);
        let prev = kept_configs(pc, pm);
        let c = cfgs.last();
        if !skipped(c, missing.last()) {
            assert(c.name@ != name);
            if exists|i: int| 0 <= i < prev.len() && (#[trigger] prev[i]).name@ == c.name@ {
                let j = choose|i: int| 0 <= i < prev.len() && (#[trigger] prev[i]).name@ == c.name@;
                assert forall|k: int| 0 <= k < prev.len() implies (#[trigger] prev.update(j, c)[k]).name@ != name by {
                    if k != j {
                        assert(prev.update(j, c)[k] == prev[k]);
                    }
                }
            } else {
                assert forall|k: int| 0 <= k < prev.len() + 1 implies (#[trigger] prev.push(c)[k]).name@ != name by {
                    if k < prev.len() {
                        assert(prev.push(c)[k] == prev[k]);
                    }
                }
            }
        }
    }
}

} // verus!
