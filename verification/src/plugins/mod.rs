//! Request and response middleware, chosen per request.
//!
//! A client opts into a plugin by naming it in the request body
//! (`"plugins": [{"id": "response-healing"}]`); the configuration can also
//! enable plugins by default and give them default settings
//! (`[plugins.<id>]`). [`PluginRegistry::resolve`] merges the two into the
//! ordered list of plugins to run, and [`run_stage`] runs their hooks at
//! each point of the pipeline:
//!
//! ```text
//! Start -> classifiers -> PreRouting -> routers -> provider -> PostResponse -> End
//! ```

pub mod pareto_router;
pub mod pdf_input;
pub mod response_healing;
pub mod web_search;

use vstd::prelude::*;

use crate::canonical::{opt_view, ChatRequest, ChatResponse, PluginRequest};
use crate::config::{entry_for, find_entry, Config, EntryConfig};
use crate::json::{lookup, str_of, JsonValue};
use crate::text::str_eq;

use self::pareto_router::{pareto_outcome, ParetoRouterPlugin};
use self::pdf_input::{PdfInputPlugin, PDF_UNIMPLEMENTED};
use self::response_healing::{heal_candidate, ResponseHealingPlugin};
use self::web_search::{WebSearchPlugin, WEB_UNIMPLEMENTED};

verus! {

/// A point of the request pipeline where plugin hooks run.
#[derive(Debug, Clone, Copy, PartialEq, Eq, Structural)]
pub enum Stage {
    /// Before the classifiers, on the request as the client sent it.
    Start,
    /// After the classifiers, before the `routers` chain picks a provider.
    PreRouting,
    /// Once a response is available, from the provider or from a hook.
    PostResponse,
    /// Last, before the response is logged and returned.
    End,
}

/// What a hook tells the pipeline.
#[derive(Debug, Clone, Copy, PartialEq, Eq, Structural)]
pub enum Flow {
    /// Go on to the next hook, and eventually the next stage.
    Continue,
    /// The hook changed the request or the response; go on as for
    /// `Continue`, recording the plugin as active.
    Modified,
    /// Run no further hooks. At `Start` and `PreRouting` this also skips
    /// the classifiers, routing and the provider call (the hook must have
    /// written a response itself, or the request fails); at `PostResponse`
    /// it skips `End`.
    Stop,
}

/// A plugin: hooks run at each stage of the pipeline for the requests that
/// use it. A hook it does not define lets the pipeline go on unchanged.
pub trait Plugin {
    /// The identifier used in `[plugins.<id>]` config and in a request's
    /// `plugins` array.
    fn id(&self) -> &'static str;

    /// Runs first, before the classifiers, on the request as the client
    /// sent it.
    fn on_start(&self, _ctx: &PluginContext, req: &mut ChatRequest, resp: &mut Option<ChatResponse>) -> (r: Result<
        Flow,
        String,
    >)
        default_ensures
            r == Ok::<Flow, String>(Flow::Continue),
            *final(req) == *old(req),
            *final(resp) == *old(resp),
    {
        Ok(Flow::Continue)
    }

    /// Runs after the classifiers, before the `routers` chain.
    fn pre_request(&self, _ctx: &PluginContext, req: &mut ChatRequest, resp: &mut Option<ChatResponse>) -> (r: Result<
        Flow,
        String,
    >)
        default_ensures
            r == Ok::<Flow, String>(Flow::Continue),
            *final(req) == *old(req),
            *final(resp) == *old(resp),
    {
        Ok(Flow::Continue)
    }

    /// Runs once a response is available; its error is ignored.
    fn post_response(&self, _ctx: &PluginContext, _req: &ChatRequest, resp: &mut Option<ChatResponse>) -> (r: Result<
        Flow,
        String,
    >)
        default_ensures
            r == Ok::<Flow, String>(Flow::Continue),
            *final(resp) == *old(resp),
    {
        Ok(Flow::Continue)
    }

    /// Runs last, before the response is logged and returned; its error is
    /// ignored.
    fn on_end(&self, _ctx: &PluginContext, _req: &ChatRequest, resp: &mut Option<ChatResponse>) -> (r: Result<
        Flow,
        String,
    >)
        default_ensures
            r == Ok::<Flow, String>(Flow::Continue),
            *final(resp) == *old(resp),
    {
        Ok(Flow::Continue)
    }
}

/// The plugins the router knows, in registry order.
#[derive(Debug, Clone, Copy, PartialEq, Eq, Structural)]
pub enum PluginKind {
    ResponseHealing,
    ParetoRouter,
    WebSearch,
    PdfInput,
}

/// The identifier of a plugin in `[plugins.<id>]` and in a request's
/// `plugins` array.
pub open spec fn kind_id(k: PluginKind) -> Seq<char> {
    match k {
        PluginKind::ResponseHealing => "response-healing"@,
        PluginKind::ParetoRouter => "pareto-router"@,
        PluginKind::WebSearch => "web"@,
        PluginKind::PdfInput => "pdf"@,
    }
}

/// The plugin an identifier names, if any.
pub open spec fn kind_named(id: Seq<char>) -> Option<PluginKind> {
    if id == "response-healing"@ {
        Some(PluginKind::ResponseHealing)
    } else if id == "pareto-router"@ {
        Some(PluginKind::ParetoRouter)
    } else if id == "web"@ {
        Some(PluginKind::WebSearch)
    } else if id == "pdf"@ {
        Some(PluginKind::PdfInput)
    } else {
        None
    }
}

/// The registry order.
pub open spec fn registry_order() -> Seq<PluginKind> {
    seq![PluginKind::ResponseHealing, PluginKind::ParetoRouter, PluginKind::WebSearch, PluginKind::PdfInput]
}

impl PluginKind {
    pub fn id(&self) -> (r: &'static str)
        ensures
            r@ == kind_id(*self),
    {
        proof {
            reveal_strlit("response-healing");
            reveal_strlit("pareto-router");
            reveal_strlit("web");
            reveal_strlit("pdf");
        }
        match self {
            PluginKind::ResponseHealing => "response-healing",
            PluginKind::ParetoRouter => "pareto-router",
            PluginKind::WebSearch => "web",
            PluginKind::PdfInput => "pdf",
        }
    }

    /// The plugin an identifier names, if any.
    pub fn named(id: &str) -> (r: Option<PluginKind>)
        ensures
            r == kind_named(id@),
    {
        proof {
            reveal_strlit("response-healing");
            reveal_strlit("pareto-router");
            reveal_strlit("web");
            reveal_strlit("pdf");
        }
        if str_eq(id, "response-healing") {
            Some(PluginKind::ResponseHealing)
        } else if str_eq(id, "pareto-router") {
            Some(PluginKind::ParetoRouter)
        } else if str_eq(id, "web") {
            Some(PluginKind::WebSearch)
        } else if str_eq(id, "pdf") {
            Some(PluginKind::PdfInput)
        } else {
            None
        }
    }
}

/// The entries of an optional settings table (none when absent).
pub open spec fn opt_entries(t: Option<&Vec<(String, JsonValue)>>) -> Seq<(String, JsonValue)> {
    match t {
        Some(v) => v@,
        None => Seq::empty(),
    }
}

/// A plugin's settings for one request: its configured defaults, overridden
/// by the matching entry of the request's `plugins` array.
#[derive(Debug, Clone, Copy)]
pub struct PluginContext<'a> {
    pub defaults: Option<&'a Vec<(String, JsonValue)>>,
    pub overrides: Option<&'a Vec<(String, JsonValue)>>,
}

/// A later binding of a key shadows an earlier one.
pub proof fn lemma_lookup_concat(a: Seq<(String, JsonValue)>, b: Seq<(String, JsonValue)>, key: Seq<char>)
    ensures
        lookup(a + b, key) == match lookup(b, key) {
            Some(v) => Some(v),
            None => lookup(a, key),
        },
    decreases b.len(),
{
    if b.len() == 0 {
        assert(a + b =~= a);
    } else {
        assert((a + b).drop_last() =~= a + b.drop_last());
        assert((a + b).last() == b.last());
        lemma_lookup_concat(a, b.drop_last(), key);
    }
}

impl<'a> PluginContext<'a> {
    /// The merged settings, as an association list (overrides bind last).
    pub open spec fn settings(self) -> Seq<(String, JsonValue)> {
        opt_entries(self.defaults) + opt_entries(self.overrides)
    }

    /// The value of setting `key`.
    pub fn get(&self, key: &str) -> (r: Option<&'a JsonValue>)
        ensures
            match r {
                Some(v) => lookup(self.settings(), key@) == Some(*v),
                None => lookup(self.settings(), key@) is None,
            },
    {
        proof {
            lemma_lookup_concat(opt_entries(self.defaults), opt_entries(self.overrides), key@);
        }
        if let Some(o) = self.overrides {
            if let Some(v) = crate::json::get(o, key) {
                return Some(v);
            }
        }
        match self.defaults {
            Some(d) => crate::json::get(d, key),
            None => None,
        }
    }

    /// The value of setting `key`, when it is a string.
    pub fn get_str(&self, key: &str) -> (r: Option<&'a String>)
        ensures
            match r {
                Some(s) => str_of(lookup(self.settings(), key@)) == Some(s@),
                None => str_of(lookup(self.settings(), key@)) is None,
            },
    {
        match self.get(key) {
            Some(JsonValue::Str(s)) => Some(s),
            _ => None,
        }
    }
}

/// A plugin to run for a request, with its settings.
#[derive(Debug, Clone, Copy)]
pub struct ResolvedPlugin<'a> {
    pub kind: PluginKind,
    pub ctx: PluginContext<'a>,
}

/// A resolved plugin as the contracts see it.
pub ghost struct ResolvedModel {
    pub kind: PluginKind,
    pub settings: Seq<(String, JsonValue)>,
}

impl<'a> View for ResolvedPlugin<'a> {
    type V = ResolvedModel;

    open spec fn view(&self) -> ResolvedModel {
        ResolvedModel { kind: self.kind, settings: self.ctx.settings() }
    }
}

/// Whether config enables plugin `k` by default.
pub open spec fn enabled_in(table: Seq<(String, EntryConfig)>, k: PluginKind) -> bool {
    match entry_for(table, kind_id(k)) {
        Some(e) => e.enabled,
        None => false,
    }
}

/// The default settings config gives plugin `k`.
pub open spec fn defaults_in(table: Seq<(String, EntryConfig)>, k: PluginKind) -> Seq<(String, JsonValue)> {
    match entry_for(table, kind_id(k)) {
        Some(e) => e.settings@,
        None => Seq::empty(),
    }
}

/// The position of the first request entry naming `id`.
pub open spec fn first_request(reqs: Seq<PluginRequest>, id: Seq<char>) -> Option<int> {
    if exists|j: int| 0 <= j < reqs.len() && reqs[j].id@ == id {
        Some(choose|j: int| 0 <= j < reqs.len() && reqs[j].id@ == id && forall|i: int| 0 <= i < j ==> reqs[i].id@ != id)
    } else {
        None
    }
}

/// The settings the first request entry naming `id` gives (none when no
/// entry names it).
pub open spec fn override_of(reqs: Seq<PluginRequest>, id: Seq<char>) -> Seq<(String, JsonValue)> {
    match first_request(reqs, id) {
        Some(j) => reqs[j].settings@,
        None => Seq::empty(),
    }
}

/// The config-enabled plugins among the first `n` of the registry, in
/// registry order, each with its defaults overridden by the first request
/// entry naming it.
pub open spec fn configured_plugins(
    table: Seq<(String, EntryConfig)>,
    reqs: Seq<PluginRequest>,
    n: int,
) -> Seq<ResolvedModel>
    decreases n,
{
    if n <= 0 {
        Seq::empty()
    } else {
        let k = registry_order()[n - 1];
        configured_plugins(table, reqs, n - 1) + if enabled_in(table, k) {
            seq![ResolvedModel { kind: k, settings: defaults_in(table, k) + override_of(reqs, kind_id(k)) }]
        } else {
            Seq::empty()
        }
    }
}

/// Whether an entry before position `j` names the same plugin as entry `j`.
pub open spec fn named_before(reqs: Seq<PluginRequest>, j: int) -> bool {
    exists|i: int| 0 <= i < j && #[trigger] reqs[i].id@ == reqs[j].id@
}

/// The plugins the first `n` request entries add: each entry naming a
/// known plugin that config does not enable and that no earlier entry
/// named, with its defaults overridden by the entry.
pub open spec fn requested_plugins(
    table: Seq<(String, EntryConfig)>,
    reqs: Seq<PluginRequest>,
    n: int,
) -> Seq<ResolvedModel>
    decreases n,
{
    if n <= 0 {
        Seq::empty()
    } else {
        requested_plugins(table, reqs, n - 1) + requested_step(table, reqs, n - 1)
    }
}

/// The plugins to run for a request: the config-enabled ones in registry
/// order, then those only the request names, in the order it names them.
pub open spec fn resolved_plugins(table: Seq<(String, EntryConfig)>, reqs: Seq<PluginRequest>) -> Seq<
    ResolvedModel,
> {
    configured_plugins(table, reqs, 4) + requested_plugins(table, reqs, reqs.len() as int)
}

/// The plugins the router knows, with what config says of each.
pub struct PluginRegistry<'a> {
    /// `[plugins.<id>]` of the configuration.
    pub table: &'a Vec<(String, EntryConfig)>,
}

/// The first request entry naming `id`.
fn find_request<'b>(reqs: &'b Vec<PluginRequest>, id: &str) -> (r: Option<&'b Vec<(String, JsonValue)>>)
    ensures
        opt_entries(r) == override_of(reqs@, id@),
        r is Some <==> first_request(reqs@, id@) is Some,
{
    let mut j: usize = 0;
    while j < reqs.len()
        invariant
            j <= reqs.len(),
            forall|i: int| 0 <= i < j ==> reqs@[i].id@ != id@,
        decreases reqs.len() - j,
    {
        if str_eq(reqs[j].id.as_str(), id) {
            proof {
                let w = choose|w: int|
                    0 <= w < reqs@.len() && reqs@[w].id@ == id@ && forall|i: int| 0 <= i < w ==> reqs@[i].id@ != id@;
                if w < j {
                    assert(reqs@[w].id@ != id@);
                } else if w > j {
                    assert(reqs@[j as int].id@ != id@);
                }
            }
            return Some(&reqs[j].settings);
        }
        j = j + 1;
    }
    None
}

impl<'a> PluginRegistry<'a> {
    pub fn from_config(config: &'a Config) -> (r: PluginRegistry<'a>)
        ensures
            r.table == &config.plugins,
    {
        PluginRegistry { table: &config.plugins }
    }

    /// The plugins to run for a request that names `requested`: every
    /// plugin config enables, in registry order, then each plugin only the
    /// request names, in its order. A plugin's settings are its config
    /// defaults overridden by the request's entry for it; unknown ids are
    /// ignored.
    pub fn resolve<'b>(&self, requested: &'b Vec<PluginRequest>) -> (r: Vec<ResolvedPlugin<'b>>)
        where 'a: 'b
        ensures
            r@.map_values(|p: ResolvedPlugin<'b>| p@) == resolved_plugins(self.table@, requested@),
    {
        let ghost table = self.table@;
        let ghost reqs = requested@;
        let mut out: Vec<ResolvedPlugin<'b>> = Vec::new();
        let kinds: [PluginKind; 4] = [
            PluginKind::ResponseHealing,
            PluginKind::ParetoRouter,
            PluginKind::WebSearch,
            PluginKind::PdfInput,
        ];
        proof {
            assert(kinds@ =~= registry_order());
        }
        let mut n: usize = 0;
        while n < 4
            invariant
                n <= 4,
                kinds@ == registry_order(),
                table == self.table@,
                reqs == requested@,
                out@.map_values(|p: ResolvedPlugin<'b>| p@) == configured_plugins(table, reqs, n as int),
            decreases 4 - n,
        {
            let k = kinds[n];
            let ghost before = out@;
            let id = k.id();
            match find_entry(self.table, id) {
                Some(e) => {
                    if e.enabled {
                        let over = find_request(requested, id);
                        let d: &'b Vec<(String, JsonValue)> = &e.settings;
                        out.push(ResolvedPlugin { kind: k, ctx: PluginContext { defaults: Some(d), overrides: over } });
                    }
                },
                None => {},
            }
            proof {
                assert(out@.map_values(|p: ResolvedPlugin<'b>| p@) =~= configured_plugins(table, reqs, n + 1));
            }
            n = n + 1;
        }
        let ghost head = out@.map_values(|p: ResolvedPlugin<'b>| p@);
        let mut j: usize = 0;
        while j < requested.len()
            invariant
                j <= requested.len(),
                table == self.table@,
                reqs == requested@,
                head == configured_plugins(table, reqs, 4),
                out@.map_values(|p: ResolvedPlugin<'b>| p@) == head + requested_plugins(table, reqs, j as int),
            decreases requested.len() - j,
        {
            let ghost before = out@;
            match self.requested_entry(requested, j) {
                Some(p) => {
                    out.push(p);
                    proof {
                        assert(out@ == before.push(p));
                        assert(out@.map_values(|p: ResolvedPlugin<'b>| p@) =~= before.map_values(
                            |p: ResolvedPlugin<'b>| p@,
                        ) + seq![p@]);
                    }
                },
                None => {},
            }
            proof {
                assert(requested_plugins(table, reqs, j + 1) == requested_plugins(table, reqs, j as int)
                    + requested_step(table, reqs, j as int));
                assert(out@.map_values(|p: ResolvedPlugin<'b>| p@) =~= head + requested_plugins(table, reqs, j + 1));
            }
            j = j + 1;
        }
        out
    }

    /// The plugin request entry `j` adds, if any.
    fn requested_entry<'b>(&self, requested: &'b Vec<PluginRequest>, j: usize) -> (r: Option<ResolvedPlugin<'b>>)
        where 'a: 'b
        requires
            j < requested.len(),
        ensures
            match r {
                Some(p) => requested_step(self.table@, requested@, j as int) == seq![p@],
                None => requested_step(self.table@, requested@, j as int) == Seq::<ResolvedModel>::empty(),
            },
    {
        let p = &requested[j];
        let k = match PluginKind::named(p.id.as_str()) {
            Some(k) => k,
            None => {
                return None;
            },
        };
        let entry = find_entry(self.table, p.id.as_str());
        let enabled = match entry {
            Some(e) => e.enabled,
            None => false,
        };
        let seen = named_earlier(requested, j);
        proof {
            assert(kind_id(k) == p.id@);
        }
        if enabled || seen {
            return None;
        }
        let d: Option<&'b Vec<(String, JsonValue)>> = match entry {
            Some(e) => Some(&e.settings),
            None => None,
        };
        let r = ResolvedPlugin { kind: k, ctx: PluginContext { defaults: d, overrides: Some(&p.settings) } };
        proof {
            assert(r@.settings =~= defaults_in(self.table@, k) + requested@[j as int].settings@);
        }
        Some(r)
    }
}

/// What request entry `j` adds to the resolved plugins.
pub open spec fn requested_step(table: Seq<(String, EntryConfig)>, reqs: Seq<PluginRequest>, j: int) -> Seq<
    ResolvedModel,
> {
    match kind_named(reqs[j].id@) {
        Some(k) => if !enabled_in(table, k) && !named_before(reqs, j) {
            seq![ResolvedModel { kind: k, settings: defaults_in(table, k) + reqs[j].settings@ }]
        } else {
            Seq::empty()
        },
        None => Seq::empty(),
    }
}

/// Whether an entry before `j` names the same plugin as entry `j`.
fn named_earlier(requested: &Vec<PluginRequest>, j: usize) -> (r: bool)
    requires
        j < requested.len(),
    ensures
        r == named_before(requested@, j as int),
{
    let mut i: usize = 0;
    while i < j
        invariant
            i <= j < requested.len(),
            forall|w: int| 0 <= w < i ==> requested@[w].id@ != requested@[j as int].id@,
        decreases j - i,
    {
        if str_eq(requested[i].id.as_str(), requested[j].id.as_str()) {
            return true;
        }
        i = i + 1;
    }
    false
}

/// The content of an optional response.
pub open spec fn content_of(resp: Option<ChatResponse>) -> Option<Seq<char>> {
    match resp {
        Some(r) => Some(r.content@),
        None => None,
    }
}

/// What one hook does: its result (a flow, or the error text), the
/// provider it forces (if it forces one) and the content it gives the
/// response (if it changes it).
pub ghost struct HookOutcome {
    pub result: Result<Flow, Seq<char>>,
    pub forced: Option<Seq<char>>,
    pub content: Option<Seq<char>>,
}

pub open spec fn unchanged(result: Result<Flow, Seq<char>>) -> HookOutcome {
    HookOutcome { result, forced: None, content: None }
}

/// The hook of plugin `k` at `stage`, given its settings and the current
/// response content. Only these hooks do anything:
/// - `pareto-router` before routing forces the provider of the chosen tier
///   (or fails, see [`pareto_outcome`]);
/// - `web` and `pdf` before routing fail, as they are not implemented;
/// - `response-healing` after the response replaces content that is not
///   valid JSON by its repair, when the repair is valid JSON.
pub open spec fn hook_outcome(
    k: PluginKind,
    stage: Stage,
    settings: Seq<(String, JsonValue)>,
    content: Option<Seq<char>>,
) -> HookOutcome {
    match (k, stage) {
        (PluginKind::ParetoRouter, Stage::PreRouting) => match pareto_outcome(settings) {
            Ok(provider) => HookOutcome { result: Ok(Flow::Continue), forced: Some(provider), content: None },
            Err(message) => unchanged(Err(message)),
        },
        (PluginKind::WebSearch, Stage::PreRouting) => unchanged(Err(WEB_UNIMPLEMENTED@)),
        (PluginKind::PdfInput, Stage::PreRouting) => unchanged(Err(PDF_UNIMPLEMENTED@)),
        (PluginKind::ResponseHealing, Stage::PostResponse) => match content {
            Some(c) => if crate::json::parsed_json(c) is None && crate::json::parsed_json(heal_candidate(c)) is Some {
                HookOutcome { result: Ok(Flow::Modified), forced: None, content: Some(heal_candidate(c)) }
            } else {
                unchanged(Ok(Flow::Continue))
            },
            None => unchanged(Ok(Flow::Continue)),
        },
        _ => unchanged(Ok(Flow::Continue)),
    }
}

/// `after` is `before` with `forced_provider` set to `forced` when that is
/// `Some`, and otherwise unchanged.
pub open spec fn req_after(before: ChatRequest, after: ChatRequest, forced: Option<Seq<char>>) -> bool {
    &&& after.model == before.model
    &&& after.system == before.system
    &&& after.messages == before.messages
    &&& after.max_tokens == before.max_tokens
    &&& after.temperature == before.temperature
    &&& after.thinking == before.thinking
    &&& after.effort == before.effort
    &&& after.task_budget == before.task_budget
    &&& after.output_schema == before.output_schema
    &&& after.tools == before.tools
    &&& after.stream == before.stream
    &&& after.plugins == before.plugins
    &&& after.tags == before.tags
    &&& match forced {
        Some(f) => opt_view(after.forced_provider) == Some(f),
        None => after.forced_provider == before.forced_provider,
    }
}

/// `after` is `before` with its content set to `content` when that is
/// `Some`, and otherwise unchanged.
pub open spec fn resp_after(before: Option<ChatResponse>, after: Option<ChatResponse>, content: Option<Seq<char>>) -> bool {
    match (before, after) {
        (Some(b), Some(a)) => {
            &&& a.id == b.id
            &&& a.model == b.model
            &&& a.stop_reason == b.stop_reason
            &&& a.tool_calls == b.tool_calls
            &&& a.usage == b.usage
            &&& a.tags == b.tags
            &&& match content {
                Some(c) => a.content@ == c,
                None => a.content == b.content,
            }
        },
        (None, None) => true,
        _ => false,
    }
}

/// Runs the hook of `p` for `stage`.
pub fn run_hook(p: &ResolvedPlugin, stage: Stage, req: &mut ChatRequest, resp: &mut Option<ChatResponse>) -> (r:
    Result<Flow, String>)
    ensures
        ({
            let o = hook_outcome(p.kind, stage, p.ctx.settings(), content_of(*old(resp)));
            &&& match r {
                Ok(f) => o.result == Ok::<Flow, Seq<char>>(f),
                Err(m) => o.result == Err::<Flow, Seq<char>>(m@),
            }
            &&& req_after(*old(req), *final(req), o.forced)
            &&& resp_after(*old(resp), *final(resp), o.content)
        }),
{
    match (p.kind, stage) {
        (PluginKind::ParetoRouter, Stage::PreRouting) => ParetoRouterPlugin.pre_request(&p.ctx, req, resp),
        (PluginKind::WebSearch, Stage::PreRouting) => WebSearchPlugin.pre_request(&p.ctx, req, resp),
        (PluginKind::PdfInput, Stage::PreRouting) => PdfInputPlugin.pre_request(&p.ctx, req, resp),
        (PluginKind::ResponseHealing, Stage::PostResponse) => ResponseHealingPlugin.post_response(&p.ctx, req, resp),
        _ => Ok(Flow::Continue),
    }
}

/// Where a stage's hooks have brought the pipeline: the provider forced so
/// far, the response content, and the ids of the plugins that changed
/// something or stopped the stage.
pub ghost struct StageView {
    pub forced: Option<Seq<char>>,
    pub content: Option<Seq<char>>,
    pub active: Seq<Seq<char>>,
}

/// How a stage ended.
pub ghost enum StageEnd {
    Continue,
    Stop,
    /// A hook at `Start` or `PreRouting` failed: its plugin id and error.
    Fail(Seq<char>, Seq<char>),
}

/// Runs the hooks of `ps[i..]` for `stage` from `v`: a `Modified` or
/// `Stop` result records the plugin as active, and `Stop` ends the stage;
/// an error ends it as a failure at `Start` and `PreRouting` and is
/// ignored later.
pub open spec fn run_from(ps: Seq<ResolvedModel>, stage: Stage, i: int, v: StageView) -> (StageEnd, StageView)
    decreases ps.len() - i,
{
    if i < 0 || i >= ps.len() {
        (StageEnd::Continue, v)
    } else {
        let o = hook_outcome(ps[i].kind, stage, ps[i].settings, v.content);
        let v2 = StageView {
            forced: match o.forced {
                Some(f) => Some(f),
                None => v.forced,
            },
            content: match o.content {
                Some(c) => Some(c),
                None => v.content,
            },
            active: v.active,
        };
        match o.result {
            Ok(Flow::Continue) => run_from(ps, stage, i + 1, v2),
            Ok(Flow::Modified) => run_from(ps, stage, i + 1, StageView { active: v2.active.push(kind_id(ps[i].kind)), ..v2 }),
            Ok(Flow::Stop) => (StageEnd::Stop, StageView { active: v2.active.push(kind_id(ps[i].kind)), ..v2 }),
            Err(m) => if stage == Stage::Start || stage == Stage::PreRouting {
                (StageEnd::Fail(kind_id(ps[i].kind), m), v2)
            } else {
                run_from(ps, stage, i + 1, v2)
            },
        }
    }
}

/// A plugin hook that failed at `Start` or `PreRouting`.
#[derive(Debug, Clone, PartialEq)]
pub struct PluginFailure {
    pub plugin: &'static str,
    pub message: String,
}

/// The request and response as a stage sees them.
pub open spec fn view_of(req: ChatRequest, resp: Option<ChatResponse>, active: Seq<String>) -> StageView {
    StageView {
        forced: opt_view(req.forced_provider),
        content: content_of(resp),
        active: active.map_values(|s: String| s@),
    }
}

#[verifier::rlimit(60)]
/// Runs every resolved plugin's hook for `stage`, in order, recording in
/// `active` the id of each plugin that changed something or stopped the
/// stage.
pub fn run_stage(
    plugins: &Vec<ResolvedPlugin>,
    stage: Stage,
    req: &mut ChatRequest,
    resp: &mut Option<ChatResponse>,
    active: &mut Vec<String>,
) -> (r: Result<Flow, PluginFailure>)
    ensures
        ({
            let (end, v) = run_from(
                plugins@.map_values(|p: ResolvedPlugin| p@),
                stage,
                0,
                view_of(*old(req), *old(resp), old(active)@),
            );
            &&& v == view_of(*final(req), *final(resp), final(active)@)
            &&& match end {
                StageEnd::Continue => r == Ok::<Flow, PluginFailure>(Flow::Continue),
                StageEnd::Stop => r == Ok::<Flow, PluginFailure>(Flow::Stop),
                StageEnd::Fail(id, m) => r matches Err(e) && e.plugin@ == id && e.message@ == m,
            }
            &&& req_after(*old(req), *final(req), opt_view(final(req).forced_provider))
            &&& resp_after(*old(resp), *final(resp), content_of(*final(resp)))
        }),
{
    let ghost ps = plugins@.map_values(|p: ResolvedPlugin| p@);
    let ghost req0 = *req;
    let ghost resp0 = *resp;
    let ghost start = view_of(*req, *resp, active@);
    let mut i: usize = 0;
    while i < plugins.len()
        invariant
            i <= plugins.len(),
            ps == plugins@.map_values(|p: ResolvedPlugin| p@),
            req0 == *old(req),
            resp0 == *old(resp),
            start == view_of(*old(req), *old(resp), old(active)@),
            run_from(ps, stage, 0, start) == run_from(ps, stage, i as int, view_of(*req, *resp, active@)),
            req_after(req0, *req, opt_view(req.forced_provider)),
            resp_after(resp0, *resp, content_of(*resp)),
        decreases plugins.len() - i,
    {
        let p = &plugins[i];
        let ghost v = view_of(*req, *resp, active@);
        proof {
            assert(ps[i as int] == plugins@[i as int]@);
        }
        let res = run_hook(p, stage, req, resp);
        let ghost v2 = view_of(*req, *resp, active@);
        match res {
            Ok(Flow::Continue) => {},
            Ok(Flow::Modified) => {
                active.push(String::from_str(p.kind.id()));
                proof {
                    assert(view_of(*req, *resp, active@).active =~= v2.active.push(kind_id(p.kind)));
                }
            },
            Ok(Flow::Stop) => {
                active.push(String::from_str(p.kind.id()));
                proof {
                    assert(view_of(*req, *resp, active@).active =~= v2.active.push(kind_id(p.kind)));
                }
                return Ok(Flow::Stop);
            },
            Err(m) => {
                proof {
                    let o = hook_outcome(ps[i as int].kind, stage, ps[i as int].settings, v.content);
                    assert(o.result == Err::<Flow, Seq<char>>(m@));
                    assert(o.forced is None && o.content is None);
                    assert(v2 == v);
                }
                if stage == Stage::Start || stage == Stage::PreRouting {
                    proof {
                        let o = hook_outcome(ps[i as int].kind, stage, ps[i as int].settings, v.content);
                        let v2s = StageView {
                            forced: match o.forced {
                                Some(f) => Some(f),
                                None => v.forced,
                            },
                            content: match o.content {
                                Some(c) => Some(c),
                                None => v.content,
                            },
                            active: v.active,
                        };
                        assert(v2s == v);
                        assert(run_from(ps, stage, i as int, v) == (StageEnd::Fail(kind_id(ps[i as int].kind), m@), v2s));
                    }
                    return Err(PluginFailure { plugin: p.kind.id(), message: m });
                }
            },
        }
        i = i + 1;
    }
    Ok(Flow::Continue)
}

/// No plugin occurs twice in `s`.
pub open spec fn kinds_distinct(s: Seq<ResolvedModel>) -> bool {
    forall|i: int, j: int| 0 <= i < j < s.len() ==> s[i].kind != s[j].kind
}

/// The position of a plugin in registry order.
pub open spec fn kind_rank(k: PluginKind) -> int {
    match k {
        PluginKind::ResponseHealing => 0,
        PluginKind::ParetoRouter => 1,
        PluginKind::WebSearch => 2,
        PluginKind::PdfInput => 3,
    }
}

#[verifier::spinoff_prover]
#[verifier::rlimit(40)]
proof fn lemma_configured(table: Seq<(String, EntryConfig)>, reqs: Seq<PluginRequest>, n: int)
    requires
        0 <= n <= 4,
    ensures
        forall|i: int|
            0 <= i < configured_plugins(table, reqs, n).len() ==> enabled_in(
                table,
                (#[trigger] configured_plugins(table, reqs, n)[i]).kind,
            ) && kind_rank(configured_plugins(table, reqs, n)[i].kind) < n,
        forall|i: int, j: int|
            0 <= i < j < configured_plugins(table, reqs, n).len() ==> kind_rank(
                (#[trigger] configured_plugins(table, reqs, n)[i]).kind,
            ) < kind_rank((#[trigger] configured_plugins(table, reqs, n)[j]).kind),
    decreases n,
{
    if n > 0 {
        lemma_configured(table, reqs, n - 1);
        let prev = configured_plugins(table, reqs, n - 1);
        let cur = configured_plugins(table, reqs, n);
        assert(kind_rank(registry_order()[n - 1]) == n - 1);
        assert forall|i: int| 0 <= i < prev.len() implies cur[i] == prev[i] by {}
    }
}

proof fn lemma_requested(table: Seq<(String, EntryConfig)>, reqs: Seq<PluginRequest>, n: int)
    requires
        0 <= n <= reqs.len(),
    ensures
        kinds_distinct(requested_plugins(table, reqs, n)),
        forall|i: int|
            0 <= i < requested_plugins(table, reqs, n).len() ==> {
                let k = (#[trigger] requested_plugins(table, reqs, n)[i]).kind;
                !enabled_in(table, k) && exists|j: int| 0 <= j < n && reqs[j].id@ == kind_id(k)
            },
    decreases n,
{
    if n > 0 {
        lemma_requested(table, reqs, n - 1);
        let prev = requested_plugins(table, reqs, n - 1);
        let cur = requested_plugins(table, reqs, n);
        let step = requested_step(table, reqs, n - 1);
        assert(cur == prev + step);
        assert forall|i: int| 0 <= i < cur.len() implies {
            let kk = (#[trigger] cur[i]).kind;
            !enabled_in(table, kk) && exists|j: int| 0 <= j < n && reqs[j].id@ == kind_id(kk)
        } by {
            if i < prev.len() {
                assert(cur[i] == prev[i]);
                let kk = prev[i].kind;
                let j = choose|j: int| 0 <= j < n - 1 && reqs[j].id@ == kind_id(kk);
                assert(0 <= j < n && reqs[j].id@ == kind_id(kk));
            } else {
                assert(reqs[n - 1].id@ == kind_id(cur[i].kind));
            }
        }
        assert forall|i: int, j: int| 0 <= i < j < cur.len() implies cur[i].kind != cur[j].kind by {
            if j < prev.len() {
                assert(cur[i] == prev[i] && cur[j] == prev[j]);
            } else {
                assert(cur[i] == prev[i]);
                let kk = prev[i].kind;
                let w = choose|w: int| 0 <= w < n - 1 && reqs[w].id@ == kind_id(kk);
                if cur[j].kind == kk {
                    assert(reqs[n - 1].id@ == kind_id(kk));
                    assert(reqs[w].id@ == reqs[n - 1].id@);
                    assert(named_before(reqs, n - 1));
                }
            }
        }
    }
}

/// No plugin runs twice for one request: a plugin config enables is not
/// added again for the request's entry naming it, and a plugin the request
/// names twice is added once.
pub proof fn law_resolved_plugins_distinct(table: Seq<(String, EntryConfig)>, reqs: Seq<PluginRequest>)
    ensures
        kinds_distinct(resolved_plugins(table, reqs)),
{
    lemma_configured(table, reqs, 4);
    lemma_requested(table, reqs, reqs.len() as int);
    assert forall|i: int, j: int|
        0 <= i < j < configured_plugins(table, reqs, 4).len() implies configured_plugins(table, reqs, 4)[i].kind
        != configured_plugins(table, reqs, 4)[j].kind by {
        assert(kind_rank(configured_plugins(table, reqs, 4)[i].kind) < kind_rank(
            configured_plugins(table, reqs, 4)[j].kind,
        ));
    }
    let a = configured_plugins(table, reqs, 4);
    let b = requested_plugins(table, reqs, reqs.len() as int);
    let all = resolved_plugins(table, reqs);
    assert forall|i: int, j: int| 0 <= i < j < all.len() implies all[i].kind != all[j].kind by {
        if j < a.len() {
            assert(all[i] == a[i] && all[j] == a[j]);
        } else if i >= a.len() {
            assert(all[i] == b[i - a.len()] && all[j] == b[j - a.len()]);
        } else {
            assert(all[i] == a[i] && all[j] == b[j - a.len()]);
            assert(enabled_in(table, a[i].kind));
            assert(!enabled_in(table, b[j - a.len()].kind));
        }
    }
}

} // verus!
