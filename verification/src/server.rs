//! The decisions of the HTTP surface: the request pipeline, how its errors
//! are answered, and the `x-router-*` response headers. The program around
//! the library serves HTTP, calls the providers and broadcasts the feed.
//!
//! The pipeline of one request:
//!
//! ```text
//! Start -> classifiers -> PreRouting -> routers -> provider -> PostResponse -> End -> logging
//! ```

use vstd::prelude::*;

use crate::canonical::{opt_view, views, ChatRequest, ChatResponse, PluginRequest, Usage};
use crate::classifiers::{request_tags, response_tags, ClassifierRegistry, ResponseClassifierRegistry};
use crate::plugins::{
    content_of, req_after, resp_after, run_from, run_stage, view_of, Flow, PluginFailure, ResolvedPlugin,
    ResolvedModel, Stage, StageEnd, StageView,
};
use crate::provider::Provider;
use crate::router::{ModelRouter, Outcome};
use crate::text::{concat, decimal, u64_text};

verus! {

/// Why a request failed.
#[derive(Debug, Clone, PartialEq)]
pub enum ApiError {
    /// No provider serves the requested model.
    NoProvider(String),
    /// The provider call failed; the error text.
    Upstream(String),
    /// A plugin hook failed: the plugin id and the error text.
    Plugin(String, String),
    /// The pipeline ended without a response.
    NoResponse,
}

/// The HTTP status each error is answered with.
pub open spec fn status_of(e: ApiError) -> u16 {
    match e {
        ApiError::NoProvider(_) => 400,
        ApiError::Upstream(_) => 502,
        ApiError::Plugin(_, _) => 500,
        ApiError::NoResponse => 500,
    }
}

/// The message each error is answered with.
pub open spec fn message_of(e: ApiError) -> Seq<char> {
    match e {
        ApiError::NoProvider(model) => "no provider configured for model '"@ + model@ + "'"@,
        ApiError::Upstream(err) => err@,
        ApiError::Plugin(id, err) => "plugin '"@ + id@ + "' failed: "@ + err@,
        ApiError::NoResponse => "pipeline stopped without producing a response"@,
    }
}

impl ApiError {
    /// The HTTP status of the error response: 400 when no provider serves
    /// the model, 502 when the provider failed, 500 otherwise.
    pub fn status(&self) -> (r: u16)
        ensures
            r == status_of(*self),
    {
        match self {
            ApiError::NoProvider(_) => 400,
            ApiError::Upstream(_) => 502,
            ApiError::Plugin(_, _) => 500,
            ApiError::NoResponse => 500,
        }
    }

    /// The `error.message` of the error response, whose `error.type` is
    /// always `router_error`.
    pub fn message(&self) -> (r: String)
        ensures
            r@ == message_of(*self),
    {
        match self {
            ApiError::NoProvider(model) => {
                let a = concat("no provider configured for model '", model.as_str());
                concat(a.as_str(), "'")
            },
            ApiError::Upstream(err) => err.clone(),
            ApiError::Plugin(id, err) => {
                let a = concat("plugin '", id.as_str());
                let b = concat(a.as_str(), "' failed: ");
                concat(b.as_str(), err.as_str())
            },
            ApiError::NoResponse => String::from_str("pipeline stopped without producing a response"),
        }
    }
}

/// `tags` joined with `sep`.
pub open spec fn join(tags: Seq<Seq<char>>, sep: Seq<char>) -> Seq<char>
    decreases tags.len(),
{
    if tags.len() == 0 {
        Seq::empty()
    } else if tags.len() == 1 {
        tags[0]
    } else {
        join(tags.drop_last(), sep) + sep + tags.last()
    }
}

/// `tags` joined with commas.
pub fn join_tags(tags: &Vec<String>) -> (r: String)
    ensures
        r@ == join(views(tags@), ","@),
{
    let ghost ts = views(tags@);
    let mut out = String::new();
    let mut i: usize = 0;
    while i < tags.len()
        invariant
            i <= tags.len(),
            ts == views(tags@),
            out@ == join(ts.take(i as int), ","@),
        decreases tags.len() - i,
    {
        proof {
            assert(ts.take(i + 1).drop_last() =~= ts.take(i as int));
            assert(ts.take(i + 1).last() == tags@[i as int]@);
        }
        if i > 0 {
            out.append(",");
        }
        out.append(tags[i].as_str());
        proof {
            if i == 0 {
                assert(ts.take(1) =~= seq![tags@[0]@]);
            }
            assert(out@ =~= join(ts.take(i + 1), ","@));
        }
        i = i + 1;
    }
    proof {
        assert(ts.take(i as int) =~= ts);
    }
    out
}

/// A character a header value may hold: anything but the ASCII control
/// characters other than tab.
pub open spec fn header_char_ok(c: char) -> bool {
    (c as u32 >= 32 && c as u32 != 127) || c == '\t'
}

/// Whether `s` can be a header value.
pub open spec fn header_value_ok(s: Seq<char>) -> bool {
    forall|i: int| 0 <= i < s.len() ==> header_char_ok(#[trigger] s[i])
}

/// `http::HeaderValue::from_str(s).is_ok()`: claims it holds exactly when
/// every byte of `s` is at least 32 and not 127, or is a tab. In UTF-8 the
/// bytes of a non-ASCII character are all at least 128, so this is the
/// same as every character passing `header_char_ok`.
#[verifier::external_body]
fn valid_header_value(s: &str) -> (r: bool)
    ensures
        r == header_value_ok(s@),
{
    axum::http::HeaderValue::from_str(s).is_ok()
}

pub const X_ROUTER_REQUEST_TAGS: &'static str = "x-router-request-tags";

pub const X_ROUTER_RESPONSE_TAGS: &'static str = "x-router-response-tags";

pub const X_ROUTER_PROVIDER: &'static str = "x-router-provider";

pub const X_ROUTER_MODEL: &'static str = "x-router-model";

pub const X_ROUTER_INPUT_TOKENS: &'static str = "x-router-input-tokens";

pub const X_ROUTER_OUTPUT_TOKENS: &'static str = "x-router-output-tokens";

/// A header with `value`, when `value` can be one.
pub open spec fn header(name: &'static str, value: Seq<char>) -> Seq<(Seq<char>, Seq<char>)> {
    if header_value_ok(value) {
        seq![(name@, value)]
    } else {
        Seq::empty()
    }
}

/// A tag header: omitted when there are no tags.
pub open spec fn tags_header(name: &'static str, tags: Seq<Seq<char>>) -> Seq<(Seq<char>, Seq<char>)> {
    if tags.len() == 0 {
        Seq::empty()
    } else {
        header(name, join(tags, ","@))
    }
}

/// The `x-router-*` headers of a response: the request's and the
/// response's classifier tags (comma-joined, omitted when empty), the
/// provider, the model sent, and the token counts. A value that cannot be
/// a header is left out.
pub open spec fn router_header_list(
    request_tags: Seq<Seq<char>>,
    response_tags: Seq<Seq<char>>,
    provider: Seq<char>,
    model: Seq<char>,
    usage: Usage,
) -> Seq<(Seq<char>, Seq<char>)> {
    tags_header(X_ROUTER_REQUEST_TAGS, request_tags) + tags_header(X_ROUTER_RESPONSE_TAGS, response_tags) + header(
        X_ROUTER_PROVIDER,
        provider,
    ) + header(X_ROUTER_MODEL, model) + header(X_ROUTER_INPUT_TOKENS, decimal(usage.input_tokens as nat))
        + header(X_ROUTER_OUTPUT_TOKENS, decimal(usage.output_tokens as nat))
}

fn push_header(out: &mut Vec<(&'static str, String)>, name: &'static str, value: String)
    ensures
        final(out)@.map_values(|h: (&'static str, String)| (h.0@, h.1@)) == old(out)@.map_values(
            |h: (&'static str, String)| (h.0@, h.1@),
        ) + header(name, value@),
{
    let ghost before = out@;
    if valid_header_value(value.as_str()) {
        out.push((name, value));
    }
    proof {
        assert(out@.map_values(|h: (&'static str, String)| (h.0@, h.1@)) =~= before.map_values(
            |h: (&'static str, String)| (h.0@, h.1@),
        ) + header(name, value@));
    }
}

/// The `x-router-*` headers of a response, as `(name, value)` pairs.
pub fn router_headers(
    request_tags: &Vec<String>,
    response_tags: &Vec<String>,
    provider: &str,
    model: &str,
    usage: &Usage,
) -> (r: Vec<(&'static str, String)>)
    ensures
        r@.map_values(|h: (&'static str, String)| (h.0@, h.1@)) == router_header_list(
            views(request_tags@),
            views(response_tags@),
            provider@,
            model@,
            *usage,
        ),
{
    let mut out: Vec<(&'static str, String)> = Vec::new();
    proof {
        assert(out@.map_values(|h: (&'static str, String)| (h.0@, h.1@)) =~= Seq::<(Seq<char>, Seq<char>)>::empty());
    }
    if request_tags.len() > 0 {
        push_header(&mut out, X_ROUTER_REQUEST_TAGS, join_tags(request_tags));
    }
    if response_tags.len() > 0 {
        push_header(&mut out, X_ROUTER_RESPONSE_TAGS, join_tags(response_tags));
    }
    push_header(&mut out, X_ROUTER_PROVIDER, String::from_str(provider));
    push_header(&mut out, X_ROUTER_MODEL, String::from_str(model));
    push_header(&mut out, X_ROUTER_INPUT_TOKENS, u64_text(usage.input_tokens as u64));
    push_header(&mut out, X_ROUTER_OUTPUT_TOKENS, u64_text(usage.output_tokens as u64));
    proof {
        assert(out@.map_values(|h: (&'static str, String)| (h.0@, h.1@)) =~= router_header_list(
            views(request_tags@),
            views(response_tags@),
            provider@,
            model@,
            *usage,
        ));
    }
    out
}

/// Where the routers send a request for `model` with `tags` (or a forced
/// provider): `target` is the provider name and the model name sent, or
/// `None` when nothing serves it. A forced provider is used as is, with the
/// requested model, when it is configured; otherwise the `routers` chain
/// decides (see [`ModelRouter::resolve`]).
pub open spec fn routes_to(
    router: ModelRouter,
    forced: Option<Seq<char>>,
    model: Seq<char>,
    tags: Seq<Seq<char>>,
    target: Option<(Seq<char>, Seq<char>)>,
) -> bool {
    match forced {
        Some(f) => target == if router.has_provider(f) {
            Some((f, model))
        } else {
            None
        },
        None => exists|outs: Seq<Outcome>|
            {
                &&& #[trigger] router.is_run(model, tags, outs)
                &&& match target {
                    Some((p, m)) => outs.len() > 0 && outs.last() == Some((p, m)) && router.has_provider(p),
                    None => outs.len() == router.rules@.len() && forall|k: int|
                        0 <= k < outs.len() ==> !router.lands(#[trigger] outs[k]),
                }
            },
    }
}

/// The provider (and model name) a request goes to: the forced provider
/// when a plugin set one, else the `routers` chain's choice.
pub fn pick_provider<'r>(router: &'r ModelRouter, req: &ChatRequest) -> (r: Result<(&'r Provider, String), ApiError>)
    requires
        router.wf(),
    ensures
        match r {
            Ok((p, m)) => {
                &&& routes_to(*router, opt_view(req.forced_provider), req.model@, views(req.tags@), Some((p.name@, m@)))
                &&& *p == router.providers@[router.index_of(p.name@)]
            },
            Err(e) => {
                &&& routes_to(*router, opt_view(req.forced_provider), req.model@, views(req.tags@), None)
                &&& e == ApiError::NoProvider(req.model)
            },
        },
{
    match &req.forced_provider {
        Some(name) => match router.provider(name.as_str()) {
            Some(p) => Ok((p, req.model.clone())),
            None => Err(ApiError::NoProvider(req.model.clone())),
        },
        None => match router.resolve(req.model.as_str(), &req.tags) {
            Some((p, m)) => Ok((p, m)),
            None => Err(ApiError::NoProvider(req.model.clone())),
        },
    }
}

/// `a` and `b` are the same request, but for the forced provider and the
/// tags.
pub open spec fn same_body(a: ChatRequest, b: ChatRequest) -> bool {
    &&& a.model == b.model
    &&& a.system == b.system
    &&& a.messages == b.messages
    &&& a.max_tokens == b.max_tokens
    &&& a.temperature == b.temperature
    &&& a.thinking == b.thinking
    &&& a.effort == b.effort
    &&& a.task_budget == b.task_budget
    &&& a.output_schema == b.output_schema
    &&& a.tools == b.tools
    &&& a.stream == b.stream
    &&& a.plugins == b.plugins
}

/// What the pipeline decided before the provider call.
pub struct Routing<'r> {
    /// The tags the classifiers gave the request, when they ran.
    pub classified: Option<Vec<String>>,
    /// The provider to call and the model name to send, when the request is
    /// to be sent (it is not when a hook stopped the pipeline or already
    /// wrote a response).
    pub target: Option<(&'r Provider, String)>,
}

/// The error a failed hook is answered with.
pub open spec fn plugin_error(r: Result<Routing, ApiError>, id: Seq<char>, m: Seq<char>) -> bool {
    r matches Err(ApiError::Plugin(i2, m2)) && i2@ == id && m2@ == m
}

/// The first half of the pipeline, up to the provider call: the `Start`
/// hooks, the classifiers (which set the request's tags), the `PreRouting`
/// hooks and the routers. A hook that stops a stage skips the rest; a
/// response written by a hook skips the routers; a failing hook or a model
/// no provider serves ends the request with an error.
#[verifier::rlimit(60)]
pub fn route_request<'r>(
    router: &'r ModelRouter,
    classifiers: &ClassifierRegistry,
    plugins: &Vec<ResolvedPlugin>,
    req: &mut ChatRequest,
    resp: &mut Option<ChatResponse>,
    active: &mut Vec<String>,
) -> (r: Result<Routing<'r>, ApiError>)
    requires
        router.wf(),
    ensures
        same_body(*old(req), *final(req)),
        ({
            let ps = plugins@.map_values(|p: ResolvedPlugin| p@);
            let (e1, v1) = run_from(ps, Stage::Start, 0, view_of(*old(req), *old(resp), old(active)@));
            let tags = request_tags(classifiers.table@, *old(req));
            let (e2, v2) = run_from(ps, Stage::PreRouting, 0, v1);
            match e1 {
                StageEnd::Fail(id, m) => plugin_error(r, id, m),
                StageEnd::Stop => {
                    &&& r matches Ok(rt) && rt.classified is None && rt.target is None
                    &&& view_of(*final(req), *final(resp), final(active)@) == v1
                    &&& final(req).tags == old(req).tags
                },
                StageEnd::Continue => {
                    &&& views(final(req).tags@) == tags
                    &&& match e2 {
                        StageEnd::Fail(id, m) => plugin_error(r, id, m),
                        StageEnd::Stop => {
                            &&& r matches Ok(rt) && rt.target is None && (rt.classified matches Some(t)
                                && views(t@) == tags)
                            &&& view_of(*final(req), *final(resp), final(active)@) == v2
                        },
                        StageEnd::Continue => {
                            &&& view_of(*final(req), *final(resp), final(active)@) == v2
                            &&& if v2.content is Some {
                                r matches Ok(rt) && rt.target is None && (rt.classified matches Some(t) && views(t@)
                                    == tags)
                            } else {
                                match r {
                                    Ok(rt) => {
                                        &&& rt.classified matches Some(t) && views(t@) == tags
                                        &&& rt.target matches Some((p, m)) && routes_to(
                                            *router,
                                            v2.forced,
                                            old(req).model@,
                                            tags,
                                            Some((p.name@, m@)),
                                        ) && *p == router.providers@[router.index_of(p.name@)]
                                    },
                                    Err(e) => routes_to(*router, v2.forced, old(req).model@, tags, None)
                                        && e == ApiError::NoProvider(old(req).model),
                                }
                            }
                        },
                    }
                },
            }
        }),
{
    let ghost ps = plugins@.map_values(|p: ResolvedPlugin| p@);
    let ghost req0 = *req;
    let start = run_stage(plugins, Stage::Start, req, resp, active);
    match start {
        Err(f) => {
            return Err(ApiError::Plugin(String::from_str(f.plugin), f.message));
        },
        Ok(Flow::Stop) => {
            return Ok(Routing { classified: None, target: None });
        },
        Ok(_) => {},
    }
    let ghost v1 = view_of(*req, *resp, active@);
    let tags = classifiers.classify(req);
    proof {
        assert(request_tags(classifiers.table@, *req) == request_tags(classifiers.table@, req0));
    }
    let classified = crate::canonical::copy_strings(&tags);
    req.tags = tags;
    proof {
        assert(view_of(*req, *resp, active@) == v1);
    }
    let pre = run_stage(plugins, Stage::PreRouting, req, resp, active);
    match pre {
        Err(f) => {
            return Err(ApiError::Plugin(String::from_str(f.plugin), f.message));
        },
        Ok(Flow::Stop) => {
            return Ok(Routing { classified: Some(classified), target: None });
        },
        Ok(_) => {},
    }
    if resp.is_some() {
        return Ok(Routing { classified: Some(classified), target: None });
    }
    match pick_provider(router, req) {
        Ok((p, m)) => Ok(Routing { classified: Some(classified), target: Some((p, m)) }),
        Err(e) => Err(e),
    }
}

/// A hook after the response never fails the request: its error is
/// ignored.
pub proof fn law_late_hooks_never_fail(ps: Seq<ResolvedModel>, stage: Stage, i: int, v: StageView)
    requires
        stage == Stage::PostResponse || stage == Stage::End,
    ensures
        !(run_from(ps, stage, i, v).0 is Fail),
    decreases ps.len() - i,
{
    if 0 <= i < ps.len() {
        let o = crate::plugins::hook_outcome(ps[i].kind, stage, ps[i].settings, v.content);
        let v2 = StageView {
            forced: match o.forced {
                Some(f) => Some(f),
                None => v.forced,
            },
            content: match o.content {
                Some(c) => Some(c),
                None => v.content,
            },
            active: v.active,
        };
        law_late_hooks_never_fail(ps, stage, i + 1, v2);
        law_late_hooks_never_fail(ps, stage, i + 1, StageView { active: v2.active.push(crate::plugins::kind_id(ps[i].kind)), ..v2 });
    }
}

/// The second half of the pipeline, once the provider replied (or a hook
/// answered): the `PostResponse` hooks, then, unless one stopped, the
/// response classifiers (which set the response's tags) and the `End`
/// hooks.
#[verifier::rlimit(60)]
pub fn finish_request(
    classifiers: &ResponseClassifierRegistry,
    plugins: &Vec<ResolvedPlugin>,
    req: &mut ChatRequest,
    resp: &mut Option<ChatResponse>,
    active: &mut Vec<String>,
)
    ensures
        same_body(*old(req), *final(req)),
        final(req).tags == old(req).tags,
        ({
            let ps = plugins@.map_values(|p: ResolvedPlugin| p@);
            let (e3, v3) = run_from(ps, Stage::PostResponse, 0, view_of(*old(req), *old(resp), old(active)@));
            let (e4, v4) = run_from(ps, Stage::End, 0, v3);
            if e3 is Stop {
                &&& view_of(*final(req), *final(resp), final(active)@) == v3
                &&& match (*old(resp), *final(resp)) {
                    (Some(a), Some(b)) => b.tags == a.tags,
                    _ => true,
                }
            } else {
                &&& view_of(*final(req), *final(resp), final(active)@) == v4
                &&& match (*final(resp), v3.content) {
                    (Some(b), Some(c)) => views(b.tags@) == response_tags(classifiers.table@, c),
                    _ => true,
                }
            }
        }),
{
    let ghost ps = plugins@.map_values(|p: ResolvedPlugin| p@);
    proof {
        law_late_hooks_never_fail(ps, Stage::PostResponse, 0, view_of(*req, *resp, active@));
    }
    let post = run_stage(plugins, Stage::PostResponse, req, resp, active);
    if let Ok(Flow::Stop) = post {
        return;
    }
    let ghost v3 = view_of(*req, *resp, active@);
    match resp {
        Some(r) => {
            let tags = classifiers.classify(&*req, r);
            r.tags = tags;
        },
        None => {},
    }
    proof {
        assert(view_of(*req, *resp, active@) == v3);
        law_late_hooks_never_fail(ps, Stage::End, 0, v3);
    }
    let _ = run_stage(plugins, Stage::End, req, resp, active);
}

/// Everything the pipeline learned of a request besides the response body,
/// which callers surface as response headers.
#[derive(Debug)]
pub struct DispatchOutcome {
    pub response: ChatResponse,
    /// The tags the classifiers gave the request.
    pub request_tags: Vec<String>,
    /// The provider that produced the response (`plugin` when a hook
    /// answered the request).
    pub provider: String,
    /// The model name sent to that provider.
    pub model: String,
}

/// The result of a request once the pipeline ended: the response, or an
/// error when there is none.
pub fn dispatch_outcome(
    resp: Option<ChatResponse>,
    request_tags: Vec<String>,
    provider: String,
    model: String,
) -> (r: Result<DispatchOutcome, ApiError>)
    ensures
        match resp {
            Some(x) => r matches Ok(o) && o.response == x && o.request_tags == request_tags && o.provider == provider
                && o.model == model,
            None => r == Err::<DispatchOutcome, ApiError>(ApiError::NoResponse),
        },
{
    match resp {
        Some(response) => Ok(DispatchOutcome { response, request_tags, provider, model }),
        None => Err(ApiError::NoResponse),
    }
}

/// Routing of a streamed request, which runs no plugins: the classifiers
/// set the request's tags, then the `routers` chain picks the provider.
pub fn route_stream<'r>(router: &'r ModelRouter, classifiers: &ClassifierRegistry, req: &mut ChatRequest) -> (r:
    Result<(&'r Provider, String), ApiError>)
    requires
        router.wf(),
    ensures
        same_body(*old(req), *final(req)),
        final(req).forced_provider == old(req).forced_provider,
        views(final(req).tags@) == request_tags(classifiers.table@, *old(req)),
        match r {
            Ok((p, m)) => {
                &&& routes_to(*router, None, old(req).model@, views(final(req).tags@), Some((p.name@, m@)))
                &&& *p == router.providers@[router.index_of(p.name@)]
            },
            Err(e) => routes_to(*router, None, old(req).model@, views(final(req).tags@), None) && e
                == ApiError::NoProvider(old(req).model),
        },
{
    let tags = classifiers.classify(req);
    req.tags = tags;
    match router.resolve(req.model.as_str(), &req.tags) {
        Some((p, m)) => Ok((p, m)),
        None => Err(ApiError::NoProvider(req.model.clone())),
    }
}

/// Whether a request may proceed: `/health` always may, every route may
/// when no key is configured, and otherwise the request must present the
/// key as `Authorization: Bearer <key>`, as `x-api-key: <key>`, or as the
/// `api_key` query parameter.
pub open spec fn allowed(
    path: Seq<char>,
    key: Option<Seq<char>>,
    authorization: Option<Seq<char>>,
    x_api_key: Option<Seq<char>>,
    query_key: Option<Seq<char>>,
) -> bool {
    path == "/health"@ || match key {
        None => true,
        Some(k) => authorization == Some("Bearer "@ + k) || x_api_key == Some(k) || query_key == Some(k),
    }
}

fn opt_eq(a: Option<&str>, b: &str) -> (r: bool)
    ensures
        r == (match a {
            Some(x) => Some(x@),
            None => None,
        } == Some(b@)),
{
    match a {
        Some(x) => crate::text::str_eq(x, b),
        None => false,
    }
}

/// Whether a request may proceed (see [`allowed`]); a refused one is
/// answered `401 Unauthorized`.
pub fn request_allowed(
    path: &str,
    key: Option<&str>,
    authorization: Option<&str>,
    x_api_key: Option<&str>,
    query_key: Option<&str>,
) -> (r: bool)
    ensures
        r == allowed(
            path@,
            match key {
                Some(k) => Some(k@),
                None => None,
            },
            match authorization {
                Some(a) => Some(a@),
                None => None,
            },
            match x_api_key {
                Some(a) => Some(a@),
                None => None,
            },
            match query_key {
                Some(a) => Some(a@),
                None => None,
            },
        ),
{
    if crate::text::str_eq(path, "/health") {
        return true;
    }
    match key {
        None => true,
        Some(k) => {
            let bearer = concat("Bearer ", k);
            opt_eq(authorization, bearer.as_str()) || opt_eq(x_api_key, k) || opt_eq(query_key, k)
        },
    }
}

} // verus!
