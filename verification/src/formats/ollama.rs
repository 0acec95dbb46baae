//! Ollama's native API (`/api/chat`, `/api/tags`, `/api/show`), and its
//! translation to and from the canonical model. Ollama is only ever an
//! upstream provider, so only the outbound request and the reply directions
//! exist.

use vstd::prelude::*;

use crate::canonical::{
    copy_opt_string, message_models, opt_view, part_models, text_of_parts, tool_call_models, views, ChatRequest,
    ChatResponse, Message, MessageModel, PartModel, Role, StopReason, ToolCall, ToolCallModel, ToolModel, Usage,
    ContentPart,
};
use crate::json::{copy_opt_value, copy_value};
use crate::text::{concat, decimal, has_substring, lowercase, str_eq};

verus! {

#[derive(Debug, Clone, PartialEq)]
pub struct OllamaMessage {
    pub role: String,
    pub content: String,
    /// Base64-encoded images, apart from `content`.
    pub images: Vec<String>,
    pub tool_calls: Option<Vec<OllamaToolCall>>,
}

#[derive(Debug, Clone, PartialEq)]
pub struct OllamaToolCall {
    pub function: OllamaFunctionCall,
}

#[derive(Debug, Clone, PartialEq)]
pub struct OllamaFunctionCall {
    pub name: String,
    pub arguments: serde_json::Value,
}

#[derive(Debug, Clone, PartialEq)]
pub struct OllamaTool {
    pub tool_type: String,
    pub function: OllamaFunctionDef,
}

#[derive(Debug, Clone, PartialEq)]
pub struct OllamaFunctionDef {
    pub name: String,
    pub description: Option<String>,
    pub parameters: serde_json::Value,
}

/// Generation parameters, which Ollama takes under `options`.
#[derive(Debug, Clone, Copy, PartialEq, Eq, Structural)]
pub struct OllamaOptions {
    /// Bit pattern of the `f32` temperature.
    pub temperature: Option<u32>,
    /// Ollama's name for the maximum number of tokens to generate.
    pub num_predict: Option<u32>,
}

#[derive(Debug)]
pub struct OllamaChatRequest {
    pub model: String,
    pub messages: Vec<OllamaMessage>,
    pub stream: bool,
    pub options: Option<OllamaOptions>,
    /// Structured-outputs config: `"json"` or a JSON Schema.
    pub format: Option<serde_json::Value>,
    pub tools: Vec<OllamaTool>,
}

#[derive(Debug, Clone, PartialEq)]
pub struct OllamaResponseMessage {
    pub content: String,
    pub tool_calls: Vec<OllamaToolCall>,
}

#[derive(Debug, Clone, PartialEq)]
pub struct OllamaChatResponse {
    pub model: String,
    pub message: OllamaResponseMessage,
    /// `false` on streaming chunks, `true` on the final one.
    pub done: bool,
    /// Why generation stopped; present once `done`.
    pub done_reason: Option<String>,
    /// Input token count; present once `done`.
    pub prompt_eval_count: u32,
    /// Output token count; present once `done`.
    pub eval_count: u32,
}

/// Response from `GET /api/tags`: the models Ollama has pulled.
#[derive(Debug, Clone, PartialEq)]
pub struct OllamaTagsResponse {
    pub models: Vec<OllamaModelInfo>,
}

#[derive(Debug, Clone, PartialEq)]
pub struct OllamaModelInfo {
    pub name: String,
}

/// Request body for `POST /api/show`.
#[derive(Debug, Clone, PartialEq)]
pub struct OllamaShowRequest {
    pub model: String,
}

/// Response from `POST /api/show`.
#[derive(Debug, Clone, PartialEq)]
pub struct OllamaShowResponse {
    pub capabilities: Vec<String>,
    pub details: OllamaShowDetails,
}

#[derive(Debug, Clone, PartialEq)]
pub struct OllamaShowDetails {
    pub family: String,
}

/// An Ollama message as the contracts see it.
pub ghost struct WireMessage {
    pub role: Seq<char>,
    pub content: Seq<char>,
    pub images: Seq<Seq<char>>,
    /// Function name and arguments of each tool call.
    pub tool_calls: Option<Seq<(Seq<char>, serde_json::Value)>>,
}

impl View for OllamaMessage {
    type V = WireMessage;

    open spec fn view(&self) -> WireMessage {
        WireMessage {
            role: self.role@,
            content: self.content@,
            images: views(self.images@),
            tool_calls: match self.tool_calls {
                Some(v) => Some(v@.map_values(|c: OllamaToolCall| (c.function.name@, c.function.arguments))),
                None => None,
            },
        }
    }
}

/// The models of a sequence of Ollama messages.
pub open spec fn wire_messages(s: Seq<OllamaMessage>) -> Seq<WireMessage> {
    s.map_values(|m: OllamaMessage| m@)
}

/// Whether a model is code-specialized, judged by its name and family.
pub open spec fn is_coding_model(model: Seq<char>, family: Seq<char>) -> bool {
    has_substring(lowercase(model + " "@ + family), "code"@)
}

/// Capabilities Ollama does not report but that its name or family imply:
/// `"coding"` when the lower-cased `"<model> <family>"` mentions `code`.
pub fn implicit_capabilities(model: &str, family: &str) -> (r: Vec<String>)
    ensures
        views(r@) == if is_coding_model(model@, family@) {
            seq!["coding"@]
        } else {
            Seq::empty()
        },
{
    let a = concat(model, " ");
    let b = concat(a.as_str(), family);
    let haystack = crate::text::to_lower(b.as_str());
    let mut caps: Vec<String> = Vec::new();
    if crate::text::contains_str(haystack.as_str(), "code") {
        caps.push(String::from_str("coding"));
    }
    proof {
        assert(views(caps@) =~= if is_coding_model(model@, family@) {
            seq!["coding"@]
        } else {
            Seq::empty()
        });
    }
    caps
}

/// A model's capabilities: those Ollama reported, followed by the implicit
/// ones.
pub fn model_capabilities(model: &str, show: OllamaShowResponse) -> (r: Vec<String>)
    ensures
        views(r@) == views(show.capabilities@) + (if is_coding_model(model@, show.details.family@) {
            seq!["coding"@]
        } else {
            Seq::empty()
        }),
{
    let mut caps = show.capabilities;
    let ghost c0 = caps@;
    let mut more = implicit_capabilities(model, show.details.family.as_str());
    let ghost m0 = more@;
    caps.append(&mut more);
    proof {
        assert(views(caps@) =~= views(c0) + views(m0));
    }
    caps
}

/// The names of the models a `GET /api/tags` response lists, in order.
pub fn model_names(tags: OllamaTagsResponse) -> (r: Vec<String>)
    ensures
        views(r@) == tags.models@.map_values(|m: OllamaModelInfo| m.name@),
{
    let ghost ms = tags.models@;
    let mut names: Vec<String> = Vec::new();
    for m in it: tags.models
        invariant
            it.seq() == ms,
            names@.len() == it.index(),
            forall|j: int| 0 <= j < names@.len() ==> (#[trigger] names@[j])@ == ms[j].name@,
    {
        let ghost k = it.index() as int;
        proof {
            assert(ms[k] == m);
        }
        names.push(m.name);
    }
    proof {
        assert(views(names@) =~= ms.map_values(|m: OllamaModelInfo| m.name@));
    }
    names
}

/// The image data of canonical parts.
pub open spec fn images_of(parts: Seq<PartModel>) -> Seq<Seq<char>>
    decreases parts.len(),
{
    if parts.len() == 0 {
        Seq::empty()
    } else {
        images_of(parts.drop_last()) + match parts.last() {
            PartModel::Image(_, d) => seq![d],
            _ => Seq::empty(),
        }
    }
}

/// The `(name, arguments)` of canonical parts' tool uses.
pub open spec fn calls_of(parts: Seq<PartModel>) -> Seq<(Seq<char>, serde_json::Value)>
    decreases parts.len(),
{
    if parts.len() == 0 {
        Seq::empty()
    } else {
        calls_of(parts.drop_last()) + match parts.last() {
            PartModel::ToolUse(_, name, input) => seq![(name, input)],
            _ => Seq::empty(),
        }
    }
}

/// The contents of canonical parts' tool results.
pub open spec fn results_of(parts: Seq<PartModel>) -> Seq<Seq<char>>
    decreases parts.len(),
{
    if parts.len() == 0 {
        Seq::empty()
    } else {
        results_of(parts.drop_last()) + match parts.last() {
            PartModel::ToolResult(_, c) => seq![c],
            _ => Seq::empty(),
        }
    }
}

pub open spec fn role_name(r: Role) -> Seq<char> {
    match r {
        Role::User => "user"@,
        Role::Assistant => "assistant"@,
    }
}

/// The Ollama messages for one canonical message: one message with its
/// text, images and tool calls (when it has any of them), then one `tool`
/// message per tool result.
pub open spec fn outbound_messages(m: MessageModel) -> Seq<WireMessage> {
    let text = text_of_parts(m.content);
    let images = images_of(m.content);
    let calls = calls_of(m.content);
    let head = if text.len() > 0 || images.len() > 0 || calls.len() > 0 {
        seq![
            WireMessage {
                role: role_name(m.role),
                content: text,
                images,
                tool_calls: if calls.len() > 0 { Some(calls) } else { None },
            },
        ]
    } else {
        Seq::empty()
    };
    head + results_of(m.content).map_values(
        |c: Seq<char>| WireMessage { role: "tool"@, content: c, images: Seq::empty(), tool_calls: None },
    )
}

/// Renders one canonical message as Ollama messages.
pub fn ollama_messages_from_canonical(msg: &Message) -> (r: Vec<OllamaMessage>)
    ensures
        wire_messages(r@) == outbound_messages(msg@),
{
    proof {
        reveal_strlit("user");
        reveal_strlit("assistant");
        reveal_strlit("tool");
    }
    let ghost parts = part_models(msg.content@);
    let mut text = String::new();
    let mut images: Vec<String> = Vec::new();
    let mut tool_calls: Vec<OllamaToolCall> = Vec::new();
    let mut tool_results: Vec<String> = Vec::new();
    let mut i: usize = 0;
    while i < msg.content.len()
        invariant
            i <= msg.content.len(),
            parts == part_models(msg.content@),
            text@ == text_of_parts(parts.take(i as int)),
            views(images@) == images_of(parts.take(i as int)),
            tool_calls@.map_values(|c: OllamaToolCall| (c.function.name@, c.function.arguments)) == calls_of(
                parts.take(i as int),
            ),
            views(tool_results@) == results_of(parts.take(i as int)),
        decreases msg.content.len() - i,
    {
        proof {
            assert(parts.take(i + 1).drop_last() =~= parts.take(i as int));
            assert(parts.take(i + 1).last() == msg.content@[i as int]@);
        }
        match &msg.content[i] {
            ContentPart::Text { text: t } => text.append(t.as_str()),
            ContentPart::Image { data, .. } => images.push(data.clone()),
            ContentPart::ToolUse { name, input, .. } => tool_calls.push(OllamaToolCall {
                function: OllamaFunctionCall { name: name.clone(), arguments: copy_value(input) },
            }),
            ContentPart::ToolResult { content, .. } => tool_results.push(content.clone()),
        }
        proof {
            assert(views(images@) =~= images_of(parts.take(i + 1)));
            assert(tool_calls@.map_values(|c: OllamaToolCall| (c.function.name@, c.function.arguments)) =~= calls_of(
                parts.take(i + 1),
            ));
            assert(views(tool_results@) =~= results_of(parts.take(i + 1)));
        }
        i = i + 1;
    }
    proof {
        assert(parts.take(i as int) =~= parts);
    }
    let role = match msg.role {
        Role::User => "user",
        Role::Assistant => "assistant",
    };
    let mut out: Vec<OllamaMessage> = Vec::new();
    if !text.as_str().is_empty() || images.len() > 0 || tool_calls.len() > 0 {
        let calls = if tool_calls.len() > 0 { Some(tool_calls) } else { None };
        out.push(OllamaMessage { role: String::from_str(role), content: text, images, tool_calls: calls });
    }
    let ghost head = wire_messages(out@);
    let ghost rs = results_of(parts);
    for content in it: tool_results
        invariant
            views(it.seq()) == rs,
            head.len() <= 1,
            out@.len() == head.len() + it.index(),
            forall|j: int| 0 <= j < head.len() ==> (#[trigger] out@[j])@ == head[j],
            forall|j: int|
                0 <= j < it.index() ==> (#[trigger] out@[head.len() + j])@ == (WireMessage {
                    role: "tool"@,
                    content: rs[j],
                    images: Seq::empty(),
                    tool_calls: None,
                }),
    {
        let ghost k = it.index() as int;
        proof {
            assert(views(it.seq())[k] == content@);
        }
        let imgs: Vec<String> = Vec::new();
        proof {
            assert(views(imgs@) =~= Seq::<Seq<char>>::empty());
        }
        out.push(OllamaMessage { role: String::from_str("tool"), content, images: imgs, tool_calls: None });
    }
    proof {
        let target = outbound_messages(msg@);
        assert(target.len() == out@.len());
        assert forall|j: int| 0 <= j < target.len() implies wire_messages(out@)[j] == target[j] by {
            if j >= head.len() {
                assert(out@[head.len() + (j - head.len())]@ == target[j]);
            }
        }
        assert(wire_messages(out@) =~= target);
    }
    out
}

/// The Ollama messages of a conversation, each message's in turn.
pub open spec fn all_outbound(ms: Seq<MessageModel>) -> Seq<WireMessage>
    decreases ms.len(),
{
    if ms.len() == 0 {
        Seq::empty()
    } else {
        all_outbound(ms.drop_last()) + outbound_messages(ms.last())
    }
}

/// The system prompt as a leading `system` message, when there is one.
pub open spec fn system_message(system: Option<Seq<char>>) -> Seq<WireMessage> {
    match system {
        Some(s) => seq![WireMessage { role: "system"@, content: s, images: Seq::empty(), tool_calls: None }],
        None => Seq::empty(),
    }
}

/// `w` is the Ollama declaration of tool `t`.
pub open spec fn ollama_tool_for(w: OllamaTool, t: ToolModel) -> bool {
    &&& w.tool_type@ == "function"@
    &&& w.function.name@ == t.name
    &&& opt_view(w.function.description) == t.description
    &&& w.function.parameters == t.input_schema
}

/// The `options` of a request: present when a temperature or a token limit
/// is set, carrying both.
pub open spec fn options_for(temperature: Option<u32>, max_tokens: Option<u32>) -> Option<OllamaOptions> {
    if temperature is Some || max_tokens is Some {
        Some(OllamaOptions { temperature, num_predict: max_tokens })
    } else {
        None
    }
}

impl OllamaChatRequest {
    /// An outbound request to a provider that speaks Ollama's native API.
    pub fn from_chat(req: &ChatRequest) -> (r: OllamaChatRequest)
        ensures
            r.model@ == req.model@,
            wire_messages(r.messages@) == system_message(opt_view(req.system)) + all_outbound(
                message_models(req.messages@),
            ),
            r.stream == req.stream,
            r.options == options_for(req.temperature, req.max_tokens),
            r.format == req.output_schema,
            r.tools@.len() == req.tools@.len(),
            forall|i: int| 0 <= i < r.tools@.len() ==> ollama_tool_for(#[trigger] r.tools@[i], req.tools@[i]@),
    {
        proof {
            reveal_strlit("system");
            reveal_strlit("function");
        }
        let ghost mm = message_models(req.messages@);
        let mut messages: Vec<OllamaMessage> = Vec::new();
        if let Some(system) = &req.system {
            let imgs: Vec<String> = Vec::new();
            proof {
                assert(views(imgs@) =~= Seq::<Seq<char>>::empty());
            }
            messages.push(OllamaMessage {
                role: String::from_str("system"),
                content: system.clone(),
                images: imgs,
                tool_calls: None,
            });
        }
        let ghost head = wire_messages(messages@);
        proof {
            assert(head =~= system_message(opt_view(req.system)));
        }
        let mut i: usize = 0;
        while i < req.messages.len()
            invariant
                i <= req.messages.len(),
                mm == message_models(req.messages@),
                wire_messages(messages@) == head + all_outbound(mm.take(i as int)),
            decreases req.messages.len() - i,
        {
            let ghost before = messages@;
            let mut more = ollama_messages_from_canonical(&req.messages[i]);
            let ghost added = more@;
            messages.append(&mut more);
            proof {
                assert(mm.take(i + 1).drop_last() =~= mm.take(i as int));
                assert(mm.take(i + 1).last() == req.messages@[i as int]@);
                assert(wire_messages(messages@) =~= wire_messages(before) + wire_messages(added));
                assert(wire_messages(messages@) =~= head + all_outbound(mm.take(i + 1)));
            }
            i = i + 1;
        }
        proof {
            assert(mm.take(i as int) =~= mm);
        }
        let options = if req.temperature.is_some() || req.max_tokens.is_some() {
            Some(OllamaOptions { temperature: req.temperature, num_predict: req.max_tokens })
        } else {
            None
        };
        let mut tools: Vec<OllamaTool> = Vec::new();
        let mut j: usize = 0;
        while j < req.tools.len()
            invariant
                j <= req.tools.len(),
                tools@.len() == j,
                forall|k: int| 0 <= k < j ==> ollama_tool_for(#[trigger] tools@[k], req.tools@[k]@),
            decreases req.tools.len() - j,
        {
            let t = &req.tools[j];
            tools.push(OllamaTool {
                tool_type: String::from_str("function"),
                function: OllamaFunctionDef {
                    name: t.name.clone(),
                    description: copy_opt_string(&t.description),
                    parameters: copy_value(&t.input_schema),
                },
            });
            j = j + 1;
        }
        OllamaChatRequest {
            model: req.model.clone(),
            messages,
            stream: req.stream,
            options,
            format: copy_opt_value(&req.output_schema),
            tools,
        }
    }
}

/// The stop reason of an Ollama reply: a tool use when it calls tools, else
/// by `done_reason` (`"stop"`, `"length"`, anything else).
pub open spec fn ollama_stop(n_calls: nat, done_reason: Option<Seq<char>>) -> StopReason {
    if n_calls > 0 {
        StopReason::ToolUse
    } else {
        match done_reason {
            Some(r) => if r == "stop"@ {
                StopReason::EndTurn
            } else if r == "length"@ {
                StopReason::MaxTokens
            } else {
                StopReason::Other
            },
            None => StopReason::Other,
        }
    }
}

/// The id given to the `i`-th tool call of an Ollama reply, which assigns none.
pub open spec fn ollama_call_id(i: nat) -> Seq<char> {
    "ollama-call-"@ + decimal(i)
}

impl ChatResponse {
    /// A reply from a provider that speaks Ollama's native API.
    pub fn from_ollama(resp: OllamaChatResponse) -> (r: ChatResponse)
        ensures
            r.id@ == "ollama-"@ + resp.model@,
            r.model == resp.model,
            r.content == resp.message.content,
            r.tool_calls@.len() == resp.message.tool_calls@.len(),
            forall|i: int|
                0 <= i < r.tool_calls@.len() ==> (#[trigger] r.tool_calls@[i])@ == (ToolCallModel {
                    id: ollama_call_id(i as nat),
                    name: resp.message.tool_calls@[i].function.name@,
                    input: resp.message.tool_calls@[i].function.arguments,
                }),
            r.stop_reason == ollama_stop(resp.message.tool_calls@.len(), opt_view(resp.done_reason)),
            r.usage.input_tokens == resp.prompt_eval_count,
            r.usage.output_tokens == resp.eval_count,
            r.tags@.len() == 0,
    {
        proof {
            reveal_strlit("stop");
            reveal_strlit("length");
        }
        let ghost calls = resp.message.tool_calls@;
        let total = resp.message.tool_calls.len();
        let mut tool_calls: Vec<ToolCall> = Vec::new();
        let mut n: usize = 0;
        for tc in it: resp.message.tool_calls
            invariant
                it.seq() == calls,
                calls.len() == total,
                n == it.index(),
                n <= calls.len(),
                tool_calls@.len() == it.index(),
                forall|i: int|
                    0 <= i < tool_calls@.len() ==> (#[trigger] tool_calls@[i])@ == (ToolCallModel {
                        id: ollama_call_id(i as nat),
                        name: calls[i].function.name@,
                        input: calls[i].function.arguments,
                    }),
        {
            proof {
                assert(calls[n as int] == tc);
            }
            let digits = crate::text::u64_text(n as u64);
            let id = concat("ollama-call-", digits.as_str());
            tool_calls.push(ToolCall { id, name: tc.function.name, input: tc.function.arguments });
            n = n + 1;
        }
        let stop_reason = if tool_calls.len() > 0 {
            StopReason::ToolUse
        } else {
            match &resp.done_reason {
                Some(r) => {
                    if str_eq(r.as_str(), "stop") {
                        StopReason::EndTurn
                    } else if str_eq(r.as_str(), "length") {
                        StopReason::MaxTokens
                    } else {
                        StopReason::Other
                    }
                },
                None => StopReason::Other,
            }
        };
        ChatResponse {
            id: concat("ollama-", resp.model.as_str()),
            model: resp.model,
            content: resp.message.content,
            stop_reason,
            tool_calls,
            usage: Usage { input_tokens: resp.prompt_eval_count, output_tokens: resp.eval_count },
            tags: Vec::new(),
        }
    }
}

} // verus!
