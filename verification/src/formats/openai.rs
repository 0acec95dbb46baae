//! The OpenAI `/v1/chat/completions` shape, and its translation to and from
//! the canonical model. Used both for requests from OpenAI-speaking clients
//! and for calls to OpenAI-speaking providers.

use vstd::prelude::*;

use crate::canonical::{
    copy_opt_string, event_models, EventModel,
    message_models, opt_view, part_models, tool_call_models, tool_models, MessageModel, ToolCallModel, ToolModel, text_of_parts, ChatRequest, ChatResponse, ContentPart, Message, PartModel, PluginRequest, Role,
    StopReason, StreamEvent, Tool, ToolCall, Usage,
};
use crate::json::{copy_opt_value, copy_value, json_text, parse_json_or_null, parsed_or_null, value_to_text};
use crate::text::{chars_of, concat, find_chars, first_occurrence, has_prefix, occurs_at, has_substring, starts_with_chars, str_eq, substring};

verus! {

/// Message content: a bare string, or typed blocks (mixed text/images).
#[derive(Debug, Clone, PartialEq)]
pub enum OpenAiContent {
    Text(String),
    Blocks(Vec<OpenAiContentBlock>),
}

#[derive(Debug, Clone, PartialEq)]
pub enum OpenAiContentBlock {
    Text { text: String },
    ImageUrl { image_url: OpenAiImageUrl },
}

#[derive(Debug, Clone, PartialEq)]
pub struct OpenAiImageUrl {
    pub url: String,
}

#[derive(Debug, Clone, PartialEq)]
pub struct OpenAiMessage {
    pub role: String,
    pub content: Option<OpenAiContent>,
    /// Present on an assistant message that requests tool calls.
    pub tool_calls: Option<Vec<OpenAiToolCall>>,
    /// Present on a `role: "tool"` message: which call this answers.
    pub tool_call_id: Option<String>,
}

#[derive(Debug, Clone, PartialEq)]
pub struct OpenAiToolCall {
    pub id: String,
    pub call_type: String,
    pub function: OpenAiFunctionCall,
}

#[derive(Debug, Clone, PartialEq)]
pub struct OpenAiFunctionCall {
    pub name: String,
    /// JSON-encoded arguments object.
    pub arguments: String,
}

#[derive(Debug, Clone, PartialEq)]
pub struct OpenAiTool {
    pub tool_type: String,
    pub function: OpenAiFunctionDef,
}

#[derive(Debug, Clone, PartialEq)]
pub struct OpenAiFunctionDef {
    pub name: String,
    pub description: Option<String>,
    pub parameters: serde_json::Value,
}

#[derive(Debug)]
pub struct OpenAiChatRequest {
    pub model: String,
    pub messages: Vec<OpenAiMessage>,
    pub max_tokens: Option<u32>,
    /// Bit pattern of the client's `f32` temperature.
    pub temperature: Option<u32>,
    /// Structured-outputs config.
    pub response_format: Option<ResponseFormat>,
    pub tools: Vec<OpenAiTool>,
    pub stream: bool,
    /// Plugins to run for this request; stripped before forwarding.
    pub plugins: Vec<PluginRequest>,
}

#[derive(Debug, Clone, PartialEq)]
pub struct ResponseFormat {
    pub format_type: String,
    pub json_schema: JsonSchemaFormat,
}

#[derive(Debug, Clone, PartialEq)]
pub struct JsonSchemaFormat {
    pub name: String,
    pub schema: serde_json::Value,
    pub strict: bool,
}

#[derive(Debug, Clone, Copy, PartialEq, Eq, Structural)]
pub struct OpenAiUsage {
    pub prompt_tokens: u32,
    pub completion_tokens: u32,
    pub total_tokens: u32,
}

impl Default for OpenAiUsage {
    fn default() -> (r: OpenAiUsage)
        ensures
            r.prompt_tokens == 0 && r.completion_tokens == 0 && r.total_tokens == 0,
    {
        OpenAiUsage { prompt_tokens: 0, completion_tokens: 0, total_tokens: 0 }
    }
}

#[derive(Debug, Clone, PartialEq)]
pub struct OpenAiChoice {
    pub index: u32,
    pub message: OpenAiMessage,
    pub finish_reason: Option<String>,
}

#[derive(Debug, Clone, PartialEq)]
pub struct OpenAiChatResponse {
    pub id: String,
    pub object: String,
    pub model: String,
    pub choices: Vec<OpenAiChoice>,
    pub usage: OpenAiUsage,
}

/// A content block as the contracts see it.
pub ghost enum BlockModel {
    Text(Seq<char>),
    ImageUrl(Seq<char>),
}

/// Message content as the contracts see it.
pub ghost enum ContentModel {
    Text(Seq<char>),
    Blocks(Seq<BlockModel>),
}

/// A tool call as the contracts see it: id, type, function name, arguments.
pub ghost struct CallModel {
    pub id: Seq<char>,
    pub call_type: Seq<char>,
    pub name: Seq<char>,
    pub arguments: Seq<char>,
}

/// An OpenAI message as the contracts see it.
pub ghost struct WireMessage {
    pub role: Seq<char>,
    pub content: Option<ContentModel>,
    pub tool_calls: Option<Seq<CallModel>>,
    pub tool_call_id: Option<Seq<char>>,
}

impl View for OpenAiContentBlock {
    type V = BlockModel;

    open spec fn view(&self) -> BlockModel {
        match self {
            OpenAiContentBlock::Text { text } => BlockModel::Text(text@),
            OpenAiContentBlock::ImageUrl { image_url } => BlockModel::ImageUrl(image_url.url@),
        }
    }
}

impl View for OpenAiContent {
    type V = ContentModel;

    open spec fn view(&self) -> ContentModel {
        match self {
            OpenAiContent::Text(t) => ContentModel::Text(t@),
            OpenAiContent::Blocks(b) => ContentModel::Blocks(b@.map_values(|x: OpenAiContentBlock| x@)),
        }
    }
}

impl View for OpenAiToolCall {
    type V = CallModel;

    open spec fn view(&self) -> CallModel {
        CallModel {
            id: self.id@,
            call_type: self.call_type@,
            name: self.function.name@,
            arguments: self.function.arguments@,
        }
    }
}

impl View for OpenAiMessage {
    type V = WireMessage;

    open spec fn view(&self) -> WireMessage {
        WireMessage {
            role: self.role@,
            content: match self.content {
                Some(c) => Some(c@),
                None => None,
            },
            tool_calls: match self.tool_calls {
                Some(v) => Some(v@.map_values(|c: OpenAiToolCall| c@)),
                None => None,
            },
            tool_call_id: opt_view(self.tool_call_id),
        }
    }
}

/// The models of a sequence of OpenAI messages.
pub open spec fn wire_messages(s: Seq<OpenAiMessage>) -> Seq<WireMessage> {
    s.map_values(|m: OpenAiMessage| m@)
}

/// `data:<media_type>;base64,<data>` split into its media type and data;
/// nothing for any other URL.
pub open spec fn data_url_parts(url: Seq<char>) -> Option<(Seq<char>, Seq<char>)> {
    if has_prefix(url, "data:"@) {
        let rest = url.skip(5);
        match first_occurrence(rest, ";base64,"@) {
            Some(i) => Some((rest.take(i), rest.skip(i + 8))),
            None => None,
        }
    } else {
        None
    }
}

/// The canonical parts for a sequence of content blocks: text blocks map to
/// text, image blocks with a base64 `data:` URL to images; any other image
/// (e.g. a remote URL) is dropped.
pub open spec fn parts_of_blocks(blocks: Seq<BlockModel>) -> Seq<PartModel>
    decreases blocks.len(),
{
    if blocks.len() == 0 {
        Seq::empty()
    } else {
        parts_of_blocks(blocks.drop_last()) + match blocks.last() {
            BlockModel::Text(t) => seq![PartModel::Text(t)],
            BlockModel::ImageUrl(u) => match data_url_parts(u) {
                Some((m, d)) => seq![PartModel::Image(m, d)],
                None => Seq::empty(),
            },
        }
    }
}

/// The canonical parts for optional OpenAI content.
pub open spec fn parts_of_content(content: Option<ContentModel>) -> Seq<PartModel> {
    match content {
        None => Seq::empty(),
        Some(ContentModel::Text(t)) => seq![PartModel::Text(t)],
        Some(ContentModel::Blocks(b)) => parts_of_blocks(b),
    }
}

/// The text of optional OpenAI content (its text parts joined).
pub open spec fn text_of_content(content: Option<ContentModel>) -> Seq<char> {
    text_of_parts(parts_of_content(content))
}

/// In `media_type ;base64, data`, the separator starts nowhere before the
/// end of the media type, when the media type does not hold it: `;base64,`
/// has no proper prefix that is also a suffix, so no occurrence can straddle
/// the boundary.
proof fn lemma_no_separator_before(media_type: Seq<char>, data: Seq<char>, j: int)
    requires
        forall|i: int| !#[trigger] occurs_at(media_type, ";base64,"@, i),
        0 <= j < media_type.len(),
    ensures
        !occurs_at(media_type + ";base64,"@ + data, ";base64,"@, j),
{
    reveal_strlit(";base64,");
    let sep = ";base64,"@;
    let rest = media_type + sep + data;
    let n = media_type.len() as int;
    if occurs_at(rest, sep, j) {
        if j + 8 <= n {
            assert(media_type.subrange(j, j + 8) =~= rest.subrange(j, j + 8));
            assert(occurs_at(media_type, sep, j));
        } else {
            let d = n - j;
            assert(rest.subrange(j, j + 8)[d] == rest[n]);
            assert(rest[n] == sep[0]);
            assert(sep[d] != ';');
        }
    }
}

/// A `data:` URL built from a media type and data splits back into them,
/// when the media type does not itself hold `;base64,` (the separator is
/// found at its first occurrence).
pub proof fn law_data_url_round_trip(media_type: Seq<char>, data: Seq<char>)
    requires
        forall|j: int| !#[trigger] occurs_at(media_type, ";base64,"@, j),
    ensures
        data_url_parts("data:"@ + media_type + ";base64,"@ + data) == Some((media_type, data)),
{
    reveal_strlit("data:");
    reveal_strlit(";base64,");
    let url = "data:"@ + media_type + ";base64,"@ + data;
    let sep = ";base64,"@;
    let rest = media_type + sep + data;
    assert(url.subrange(0, 5) =~= "data:"@);
    assert(url.skip(5) =~= rest);
    let n = media_type.len() as int;
    assert(rest.subrange(n, n + 8) =~= sep);
    assert(occurs_at(rest, sep, n));
    assert forall|j: int| 0 <= j < n implies !#[trigger] occurs_at(rest, sep, j) by {
        lemma_no_separator_before(media_type, data, j);
    }
    let k = choose|i: int| occurs_at(rest, sep, i) && forall|j: int| 0 <= j < i ==> !#[trigger] occurs_at(rest, sep, j);
    assert(occurs_at(rest, sep, k) && forall|j: int| 0 <= j < k ==> !#[trigger] occurs_at(rest, sep, j));
    if k < n {
        assert(!occurs_at(rest, sep, k));
    }
    if k > n {
        assert(!occurs_at(rest, sep, n));
    }
    assert(k == n);
    assert(rest.take(n) =~= media_type);
    assert(rest.skip(n + 8) =~= data);
}

/// Splits a base64 `data:` URL into `(media_type, data)`; nothing for any
/// other URL (the canonical image carries inline data only).
pub fn parse_data_url(url: &str) -> (r: Option<(String, String)>)
    ensures
        match r {
            Some((m, d)) => data_url_parts(url@) == Some((m@, d@)),
            None => data_url_parts(url@).is_none(),
        },
{
    let cs = chars_of(url);
    let prefix = chars_of("data:");
    let sep = chars_of(";base64,");
    proof {
        reveal_strlit("data:");
        reveal_strlit(";base64,");
    }
    if !starts_with_chars(&cs, &prefix) {
        return None;
    }
    let rest = crate::text::slice_chars(&cs, 5, cs.len());
    proof {
        assert(rest@ =~= url@.skip(5));
    }
    match find_chars(&rest, &sep) {
        Some(i) => {
            assert(sep@.len() == 8);
            let m = substring(&rest, 0, i);
            let d = substring(&rest, i + 8, rest.len());
            proof {
                assert(m@ =~= rest@.take(i as int));
                assert(d@ =~= rest@.skip(i + 8));
            }
            Some((m, d))
        },
        None => None,
    }
}

/// `data:<media_type>;base64,<data>`.
pub fn data_url(media_type: &str, data: &str) -> (r: String)
    ensures
        r@ == "data:"@ + media_type@ + ";base64,"@ + data@,
{
    let a = concat("data:", media_type);
    let b = concat(a.as_str(), ";base64,");
    concat(b.as_str(), data)
}

/// The canonical parts for optional OpenAI content.
#[verifier::spinoff_prover]
#[verifier::rlimit(40)]
pub fn content_parts_from_openai(content: Option<OpenAiContent>) -> (r: Vec<ContentPart>)
    ensures
        part_models(r@) == parts_of_content(match content {
            Some(c) => Some(c@),
            None => None,
        }),
{
    match content {
        None => {
            let v: Vec<ContentPart> = Vec::new();
            proof {
                assert(part_models(v@) =~= Seq::<PartModel>::empty());
            }
            v
        },
        Some(OpenAiContent::Text(text)) => {
            let mut v: Vec<ContentPart> = Vec::new();
            v.push(ContentPart::Text { text });
            proof {
                assert(part_models(v@) =~= seq![PartModel::Text(text@)]);
            }
            v
        },
        Some(OpenAiContent::Blocks(blocks)) => {
            let ghost bm = blocks@.map_values(|x: OpenAiContentBlock| x@);
            let mut v: Vec<ContentPart> = Vec::new();
            let mut i: usize = 0;
            while i < blocks.len()
                invariant
                    i <= blocks.len(),
                    bm == blocks@.map_values(|x: OpenAiContentBlock| x@),
                    part_models(v@) == parts_of_blocks(bm.take(i as int)),
                decreases blocks.len() - i,
            {
                proof {
                    assert(bm.take(i + 1).drop_last() =~= bm.take(i as int));
                    assert(bm.take(i + 1).last() == blocks@[i as int]@);
                }
                let ghost before = v@;
                match &blocks[i] {
                    OpenAiContentBlock::Text { text } => {
                        v.push(ContentPart::Text { text: text.clone() });
                    },
                    OpenAiContentBlock::ImageUrl { image_url } => {
                        match parse_data_url(image_url.url.as_str()) {
                            Some((media_type, data)) => {
                                v.push(ContentPart::Image { media_type, data });
                            },
                            None => {},
                        }
                    },
                }
                proof {
                    assert(part_models(v@) =~= parts_of_blocks(bm.take(i + 1)));
                }
                i = i + 1;
            }
            proof {
                assert(bm.take(i as int) =~= bm);
            }
            v
        },
    }
}

/// The text of optional OpenAI content (its text parts joined).
pub fn openai_content_to_text(content: Option<OpenAiContent>) -> (r: String)
    ensures
        r@ == text_of_content(match content {
            Some(c) => Some(c@),
            None => None,
        }),
{
    let msg = Message { role: Role::User, content: content_parts_from_openai(content) };
    msg.text_content()
}

} // verus!

verus! {

/// The tool-use parts for an assistant message's tool calls, with each
/// call's arguments parsed as JSON (`null` when malformed).
pub open spec fn tool_uses(calls: Option<Seq<CallModel>>) -> Seq<PartModel> {
    match calls {
        None => Seq::empty(),
        Some(cs) => cs.map_values(|c: CallModel| PartModel::ToolUse(c.id, c.name, parsed_or_null(c.arguments))),
    }
}

/// The canonical turn (if any) for one inbound OpenAI message: system
/// messages become none (they set the system prompt), assistant messages
/// keep their content plus their tool calls, a `tool` message becomes a
/// user turn holding one tool result, and anything else is a user turn.
pub open spec fn inbound_turn(m: WireMessage) -> Seq<MessageModel> {
    if m.role == "system"@ {
        Seq::empty()
    } else if m.role == "assistant"@ {
        seq![MessageModel { role: Role::Assistant, content: parts_of_content(m.content) + tool_uses(m.tool_calls) }]
    } else if m.role == "tool"@ {
        seq![
            MessageModel {
                role: Role::User,
                content: seq![
                    PartModel::ToolResult(
                        match m.tool_call_id {
                            Some(id) => id,
                            None => Seq::empty(),
                        },
                        text_of_content(m.content),
                    ),
                ],
            },
        ]
    } else {
        seq![MessageModel { role: Role::User, content: parts_of_content(m.content) }]
    }
}

/// The canonical turns for a sequence of inbound OpenAI messages.
pub open spec fn inbound_turns(ms: Seq<WireMessage>) -> Seq<MessageModel>
    decreases ms.len(),
{
    if ms.len() == 0 {
        Seq::empty()
    } else {
        inbound_turns(ms.drop_last()) + inbound_turn(ms.last())
    }
}

/// The system prompt of a sequence of inbound OpenAI messages: the text of
/// the last `system` message, if any.
pub open spec fn inbound_system(ms: Seq<WireMessage>) -> Option<Seq<char>>
    decreases ms.len(),
{
    if ms.len() == 0 {
        None
    } else if ms.last().role == "system"@ {
        Some(text_of_content(ms.last().content))
    } else {
        inbound_system(ms.drop_last())
    }
}

/// The canonical tool for an OpenAI function tool.
pub open spec fn tool_from_wire(t: OpenAiTool) -> ToolModel {
    ToolModel {
        name: t.function.name@,
        description: opt_view(t.function.description),
        input_schema: t.function.parameters,
    }
}

/// The schema of a `json_schema` response format; nothing for any other.
pub open spec fn schema_of_format(f: Option<ResponseFormat>) -> Option<serde_json::Value> {
    match f {
        Some(f) => if f.format_type@ == "json_schema"@ {
            Some(f.json_schema.schema)
        } else {
            None
        },
        None => None,
    }
}

/// Whether `s` is the literal `lit`.
fn is_literal(s: &str, lit: &str) -> (r: bool)
    ensures
        r == (s@ == lit@),
{
    str_eq(s, lit)
}

/// The tool-use parts for an assistant message's tool calls.
fn tool_use_parts(calls: Option<Vec<OpenAiToolCall>>) -> (r: Vec<ContentPart>)
    ensures
        part_models(r@) == tool_uses(match calls {
            Some(v) => Some(v@.map_values(|c: OpenAiToolCall| c@)),
            None => None,
        }),
{
    let mut out: Vec<ContentPart> = Vec::new();
    match calls {
        None => {
            proof {
                assert(part_models(out@) =~= Seq::<PartModel>::empty());
            }
        },
        Some(v) => {
            let ghost cm = v@.map_values(|c: OpenAiToolCall| c@);
            let mut i: usize = 0;
            while i < v.len()
                invariant
                    i <= v.len(),
                    cm == v@.map_values(|c: OpenAiToolCall| c@),
                    part_models(out@) == tool_uses(Some(cm)).take(i as int),
                decreases v.len() - i,
            {
                let tc = &v[i];
                let input = parse_json_or_null(tc.function.arguments.as_str());
                let ghost before = out@;
                out.push(ContentPart::ToolUse { id: tc.id.clone(), name: tc.function.name.clone(), input });
                proof {
                    assert(cm[i as int] == v@[i as int]@);
                    assert(part_models(out@).last() == tool_uses(Some(cm))[i as int]);
                    assert(part_models(out@).drop_last() =~= part_models(before));
                    assert(tool_uses(Some(cm)).take(i + 1).drop_last() =~= tool_uses(Some(cm)).take(i as int));
                }
                i = i + 1;
                proof {
                    assert(part_models(out@) =~= tool_uses(Some(cm)).take(i as int));
                }
            }
            proof {
                assert(tool_uses(Some(cm)).take(i as int) =~= tool_uses(Some(cm)));
            }
        },
    }
    out
}

impl ChatRequest {
    /// An inbound request from a client speaking the OpenAI format.
    pub fn from_openai(req: OpenAiChatRequest) -> (r: ChatRequest)
        ensures
            received_from_openai(req, r),
    {
        proof {
            reveal_strlit("system");
            reveal_strlit("assistant");
            reveal_strlit("tool");
            reveal_strlit("json_schema");
        }
        let ghost wm = wire_messages(req.messages@);
        let mut system: Option<String> = None;
        let mut messages: Vec<Message> = Vec::new();
        for msg in it: req.messages
            invariant
                it.seq() == req.messages@,
                wm == wire_messages(req.messages@),
                opt_view(system) == inbound_system(wm.take(it.index() as int)),
                message_models(messages@) == inbound_turns(wm.take(it.index() as int)),
        {
            let ghost k = it.index() as int;
            proof {
                assert(wm.take(k + 1).drop_last() =~= wm.take(k));
                assert(wm.take(k + 1).last() == msg@);
            }
            let ghost before = messages@;
            let ghost mv = msg@;
            if is_literal(msg.role.as_str(), "system") {
                system = Some(openai_content_to_text(msg.content));
            } else if is_literal(msg.role.as_str(), "assistant") {
                let mut content = content_parts_from_openai(msg.content);
                let mut uses = tool_use_parts(msg.tool_calls);
                let ghost c0 = content@;
                content.append(&mut uses);
                proof {
                    assert(part_models(content@) =~= part_models(c0) + tool_uses(mv.tool_calls));
                }
                messages.push(Message { role: Role::Assistant, content });
            } else if is_literal(msg.role.as_str(), "tool") {
                let id = match msg.tool_call_id {
                    Some(id) => id,
                    None => String::new(),
                };
                let text = openai_content_to_text(msg.content);
                let mut content: Vec<ContentPart> = Vec::new();
                content.push(ContentPart::ToolResult { tool_use_id: id, content: text });
                proof {
                    assert(part_models(content@) =~= inbound_turn(mv)[0].content);
                }
                messages.push(Message { role: Role::User, content });
            } else {
                let content = content_parts_from_openai(msg.content);
                messages.push(Message { role: Role::User, content });
            }
            proof {
                assert(message_models(messages@) =~= inbound_turns(wm.take(k + 1)));
            }
        }
        proof {
            assert(wm.take(req.messages@.len() as int) =~= wm);
        }

        let output_schema = match req.response_format {
            Some(f) => {
                if is_literal(f.format_type.as_str(), "json_schema") {
                    Some(f.json_schema.schema)
                } else {
                    None
                }
            },
            None => None,
        };

        let ghost wt = req.tools@;
        let mut tools: Vec<Tool> = Vec::new();
        for t in it: req.tools
            invariant
                it.seq() == wt,
                tool_models(tools@) == wt.take(it.index() as int).map_values(|t: OpenAiTool| tool_from_wire(t)),
        {
            let ghost k = it.index() as int;
            let ghost tv = t;
            let ghost before = tools@;
            proof {
                assert(wt[k] == tv);
            }
            tools.push(Tool { name: t.function.name, description: t.function.description, input_schema: t.function.parameters });
            proof {
                assert(tool_models(tools@).drop_last() =~= tool_models(before));
                assert(tools@[k]@ == tool_from_wire(tv));
                assert(tool_models(tools@)[k] == tool_from_wire(tv));
                assert(wt.take(k + 1).drop_last() =~= wt.take(k));
                let target = wt.take(k + 1).map_values(|t: OpenAiTool| tool_from_wire(t));
                let prev = wt.take(k).map_values(|t: OpenAiTool| tool_from_wire(t));
                assert forall|j: int| 0 <= j < k + 1 implies tool_models(tools@)[j] == target[j] by {
                    if j < k {
                        assert(tool_models(tools@)[j] == tool_models(before)[j]);
                        assert(tool_models(before)[j] == prev[j]);
                        assert(prev[j] == tool_from_wire(wt[j]));
                    }
                }
                assert(tool_models(tools@) =~= target);
            }
        }
        proof {
            assert(wt.take(wt.len() as int) =~= wt);
        }

        ChatRequest {
            model: req.model,
            system,
            messages,
            max_tokens: req.max_tokens,
            temperature: req.temperature,
            thinking: None,
            effort: None,
            task_budget: None,
            output_schema,
            tools,
            stream: req.stream,
            plugins: req.plugins,
            forced_provider: None,
            tags: Vec::new(),
        }
    }
}

} // verus!

verus! {

/// The content blocks for canonical parts: text stays text, an image
/// becomes a base64 `data:` URL; tool parts have no block.
pub open spec fn blocks_of(parts: Seq<PartModel>) -> Seq<BlockModel>
    decreases parts.len(),
{
    if parts.len() == 0 {
        Seq::empty()
    } else {
        blocks_of(parts.drop_last()) + match parts.last() {
            PartModel::Text(t) => seq![BlockModel::Text(t)],
            PartModel::Image(m, d) => seq![BlockModel::ImageUrl("data:"@ + m + ";base64,"@ + d)],
            _ => Seq::empty(),
        }
    }
}

/// The function tool calls for canonical parts' tool uses, arguments
/// printed as JSON text.
pub open spec fn calls_of(parts: Seq<PartModel>) -> Seq<CallModel>
    decreases parts.len(),
{
    if parts.len() == 0 {
        Seq::empty()
    } else {
        calls_of(parts.drop_last()) + match parts.last() {
            PartModel::ToolUse(id, name, input) => seq![
                CallModel { id, call_type: "function"@, name, arguments: json_text(input) },
            ],
            _ => Seq::empty(),
        }
    }
}

/// The `(tool_use_id, content)` of canonical parts' tool results.
pub open spec fn results_of(parts: Seq<PartModel>) -> Seq<(Seq<char>, Seq<char>)>
    decreases parts.len(),
{
    if parts.len() == 0 {
        Seq::empty()
    } else {
        results_of(parts.drop_last()) + match parts.last() {
            PartModel::ToolResult(id, c) => seq![(id, c)],
            _ => Seq::empty(),
        }
    }
}

/// Some part is an image.
pub open spec fn any_image(parts: Seq<PartModel>) -> bool {
    exists|i: int| 0 <= i < parts.len() && (#[trigger] parts[i] is Image)
}

pub open spec fn role_name(r: Role) -> Seq<char> {
    match r {
        Role::User => "user"@,
        Role::Assistant => "assistant"@,
    }
}

/// A `role: "tool"` message carrying one tool result.
pub open spec fn tool_result_message(r: (Seq<char>, Seq<char>)) -> WireMessage {
    WireMessage {
        role: "tool"@,
        content: Some(ContentModel::Text(r.1)),
        tool_calls: None,
        tool_call_id: Some(r.0),
    }
}

/// The OpenAI messages for one canonical message: one message for its
/// text, images and tool calls (if it has any) — content as blocks when it
/// holds an image, as a bare string when it holds only text, absent
/// otherwise — followed by one `tool` message per tool result.
pub open spec fn outbound_messages(m: MessageModel) -> Seq<WireMessage> {
    let parts = m.content;
    let blocks = blocks_of(parts);
    let calls = calls_of(parts);
    let text = text_of_parts(parts);
    let head = if blocks.len() > 0 || calls.len() > 0 {
        seq![
            WireMessage {
                role: role_name(m.role),
                content: if any_image(parts) {
                    Some(ContentModel::Blocks(blocks))
                } else if text.len() > 0 {
                    Some(ContentModel::Text(text))
                } else {
                    None
                },
                tool_calls: if calls.len() > 0 { Some(calls) } else { None },
                tool_call_id: None,
            },
        ]
    } else {
        Seq::empty()
    };
    head + results_of(parts).map_values(|r: (Seq<char>, Seq<char>)| tool_result_message(r))
}

/// Renders one canonical message as OpenAI messages; a tool result becomes
/// its own `role: "tool"` message.
pub fn openai_messages_from_canonical(msg: &Message) -> (r: Vec<OpenAiMessage>)
    ensures
        wire_messages(r@) == outbound_messages(msg@),
{
    proof {
        reveal_strlit("user");
        reveal_strlit("assistant");
        reveal_strlit("function");
        reveal_strlit("tool");
        reveal_strlit("data:");
        reveal_strlit(";base64,");
    }
    let role = match msg.role {
        Role::User => "user",
        Role::Assistant => "assistant",
    };
    let ghost parts = part_models(msg.content@);
    let mut blocks: Vec<OpenAiContentBlock> = Vec::new();
    let mut has_image = false;
    let mut text_only = String::new();
    let mut tool_calls: Vec<OpenAiToolCall> = Vec::new();
    let mut tool_results: Vec<(String, String)> = Vec::new();
    let mut i: usize = 0;
    while i < msg.content.len()
        invariant
            i <= msg.content.len(),
            parts == part_models(msg.content@),
            blocks@.map_values(|b: OpenAiContentBlock| b@) == blocks_of(parts.take(i as int)),
            has_image == any_image(parts.take(i as int)),
            text_only@ == text_of_parts(parts.take(i as int)),
            tool_calls@.map_values(|c: OpenAiToolCall| c@) == calls_of(parts.take(i as int)),
            tool_results@.map_values(|p: (String, String)| (p.0@, p.1@)) == results_of(parts.take(i as int)),
        decreases msg.content.len() - i,
    {
        proof {
            assert(parts.take(i + 1).drop_last() =~= parts.take(i as int));
            assert(parts.take(i + 1).last() == msg.content@[i as int]@);
        }
        let ghost b0 = blocks@;
        let ghost c0 = tool_calls@;
        let ghost r0 = tool_results@;
        match &msg.content[i] {
            ContentPart::Text { text } => {
                text_only.append(text.as_str());
                blocks.push(OpenAiContentBlock::Text { text: text.clone() });
            },
            ContentPart::Image { media_type, data } => {
                has_image = true;
                blocks.push(OpenAiContentBlock::ImageUrl {
                    image_url: OpenAiImageUrl { url: data_url(media_type.as_str(), data.as_str()) },
                });
            },
            ContentPart::ToolUse { id, name, input } => {
                tool_calls.push(OpenAiToolCall {
                    id: id.clone(),
                    call_type: String::from_str("function"),
                    function: OpenAiFunctionCall { name: name.clone(), arguments: value_to_text(input) },
                });
            },
            ContentPart::ToolResult { tool_use_id, content } => {
                tool_results.push((tool_use_id.clone(), content.clone()));
            },
        }
        proof {
            assert(blocks@.map_values(|b: OpenAiContentBlock| b@) =~= blocks_of(parts.take(i + 1)));
            assert(tool_calls@.map_values(|c: OpenAiToolCall| c@) =~= calls_of(parts.take(i + 1)));
            assert(tool_results@.map_values(|p: (String, String)| (p.0@, p.1@)) =~= results_of(parts.take(i + 1)));
            if msg.content@[i as int] is Image {
                assert(parts.take(i + 1)[i as int] is Image);
            } else if has_image {
                let j = choose|j: int| 0 <= j < parts.take(i as int).len() && (#[trigger] parts.take(i as int)[j] is Image);
                assert(parts.take(i + 1)[j] is Image);
            } else {
                assert forall|j: int| 0 <= j < i + 1 implies !(#[trigger] parts.take(i + 1)[j] is Image) by {
                    if j < i {
                        assert(parts.take(i + 1)[j] == parts.take(i as int)[j]);
                    }
                }
            }
        }
        i = i + 1;
    }
    proof {
        assert(parts.take(i as int) =~= parts);
    }

    let mut out: Vec<OpenAiMessage> = Vec::new();
    let n_blocks = blocks.len();
    let n_calls = tool_calls.len();
    if n_blocks > 0 || n_calls > 0 {
        let content = if has_image {
            Some(OpenAiContent::Blocks(blocks))
        } else if !text_only.as_str().is_empty() {
            Some(OpenAiContent::Text(text_only))
        } else {
            None
        };
        let calls = if n_calls > 0 { Some(tool_calls) } else { None };
        out.push(OpenAiMessage { role: String::from_str(role), content, tool_calls: calls, tool_call_id: None });
    }
    let ghost head = wire_messages(out@);
    let ghost rs = results_of(parts);
    let mut k: usize = 0;
    while k < tool_results.len()
        invariant
            k <= tool_results.len(),
            head.len() <= 1,
            rs == tool_results@.map_values(|p: (String, String)| (p.0@, p.1@)),
            wire_messages(out@) == head + rs.take(k as int).map_values(|r: (Seq<char>, Seq<char>)| tool_result_message(r)),
        decreases tool_results.len() - k,
    {
        let ghost before = wire_messages(out@);
        let ghost out0 = out@;
        out.push(OpenAiMessage {
            role: String::from_str("tool"),
            content: Some(OpenAiContent::Text(tool_results[k].1.clone())),
            tool_calls: None,
            tool_call_id: Some(tool_results[k].0.clone()),
        });
        proof {
            let target = head + rs.take(k + 1).map_values(|r: (Seq<char>, Seq<char>)| tool_result_message(r));
            let prev = head + rs.take(k as int).map_values(|r: (Seq<char>, Seq<char>)| tool_result_message(r));
            assert(rs[k as int] == (tool_results@[k as int].0@, tool_results@[k as int].1@));
            assert(out@.len() == out0.len() + 1);
            assert(rs.len() == tool_results@.len());
            assert(before.len() == out0.len());
            assert(prev.len() == head.len() + k);
            assert(target.len() == head.len() + k + 1);
            assert(wire_messages(out@).last() == tool_result_message(rs[k as int]));
            assert forall|j: int| 0 <= j < target.len() implies wire_messages(out@)[j] == target[j] by {
                if j < target.len() - 1 {
                    assert(out@[j] == out0[j]);
                    assert(wire_messages(out@)[j] == before[j]);
                    assert(before[j] == prev[j]);
                }
            }
            assert(wire_messages(out@) =~= target);
        }
        k = k + 1;
    }
    proof {
        assert(rs.take(k as int) =~= rs);
        assert(wire_messages(out@) =~= outbound_messages(msg@));
    }
    out
}

} // verus!

verus! {

/// The OpenAI messages for a sequence of canonical messages, in order.
pub open spec fn outbound_all(ms: Seq<MessageModel>) -> Seq<WireMessage>
    decreases ms.len(),
{
    if ms.len() == 0 {
        Seq::empty()
    } else {
        outbound_all(ms.drop_last()) + outbound_messages(ms.last())
    }
}

/// The leading system message for an optional system prompt.
pub open spec fn system_messages(system: Option<Seq<char>>) -> Seq<WireMessage> {
    match system {
        Some(s) => seq![
            WireMessage { role: "system"@, content: Some(ContentModel::Text(s)), tool_calls: None, tool_call_id: None },
        ],
        None => Seq::empty(),
    }
}

/// `f` is the strict `json_schema` response format named `"response"` for
/// `schema`, or both are absent.
pub open spec fn format_for(f: Option<ResponseFormat>, schema: Option<serde_json::Value>) -> bool {
    match (f, schema) {
        (Some(f), Some(s)) => {
            &&& f.format_type@ == "json_schema"@
            &&& f.json_schema.name@ == "response"@
            &&& f.json_schema.schema == s
            &&& f.json_schema.strict
        },
        (None, None) => true,
        _ => false,
    }
}

/// `w` is the function-type wrapper of canonical tool `t`.
pub open spec fn function_tool_for(w: OpenAiTool, t: ToolModel) -> bool {
    &&& w.tool_type@ == "function"@
    &&& w.function.name@ == t.name
    &&& opt_view(w.function.description) == t.description
    &&& w.function.parameters == t.input_schema
}

/// The default name of a JSON-schema response format.
pub fn default_schema_name() -> (r: String)
    ensures
        r@ == "response"@,
{
    String::from_str("response")
}

impl OpenAiMessage {
    /// A message holding plain text.
    pub fn text(role: &str, text: String) -> (r: OpenAiMessage)
        ensures
            r@ == (WireMessage { role: role@, content: Some(ContentModel::Text(text@)), tool_calls: None, tool_call_id: None }),
    {
        OpenAiMessage {
            role: String::from_str(role),
            content: Some(OpenAiContent::Text(text)),
            tool_calls: None,
            tool_call_id: None,
        }
    }
}

impl OpenAiChatRequest {
    /// An outbound request to a provider that speaks the OpenAI format.
    pub fn from_chat(req: &ChatRequest) -> (r: OpenAiChatRequest)
        ensures
            sent_to_openai(*req, r),
    {
        proof {
            reveal_strlit("system");
            reveal_strlit("json_schema");
            reveal_strlit("function");
        }
        let mut messages: Vec<OpenAiMessage> = Vec::new();
        if let Some(system) = &req.system {
            messages.push(OpenAiMessage::text("system", system.clone()));
        }
        let ghost head = wire_messages(messages@);
        proof {
            assert(head =~= system_messages(opt_view(req.system)));
        }
        let ghost mm = message_models(req.messages@);
        let mut i: usize = 0;
        while i < req.messages.len()
            invariant
                i <= req.messages.len(),
                mm == message_models(req.messages@),
                wire_messages(messages@) == head + outbound_all(mm.take(i as int)),
            decreases req.messages.len() - i,
        {
            let mut more = openai_messages_from_canonical(&req.messages[i]);
            let ghost before = messages@;
            let ghost added = more@;
            messages.append(&mut more);
            proof {
                assert(mm.take(i + 1).drop_last() =~= mm.take(i as int));
                assert(mm.take(i + 1).last() == req.messages@[i as int]@);
                assert(wire_messages(messages@) =~= wire_messages(before) + wire_messages(added));
                assert(wire_messages(messages@) =~= head + outbound_all(mm.take(i + 1)));
            }
            i = i + 1;
        }
        proof {
            assert(mm.take(i as int) =~= mm);
        }

        let response_format = match &req.output_schema {
            Some(schema) => Some(ResponseFormat {
                format_type: String::from_str("json_schema"),
                json_schema: JsonSchemaFormat { name: default_schema_name(), schema: copy_value(schema), strict: true },
            }),
            None => None,
        };

        let mut tools: Vec<OpenAiTool> = Vec::new();
        let mut j: usize = 0;
        while j < req.tools.len()
            invariant
                j <= req.tools.len(),
                tools@.len() == j,
                forall|k: int| 0 <= k < j ==> function_tool_for(#[trigger] tools@[k], req.tools@[k]@),
            decreases req.tools.len() - j,
        {
            let t = &req.tools[j];
            tools.push(OpenAiTool {
                tool_type: String::from_str("function"),
                function: OpenAiFunctionDef {
                    name: t.name.clone(),
                    description: copy_opt_string(&t.description),
                    parameters: copy_value(&t.input_schema),
                },
            });
            j = j + 1;
        }

        OpenAiChatRequest {
            model: req.model.clone(),
            messages,
            max_tokens: req.max_tokens,
            temperature: req.temperature,
            response_format,
            tools,
            stream: req.stream,
            plugins: Vec::new(),
        }
    }
}

} // verus!

verus! {

/// The canonical stop reason for an OpenAI `finish_reason`.
pub open spec fn stop_of_finish(reason: Option<Seq<char>>) -> StopReason {
    match reason {
        Some(r) => if r == "length"@ {
            StopReason::MaxTokens
        } else if r == "tool_calls"@ {
            StopReason::ToolUse
        } else if r == "stop"@ {
            StopReason::EndTurn
        } else {
            StopReason::Other
        },
        None => StopReason::Other,
    }
}

/// The OpenAI `finish_reason` for a canonical stop reason.
pub open spec fn finish_of_stop(reason: StopReason) -> Seq<char> {
    match reason {
        StopReason::EndTurn => "stop"@,
        StopReason::MaxTokens => "length"@,
        StopReason::ToolUse => "tool_calls"@,
        StopReason::Other => "stop"@,
    }
}

/// The canonical tool calls for an OpenAI message's tool calls, arguments
/// parsed as JSON (`null` when malformed).
pub open spec fn calls_from_wire(calls: Option<Seq<CallModel>>) -> Seq<ToolCallModel> {
    match calls {
        None => Seq::empty(),
        Some(cs) => cs.map_values(|c: CallModel| ToolCallModel { id: c.id, name: c.name, input: parsed_or_null(c.arguments) }),
    }
}

/// The canonical stop reason for an OpenAI `finish_reason`.
pub fn stop_reason_from_finish_reason(reason: Option<&str>) -> (r: StopReason)
    ensures
        r == stop_of_finish(match reason {
            Some(s) => Some(s@),
            None => None,
        }),
{
    match reason {
        Some(s) => {
            if str_eq(s, "length") {
                StopReason::MaxTokens
            } else if str_eq(s, "tool_calls") {
                StopReason::ToolUse
            } else if str_eq(s, "stop") {
                StopReason::EndTurn
            } else {
                StopReason::Other
            }
        },
        None => StopReason::Other,
    }
}

/// The OpenAI `finish_reason` for a canonical stop reason.
pub fn finish_reason_of(reason: StopReason) -> (r: &'static str)
    ensures
        r@ == finish_of_stop(reason),
{
    proof {
        reveal_strlit("stop");
        reveal_strlit("length");
        reveal_strlit("tool_calls");
    }
    match reason {
        StopReason::EndTurn => "stop",
        StopReason::MaxTokens => "length",
        StopReason::ToolUse => "tool_calls",
        StopReason::Other => "stop",
    }
}

impl ChatResponse {
    /// A reply from a provider that speaks the OpenAI format: the first
    /// choice's text and tool calls, its finish reason, and the token usage.
    pub fn from_openai(resp: OpenAiChatResponse) -> (r: ChatResponse)
        ensures
            r.id == resp.id,
            r.model == resp.model,
            r.content@ == (if resp.choices@.len() > 0 {
                text_of_content(resp.choices@[0].message@.content)
            } else {
                Seq::empty()
            }),
            tool_call_models(r.tool_calls@) == (if resp.choices@.len() > 0 {
                calls_from_wire(resp.choices@[0].message@.tool_calls)
            } else {
                Seq::empty()
            }),
            r.stop_reason == stop_of_finish(if resp.choices@.len() > 0 {
                opt_view(resp.choices@[0].finish_reason)
            } else {
                None
            }),
            r.usage.input_tokens == resp.usage.prompt_tokens,
            r.usage.output_tokens == resp.usage.completion_tokens,
            r.tags@.len() == 0,
    {
        let mut choices = resp.choices;
        if choices.len() == 0 {
            let v: Vec<ToolCall> = Vec::new();
            proof {
                assert(tool_call_models(v@) =~= Seq::<ToolCallModel>::empty());
            }
            return ChatResponse {
                id: resp.id,
                model: resp.model,
                content: String::new(),
                stop_reason: StopReason::Other,
                tool_calls: v,
                usage: Usage { input_tokens: resp.usage.prompt_tokens, output_tokens: resp.usage.completion_tokens },
                tags: Vec::new(),
            };
        }
        let choice = choices.remove(0);
        let ghost cm = choice.message@;
        let content = openai_content_to_text(choice.message.content);
        let mut tool_calls: Vec<ToolCall> = Vec::new();
        match choice.message.tool_calls {
            None => {
                proof {
                    assert(tool_call_models(tool_calls@) =~= Seq::<ToolCallModel>::empty());
                }
            },
            Some(calls) => {
                let ghost wc = calls@.map_values(|c: OpenAiToolCall| c@);
                let mut i: usize = 0;
                while i < calls.len()
                    invariant
                        i <= calls.len(),
                        wc == calls@.map_values(|c: OpenAiToolCall| c@),
                        tool_call_models(tool_calls@) == calls_from_wire(Some(wc)).take(i as int),
                    decreases calls.len() - i,
                {
                    let tc = &calls[i];
                    let ghost before = tool_calls@;
                    tool_calls.push(ToolCall {
                        id: tc.id.clone(),
                        name: tc.function.name.clone(),
                        input: parse_json_or_null(tc.function.arguments.as_str()),
                    });
                    proof {
                        assert(wc[i as int] == calls@[i as int]@);
                        assert(tool_call_models(tool_calls@).drop_last() =~= tool_call_models(before));
                        assert(calls_from_wire(Some(wc)).take(i + 1).drop_last() =~= calls_from_wire(Some(wc)).take(i as int));
                        assert(tool_call_models(tool_calls@) =~= calls_from_wire(Some(wc)).take(i + 1));
                    }
                    i = i + 1;
                }
                proof {
                    assert(calls_from_wire(Some(wc)).take(i as int) =~= calls_from_wire(Some(wc)));
                }
            },
        }
        let stop_reason = match &choice.finish_reason {
            Some(f) => stop_reason_from_finish_reason(Some(f.as_str())),
            None => stop_reason_from_finish_reason(None),
        };
        ChatResponse {
            id: resp.id,
            model: resp.model,
            content,
            stop_reason,
            tool_calls,
            usage: Usage { input_tokens: resp.usage.prompt_tokens, output_tokens: resp.usage.completion_tokens },
            tags: Vec::new(),
        }
    }
}

/// The OpenAI tool call for a canonical tool call (arguments printed as
/// JSON text).
pub open spec fn wire_call_of(c: ToolCallModel) -> CallModel {
    CallModel { id: c.id, call_type: "function"@, name: c.name, arguments: json_text(c.input) }
}

impl OpenAiChatResponse {
    /// A reply rendered for a client that speaks the OpenAI format: one
    /// choice holding the text and tool calls.
    pub fn from_chat(resp: ChatResponse) -> (r: OpenAiChatResponse)
        requires
            resp.usage.input_tokens + resp.usage.output_tokens <= u32::MAX,
        ensures
            r.id == resp.id,
            r.model == resp.model,
            r.object@ == "chat.completion"@,
            r.choices@.len() == 1,
            r.choices@[0].index == 0,
            r.choices@[0].message@ == (WireMessage {
                role: "assistant"@,
                content: Some(ContentModel::Text(resp.content@)),
                tool_calls: if resp.tool_calls@.len() > 0 {
                    Some(tool_call_models(resp.tool_calls@).map_values(|c: ToolCallModel| wire_call_of(c)))
                } else {
                    None
                },
                tool_call_id: None,
            }),
            opt_view(r.choices@[0].finish_reason) == Some(finish_of_stop(resp.stop_reason)),
            r.usage.prompt_tokens == resp.usage.input_tokens,
            r.usage.completion_tokens == resp.usage.output_tokens,
            r.usage.total_tokens == resp.usage.input_tokens + resp.usage.output_tokens,
    {
        proof {
            reveal_strlit("function");
        }
        let finish = finish_reason_of(resp.stop_reason);
        let ghost tm = tool_call_models(resp.tool_calls@);
        let n = resp.tool_calls.len();
        let mut calls: Vec<OpenAiToolCall> = Vec::new();
        let mut i: usize = 0;
        while i < resp.tool_calls.len()
            invariant
                i <= resp.tool_calls.len(),
                tm == tool_call_models(resp.tool_calls@),
                tm.len() == resp.tool_calls@.len(),
                calls@.len() == i,
                calls@.map_values(|c: OpenAiToolCall| c@) == tm.take(i as int).map_values(|c: ToolCallModel| wire_call_of(c)),
            decreases resp.tool_calls.len() - i,
        {
            let tc = &resp.tool_calls[i];
            let ghost before = calls@;
            calls.push(OpenAiToolCall {
                id: tc.id.clone(),
                call_type: String::from_str("function"),
                function: OpenAiFunctionCall { name: tc.name.clone(), arguments: value_to_text(&tc.input) },
            });
            proof {
                let target = tm.take(i + 1).map_values(|c: ToolCallModel| wire_call_of(c));
                let prev = tm.take(i as int).map_values(|c: ToolCallModel| wire_call_of(c));
                assert(calls@.len() == before.len() + 1);
                assert forall|j: int| 0 <= j < i + 1 implies calls@.map_values(|c: OpenAiToolCall| c@)[j] == target[j] by {
                    if j < i {
                        assert(calls@[j] == before[j]);
                        assert(before.map_values(|c: OpenAiToolCall| c@)[j] == prev[j]);
                    }
                }
                assert(calls@.map_values(|c: OpenAiToolCall| c@) =~= target);
            }
            i = i + 1;
        }
        proof {
            assert(tm.take(i as int) =~= tm);
        }
        let tool_calls = if n > 0 { Some(calls) } else { None };
        let message = OpenAiMessage {
            role: String::from_str("assistant"),
            content: Some(OpenAiContent::Text(resp.content)),
            tool_calls,
            tool_call_id: None,
        };
        let mut choices: Vec<OpenAiChoice> = Vec::new();
        choices.push(OpenAiChoice { index: 0, message, finish_reason: Some(String::from_str(finish)) });
        OpenAiChatResponse {
            id: resp.id,
            object: String::from_str("chat.completion"),
            model: resp.model,
            choices,
            usage: OpenAiUsage {
                prompt_tokens: resp.usage.input_tokens,
                completion_tokens: resp.usage.output_tokens,
                total_tokens: resp.usage.input_tokens + resp.usage.output_tokens,
            },
        }
    }
}

} // verus!

verus! {

/// One `chat.completion.chunk` payload from an OpenAI-shaped upstream.
#[derive(Debug, Clone, PartialEq)]
pub struct OpenAiStreamChunk {
    pub choices: Vec<OpenAiStreamChoice>,
    pub usage: Option<OpenAiUsage>,
}

#[derive(Debug, Clone, PartialEq)]
pub struct OpenAiStreamChoice {
    pub delta: OpenAiStreamDelta,
    pub finish_reason: Option<String>,
}

#[derive(Debug, Clone, PartialEq)]
pub struct OpenAiStreamDelta {
    pub content: Option<String>,
    pub tool_calls: Option<Vec<OpenAiStreamToolCall>>,
}

impl Default for OpenAiStreamDelta {
    fn default() -> (r: OpenAiStreamDelta)
        ensures
            r.content.is_none() && r.tool_calls.is_none(),
    {
        OpenAiStreamDelta { content: None, tool_calls: None }
    }
}

#[derive(Debug, Clone, PartialEq)]
pub struct OpenAiStreamToolCall {
    pub index: u32,
    pub id: Option<String>,
    pub function: OpenAiStreamFunctionDelta,
}

#[derive(Debug, Clone, PartialEq)]
pub struct OpenAiStreamFunctionDelta {
    pub name: Option<String>,
    pub arguments: Option<String>,
}

impl Default for OpenAiStreamFunctionDelta {
    fn default() -> (r: OpenAiStreamFunctionDelta)
        ensures
            r.name.is_none() && r.arguments.is_none(),
    {
        OpenAiStreamFunctionDelta { name: None, arguments: None }
    }
}

/// Reassembles OpenAI's per-chunk streaming deltas into canonical events.
/// A tool call's id only comes on the chunk that opens it; later chunks
/// name the call by index alone, so the decoder remembers `index -> id`
/// (a later entry for an index shadows an earlier one).
#[derive(Debug)]
pub struct OpenAiStreamDecoder {
    pub tool_call_ids: Vec<(u32, String)>,
}

impl Default for OpenAiStreamDecoder {
    fn default() -> (r: OpenAiStreamDecoder)
        ensures
            r.tool_call_ids@.len() == 0,
    {
        OpenAiStreamDecoder { tool_call_ids: Vec::new() }
    }
}

/// The id-by-index table as the contracts see it.
pub open spec fn id_table(v: Seq<(u32, String)>) -> Seq<(u32, Seq<char>)> {
    v.map_values(|p: (u32, String)| (p.0, p.1@))
}

/// The id remembered for `index` (the last entry for it).
pub open spec fn id_for(t: Seq<(u32, Seq<char>)>, index: u32) -> Option<Seq<char>>
    decreases t.len(),
{
    if t.len() == 0 {
        None
    } else if t.last().0 == index {
        Some(t.last().1)
    } else {
        id_for(t.drop_last(), index)
    }
}

/// Decoding one tool-call delta: an id, when present, is remembered for
/// its index; otherwise the remembered id (or the empty string) is used.
/// A name opens the call; a non-empty arguments fragment extends it.
pub open spec fn decode_call(t: Seq<(u32, Seq<char>)>, tc: OpenAiStreamToolCall) -> (Seq<(u32, Seq<char>)>, Seq<EventModel>) {
    let (t2, id) = match tc.id {
        Some(id) => (t.push((tc.index, id@)), id@),
        None => (t, match id_for(t, tc.index) {
            Some(x) => x,
            None => Seq::empty(),
        }),
    };
    let start = match tc.function.name {
        Some(n) => seq![EventModel::ToolCallStart(id, n@)],
        None => Seq::empty(),
    };
    let delta = match tc.function.arguments {
        Some(a) => if a@.len() > 0 {
            seq![EventModel::ToolCallDelta(id, a@)]
        } else {
            Seq::empty()
        },
        None => Seq::empty(),
    };
    (t2, start + delta)
}

/// Decoding a chunk's tool-call deltas in order.
pub open spec fn decode_calls(t: Seq<(u32, Seq<char>)>, calls: Seq<OpenAiStreamToolCall>) -> (Seq<(u32, Seq<char>)>, Seq<EventModel>)
    decreases calls.len(),
{
    if calls.len() == 0 {
        (t, Seq::empty())
    } else {
        let (t1, e1) = decode_calls(t, calls.drop_last());
        let (t2, e2) = decode_call(t1, calls.last());
        (t2, e1 + e2)
    }
}

/// Decoding one chunk: only its first choice counts. A non-empty text
/// fragment comes first, then the tool-call events, then — when the choice
/// has a finish reason — the final event with the chunk's usage (zero when
/// absent).
pub open spec fn decode_chunk(t: Seq<(u32, Seq<char>)>, chunk: OpenAiStreamChunk) -> (Seq<(u32, Seq<char>)>, Seq<EventModel>) {
    if chunk.choices@.len() == 0 {
        (t, Seq::empty())
    } else {
        let ch = chunk.choices@[0];
        let text = match ch.delta.content {
            Some(s) => if s@.len() > 0 {
                seq![EventModel::TextDelta(s@)]
            } else {
                Seq::empty()
            },
            None => Seq::empty(),
        };
        let (t2, calls) = decode_calls(t, match ch.delta.tool_calls {
            Some(v) => v@,
            None => Seq::empty(),
        });
        let done = match ch.finish_reason {
            Some(r) => seq![
                EventModel::Done(
                    stop_of_finish(Some(r@)),
                    match chunk.usage {
                        Some(u) => Usage { input_tokens: u.prompt_tokens, output_tokens: u.completion_tokens },
                        None => Usage { input_tokens: 0, output_tokens: 0 },
                    },
                ),
            ],
            None => Seq::empty(),
        };
        (t2, text + calls + done)
    }
}

impl OpenAiStreamDecoder {
    /// The id remembered for `index`.
    fn lookup(&self, index: u32) -> (r: Option<&String>)
        ensures
            match r {
                Some(s) => id_for(id_table(self.tool_call_ids@), index) == Some(s@),
                None => id_for(id_table(self.tool_call_ids@), index).is_none(),
            },
    {
        let ghost t = id_table(self.tool_call_ids@);
        let mut i: usize = self.tool_call_ids.len();
        proof {
            assert(t.take(i as int) =~= t);
        }
        while i > 0
            invariant
                i <= self.tool_call_ids.len(),
                t == id_table(self.tool_call_ids@),
                id_for(t, index) == id_for(t.take(i as int), index),
            decreases i,
        {
            proof {
                assert(t.take(i as int).drop_last() =~= t.take(i - 1));
                assert(t.take(i as int).last() == t[i - 1]);
            }
            if self.tool_call_ids[i - 1].0 == index {
                return Some(&self.tool_call_ids[i - 1].1);
            }
            i = i - 1;
        }
        None
    }

    /// Decodes one chunk into canonical events, remembering tool-call ids.
    pub fn decode(&mut self, chunk: OpenAiStreamChunk) -> (r: Vec<StreamEvent>)
        ensures
            (id_table(final(self).tool_call_ids@), event_models(r@)) == decode_chunk(
                id_table(old(self).tool_call_ids@),
                chunk,
            ),
    {
        let ghost ch0 = chunk;
        let mut events: Vec<StreamEvent> = Vec::new();
        let chunk_usage = chunk.usage;
        let mut choices = chunk.choices;
        if choices.len() == 0 {
            proof {
                assert(event_models(events@) =~= Seq::<EventModel>::empty());
            }
            return events;
        }
        let choice = choices.remove(0);
        if let Some(text) = choice.delta.content {
            if !text.as_str().is_empty() {
                events.push(StreamEvent::TextDelta { text });
            }
        }
        let ghost text_events = event_models(events@);
        let ghost t0 = id_table(self.tool_call_ids@);
        let calls = match choice.delta.tool_calls {
            Some(v) => v,
            None => Vec::new(),
        };
        let ghost cs = calls@;
        let mut i: usize = 0;
        while i < calls.len()
            invariant
                i <= calls.len(),
                cs == calls@,
                (id_table(self.tool_call_ids@), event_models(events@)) == ({
                    let (t1, e1) = decode_calls(t0, cs.take(i as int));
                    (t1, text_events + e1)
                }),
            decreases calls.len() - i,
        {
            proof {
                assert(cs.take(i + 1).drop_last() =~= cs.take(i as int));
                assert(cs.take(i + 1).last() == cs[i as int]);
            }
            let ghost e_before = event_models(events@);
            let ghost t_before = id_table(self.tool_call_ids@);
            let tc = &calls[i];
            let id: String = match &tc.id {
                Some(id) => {
                    self.tool_call_ids.push((tc.index, id.clone()));
                    proof {
                        assert(id_table(self.tool_call_ids@) =~= t_before.push((tc.index, id@)));
                    }
                    id.clone()
                },
                None => match self.lookup(tc.index) {
                    Some(s) => s.clone(),
                    None => String::new(),
                },
            };
            if let Some(name) = &tc.function.name {
                events.push(StreamEvent::ToolCallStart { id: id.clone(), name: name.clone() });
            }
            if let Some(partial) = &tc.function.arguments {
                if !partial.as_str().is_empty() {
                    events.push(StreamEvent::ToolCallDelta { id: id.clone(), partial_input: partial.clone() });
                }
            }
            proof {
                let (t1, e1) = decode_calls(t0, cs.take(i as int));
                let (t2, e2) = decode_call(t1, cs[i as int]);
                assert(t_before == t1);
                assert(e_before == text_events + e1);
                assert(id_table(self.tool_call_ids@) == t2);
                assert(event_models(events@) =~= e_before + e2);
                assert(event_models(events@) =~= text_events + (e1 + e2));
            }
            i = i + 1;
        }
        proof {
            assert(cs.take(i as int) =~= cs);
        }
        if let Some(reason) = &choice.finish_reason {
            let usage = match &chunk_usage {
                Some(u) => Usage { input_tokens: u.prompt_tokens, output_tokens: u.completion_tokens },
                None => Usage { input_tokens: 0, output_tokens: 0 },
            };
            let ghost before = event_models(events@);
            events.push(StreamEvent::Done {
                stop_reason: stop_reason_from_finish_reason(Some(reason.as_str())),
                usage,
            });
            proof {
                assert(event_models(events@) =~= before.push(event_models(events@).last()));
            }
        }
        proof {
            let (t2, calls_e) = decode_calls(t0, cs);
            assert(event_models(events@) =~= decode_chunk(t0, ch0).1);
        }
        events
    }
}

} // verus!

verus! {

/// The `delta` of one rendered `chat.completion.chunk`.
#[derive(Debug, Clone, PartialEq)]
pub enum ChunkDelta {
    /// `{"content": text}`
    Content { text: String },
    /// `{"tool_calls": [{"index", "id", "type": "function", "function": {"name", "arguments": ""}}]}`
    ToolCallStart { index: u32, id: String, name: String },
    /// `{"tool_calls": [{"index", "function": {"arguments"}}]}`
    ToolCallArguments { index: u32, arguments: String },
    /// `{}` (the closing chunk, which carries the finish reason)
    Empty,
}

/// One `chat.completion.chunk` to send as an SSE `data:` line.
#[derive(Debug, Clone, PartialEq)]
pub struct RenderedChunk {
    /// `chatcmpl-<n>`, `n` counting chunks from 1.
    pub id: String,
    pub model: String,
    pub delta: ChunkDelta,
    pub finish_reason: Option<String>,
}

/// Renders canonical stream events as OpenAI `chat.completion.chunk`s.
/// Each tool call id gets an `index`, in order of first appearance, that
/// all of its chunks share.
#[derive(Debug)]
pub struct OpenAiStreamRenderer {
    pub model: String,
    /// Number of chunks rendered so far.
    pub chunk_id: u64,
    /// Index assigned to each tool call id seen so far.
    pub tool_indices: Vec<(String, u32)>,
    pub next_tool_index: u32,
}

/// The index assigned to `id`, if any.
pub open spec fn index_in(t: Seq<(String, u32)>, id: Seq<char>) -> Option<u32>
    decreases t.len(),
{
    if t.len() == 0 {
        None
    } else if t.last().0@ == id {
        Some(t.last().1)
    } else {
        index_in(t.drop_last(), id)
    }
}

/// How a tool-call event for `id` moves the numbering from `a` to `b` and
/// which `index` it gets: a known id keeps its index and changes nothing; a
/// new id gets the next free index, recorded after the others.
pub open spec fn tool_index_step(a: OpenAiStreamRenderer, b: OpenAiStreamRenderer, id: String, index: u32) -> bool {
    match index_in(a.tool_indices@, id@) {
        Some(k) => {
            &&& index == k
            &&& b.tool_indices@ == a.tool_indices@
            &&& b.next_tool_index == a.next_tool_index
        },
        None => {
            &&& index == a.next_tool_index
            &&& b.next_tool_index == a.next_tool_index + 1
            &&& b.tool_indices@ == a.tool_indices@.push((id, index))
        },
    }
}

impl OpenAiStreamRenderer {
    /// Indices are handed out as `0, 1, 2, ...` in order of first
    /// appearance, one per distinct id.
    pub open spec fn wf(self) -> bool {
        &&& self.tool_indices@.len() == self.next_tool_index
        &&& forall|i: int| 0 <= i < self.tool_indices@.len() ==> (#[trigger] self.tool_indices@[i]).1 == i
        &&& forall|i: int, j: int|
            0 <= i < j < self.tool_indices@.len() ==> (#[trigger] self.tool_indices@[i]).0@ != (#[trigger] self.tool_indices@[j]).0@
    }

    pub fn new(model: String) -> (r: OpenAiStreamRenderer)
        ensures
            r.wf(),
            r.model == model,
            r.chunk_id == 0,
            r.next_tool_index == 0,
    {
        OpenAiStreamRenderer { model, chunk_id: 0, tool_indices: Vec::new(), next_tool_index: 0 }
    }

    /// The index for tool call `id`: the one it was given, or the next free
    /// one, which is then recorded.
    fn index_for(&mut self, id: &String) -> (r: u32)
        requires
            old(self).wf(),
            old(self).next_tool_index < u32::MAX,
        ensures
            final(self).wf(),
            final(self).model == old(self).model,
            final(self).chunk_id == old(self).chunk_id,
            match index_in(old(self).tool_indices@, id@) {
                Some(k) => r == k && final(self).tool_indices@ == old(self).tool_indices@
                    && final(self).next_tool_index == old(self).next_tool_index,
                None => r == old(self).next_tool_index && final(self).next_tool_index == old(self).next_tool_index + 1
                    && final(self).tool_indices@ == old(self).tool_indices@.push((*id, r))
                    && index_in(final(self).tool_indices@, id@) == Some(r)
                    && forall|x: Seq<char>| x != id@ ==> index_in(final(self).tool_indices@, x) == index_in(
                        old(self).tool_indices@,
                        x,
                    ),
            },
    {
        let ghost t = self.tool_indices@;
        let mut i: usize = self.tool_indices.len();
        proof {
            assert(t.take(i as int) =~= t);
        }
        while i > 0
            invariant
                *self == *old(self),
                old(self).wf(),
                i <= self.tool_indices.len(),
                t == self.tool_indices@,
                index_in(t, id@) == index_in(t.take(i as int), id@),
            decreases i,
        {
            proof {
                assert(t.take(i as int).drop_last() =~= t.take(i - 1));
                assert(t.take(i as int).last() == t[i - 1]);
            }
            if str_eq(self.tool_indices[i - 1].0.as_str(), id.as_str()) {
                return self.tool_indices[i - 1].1;
            }
            i = i - 1;
        }
        let k = self.next_tool_index;
        self.tool_indices.push((id.clone(), k));
        self.next_tool_index = k + 1;
        proof {
            assert(self.tool_indices@.drop_last() =~= t);
            assert forall|a: int, b: int|
                0 <= a < b < self.tool_indices@.len() implies (#[trigger] self.tool_indices@[a]).0@
                    != (#[trigger] self.tool_indices@[b]).0@ by {
                if b == self.tool_indices@.len() - 1 {
                    if t[a].0@ == id@ {
                        lemma_index_in_found(t, a, id@);
                    }
                }
            }
        }
        k
    }

    /// The `data:` line that closes the stream, sent after the last chunk.
    pub fn done_line(&self) -> (r: String)
        ensures
            r@ == "data: [DONE]"@,
    {
        String::from_str("data: [DONE]")
    }

    /// Renders one event as a chunk.
    pub fn render(&mut self, event: StreamEvent) -> (r: RenderedChunk)
        requires
            old(self).wf(),
            old(self).chunk_id < u64::MAX,
            old(self).next_tool_index < u32::MAX,
        ensures
            final(self).wf(),
            final(self).model == old(self).model,
            final(self).chunk_id == old(self).chunk_id + 1,
            r.id@ == "chatcmpl-"@ + crate::text::decimal(final(self).chunk_id as nat),
            r.model@ == old(self).model@,
            forall|x: Seq<char>|
                index_in(old(self).tool_indices@, x) is Some ==> index_in(final(self).tool_indices@, x) == index_in(
                    old(self).tool_indices@,
                    x,
                ),
            match event {
                StreamEvent::TextDelta { text } => r.delta == ChunkDelta::Content { text } && r.finish_reason.is_none()
                    && final(self).tool_indices@ == old(self).tool_indices@ && final(self).next_tool_index == old(
                    self,
                ).next_tool_index,
                StreamEvent::ToolCallStart { id, name } => r.delta matches ChunkDelta::ToolCallStart {
                    index,
                    id: rid,
                    name: rname,
                } && rid == id && rname == name && r.finish_reason.is_none() && tool_index_step(
                    *old(self),
                    *final(self),
                    id,
                    index,
                ),
                StreamEvent::ToolCallDelta { id, partial_input } => r.delta matches ChunkDelta::ToolCallArguments {
                    index,
                    arguments,
                } && arguments == partial_input && r.finish_reason.is_none() && tool_index_step(
                    *old(self),
                    *final(self),
                    id,
                    index,
                ),
                StreamEvent::Done { stop_reason, .. } => r.delta == ChunkDelta::Empty && opt_view(r.finish_reason)
                    == Some(finish_of_stop(stop_reason)) && final(self).tool_indices@ == old(self).tool_indices@
                    && final(self).next_tool_index == old(self).next_tool_index,
            },
    {
        self.chunk_id = self.chunk_id + 1;
        let n = crate::text::u64_text(self.chunk_id);
        let id = concat("chatcmpl-", n.as_str());
        let (delta, finish) = match event {
            StreamEvent::TextDelta { text } => (ChunkDelta::Content { text }, None),
            StreamEvent::ToolCallStart { id, name } => {
                let index = self.index_for(&id);
                (ChunkDelta::ToolCallStart { index, id, name }, None)
            },
            StreamEvent::ToolCallDelta { id, partial_input } => {
                let index = self.index_for(&id);
                (ChunkDelta::ToolCallArguments { index, arguments: partial_input }, None)
            },
            StreamEvent::Done { stop_reason, .. } => (
                ChunkDelta::Empty,
                Some(String::from_str(finish_reason_of(stop_reason))),
            ),
        };
        RenderedChunk { id, model: self.model.clone(), delta, finish_reason: finish }
    }
}

/// A lookup that finds an entry for `id` at or after position `a`...
proof fn lemma_index_in_found(t: Seq<(String, u32)>, a: int, id: Seq<char>)
    requires
        0 <= a < t.len(),
        t[a].0@ == id,
    ensures
        index_in(t, id) is Some,
    decreases t.len(),
{
    if t.last().0@ != id {
        assert(t.drop_last()[a] == t[a]);
        lemma_index_in_found(t.drop_last(), a, id);
    }
}

} // verus!

verus! {

/// `r` is the inbound request the router reads from OpenAI request `req`.
pub open spec fn received_from_openai(req: OpenAiChatRequest, r: ChatRequest) -> bool {
    &&& r.model == req.model
    &&& opt_view(r.system) == inbound_system(wire_messages(req.messages@))
    &&& message_models(r.messages@) == inbound_turns(wire_messages(req.messages@))
    &&& r.max_tokens == req.max_tokens
    &&& r.temperature == req.temperature
    &&& r.thinking.is_none() && r.effort.is_none() && r.task_budget.is_none()
    &&& r.output_schema == schema_of_format(req.response_format)
    &&& tool_models(r.tools@) == req.tools@.map_values(|t: OpenAiTool| tool_from_wire(t))
    &&& r.stream == req.stream
    &&& r.plugins == req.plugins
    &&& r.forced_provider.is_none()
    &&& r.tags@.len() == 0
}

/// `r` is the OpenAI request the router sends for `req`.
pub open spec fn sent_to_openai(req: ChatRequest, r: OpenAiChatRequest) -> bool {
    &&& r.model@ == req.model@
    &&& wire_messages(r.messages@) == system_messages(opt_view(req.system)) + outbound_all(message_models(req.messages@))
    &&& r.max_tokens == req.max_tokens
    &&& r.temperature == req.temperature
    &&& format_for(r.response_format, req.output_schema)
    &&& r.tools@.len() == req.tools@.len()
    &&& forall|i: int| 0 <= i < r.tools@.len() ==> function_tool_for(#[trigger] r.tools@[i], req.tools@[i]@)
    &&& r.stream == req.stream
    &&& r.plugins@.len() == 0
}

/// A message holding exactly one, non-empty text part.
pub open spec fn text_only_turn(m: MessageModel) -> bool {
    &&& m.content.len() == 1
    &&& m.content[0] matches PartModel::Text(t) && t.len() > 0
}

proof fn lemma_inbound_turns_concat(a: Seq<WireMessage>, b: Seq<WireMessage>)
    ensures
        inbound_turns(a + b) == inbound_turns(a) + inbound_turns(b),
    decreases b.len(),
{
    if b.len() == 0 {
        assert(a + b =~= a);
        assert(inbound_turns(a) + inbound_turns(b) =~= inbound_turns(a));
    } else {
        lemma_inbound_turns_concat(a, b.drop_last());
        assert((a + b).drop_last() =~= a + b.drop_last());
        assert((a + b).last() == b.last());
        assert(inbound_turns(a + b) =~= inbound_turns(a) + inbound_turns(b));
    }
}

proof fn lemma_inbound_system_skips(a: Seq<WireMessage>, b: Seq<WireMessage>)
    requires
        forall|i: int| 0 <= i < b.len() ==> (#[trigger] b[i]).role != "system"@,
    ensures
        inbound_system(a + b) == inbound_system(a),
    decreases b.len(),
{
    if b.len() == 0 {
        assert(a + b =~= a);
    } else {
        assert(b.last() == b[b.len() - 1]);
        lemma_inbound_system_skips(a, b.drop_last());
        assert((a + b).drop_last() =~= a + b.drop_last());
        assert((a + b).last() == b.last());
    }
}

proof fn lemma_roles_differ()
    ensures
        "user"@ != "system"@,
        "assistant"@ != "system"@,
        "user"@ != "assistant"@,
        "user"@ != "tool"@,
        "assistant"@ != "tool"@,
{
    reveal_strlit("user");
    reveal_strlit("system");
    reveal_strlit("assistant");
    reveal_strlit("tool");
    assert("user"@.len() != "system"@.len());
    assert("assistant"@.len() != "system"@.len());
    assert("user"@.len() != "assistant"@.len());
    assert("user"@[0] != "tool"@[0]);
    assert("assistant"@.len() != "tool"@.len());
}

proof fn lemma_text_turn_round_trip(m: MessageModel)
    requires
        text_only_turn(m),
    ensures
        inbound_turns(outbound_messages(m)) == seq![m],
        forall|i: int| 0 <= i < outbound_messages(m).len() ==> (#[trigger] outbound_messages(m)[i]).role != "system"@,
{
    lemma_roles_differ();
    let parts = m.content;
    let t = match parts[0] {
        PartModel::Text(t) => t,
        _ => Seq::empty(),
    };
    assert(parts =~= seq![PartModel::Text(t)]);
    let none = Seq::<PartModel>::empty();
    assert(parts.drop_last() =~= none);
    assert(parts.last() == PartModel::Text(t));
    assert(blocks_of(none) =~= Seq::<BlockModel>::empty());
    assert(calls_of(none) =~= Seq::<CallModel>::empty());
    assert(results_of(none) =~= Seq::<(Seq<char>, Seq<char>)>::empty());
    assert(text_of_parts(none) =~= Seq::<char>::empty());
    assert(blocks_of(parts) =~= seq![BlockModel::Text(t)]);
    assert(calls_of(parts) =~= Seq::<CallModel>::empty());
    assert(results_of(parts) =~= Seq::<(Seq<char>, Seq<char>)>::empty());
    assert(text_of_parts(parts) =~= t);
    assert(!any_image(parts));
    let w = WireMessage { role: role_name(m.role), content: Some(ContentModel::Text(t)), tool_calls: None, tool_call_id: None };
    assert(outbound_messages(m) =~= seq![w]);
    assert(seq![w].drop_last() =~= Seq::<WireMessage>::empty());
    assert(parts_of_content(Some(ContentModel::Text(t))) =~= parts);
    assert(tool_uses(None) =~= Seq::<PartModel>::empty());
    assert(parts + tool_uses(None) =~= parts);
    assert(inbound_turn(w) =~= seq![m]);
    assert(seq![w].last() == w);
    assert(inbound_turns(Seq::<WireMessage>::empty()) =~= Seq::<MessageModel>::empty());
    assert(inbound_turns(seq![w]) =~= Seq::<MessageModel>::empty() + inbound_turn(w));
}

proof fn lemma_text_turns_round_trip(ms: Seq<MessageModel>)
    requires
        forall|i: int| 0 <= i < ms.len() ==> text_only_turn(#[trigger] ms[i]),
    ensures
        inbound_turns(outbound_all(ms)) == ms,
        forall|i: int| 0 <= i < outbound_all(ms).len() ==> (#[trigger] outbound_all(ms)[i]).role != "system"@,
    decreases ms.len(),
{
    if ms.len() > 0 {
        let init = ms.drop_last();
        assert forall|i: int| 0 <= i < init.len() implies text_only_turn(#[trigger] init[i]) by {
            assert(init[i] == ms[i]);
        }
        lemma_text_turns_round_trip(init);
        assert(ms.last() == ms[ms.len() - 1]);
        lemma_text_turn_round_trip(ms.last());
        let a = outbound_all(init);
        let b = outbound_messages(ms.last());
        lemma_inbound_turns_concat(a, b);
        assert(ms =~= init + seq![ms.last()]);
        assert forall|i: int| 0 <= i < (a + b).len() implies (#[trigger] (a + b)[i]).role != "system"@ by {
            if i >= a.len() {
                assert((a + b)[i] == b[i - a.len()]);
            } else {
                assert((a + b)[i] == a[i]);
            }
        }
    } else {
        assert(outbound_all(ms) =~= Seq::<WireMessage>::empty());
    }
}

/// A request that uses none of the Anthropic-only fields or plugins, and
/// whose every message is one non-empty text part, survives the trip to the
/// OpenAI wire shape and back: model, system prompt, messages, token limit,
/// temperature, output schema, stream flag and tools come back the same.
/// (The outbound response format is the strict `json_schema` named
/// `response` for the schema, as `format_for` states.)
pub proof fn law_openai_request_round_trip(req: ChatRequest, wire: OpenAiChatRequest, back: ChatRequest)
    requires
        sent_to_openai(req, wire),
        received_from_openai(wire, back),
        forall|i: int| 0 <= i < req.messages@.len() ==> text_only_turn(#[trigger] req.messages@[i]@),
    ensures
        back.model@ == req.model@,
        opt_view(back.system) == opt_view(req.system),
        message_models(back.messages@) == message_models(req.messages@),
        back.max_tokens == req.max_tokens,
        back.temperature == req.temperature,
        back.output_schema == req.output_schema,
        tool_models(back.tools@) == tool_models(req.tools@),
        back.stream == req.stream,
        back.plugins@.len() == 0,
        back.thinking.is_none() && back.effort.is_none() && back.task_budget.is_none(),
{
    lemma_roles_differ();
    reveal_strlit("json_schema");
    let ms = message_models(req.messages@);
    assert forall|i: int| 0 <= i < ms.len() implies text_only_turn(#[trigger] ms[i]) by {
        assert(ms[i] == req.messages@[i]@);
    }
    lemma_text_turns_round_trip(ms);
    let sys = system_messages(opt_view(req.system));
    let out = outbound_all(ms);
    lemma_inbound_turns_concat(sys, out);
    lemma_inbound_system_skips(sys, out);
    match opt_view(req.system) {
        Some(s) => {
            assert(sys.drop_last() =~= Seq::<WireMessage>::empty());
            assert(parts_of_content(Some(ContentModel::Text(s))) =~= seq![PartModel::Text(s)]);
            let one = seq![PartModel::Text(s)];
            assert(one.drop_last() =~= Seq::<PartModel>::empty());
            assert(one.last() == PartModel::Text(s));
            assert(text_of_parts(Seq::<PartModel>::empty()) =~= Seq::<char>::empty());
            assert(text_of_parts(one) =~= s);
            assert(sys.last().role == "system"@);
            assert(inbound_turns(Seq::<WireMessage>::empty()) =~= Seq::<MessageModel>::empty());
            assert(inbound_turn(sys.last()) =~= Seq::<MessageModel>::empty());
            assert(inbound_turns(sys) =~= Seq::<MessageModel>::empty());
        },
        None => {
            assert(sys =~= Seq::<WireMessage>::empty());
        },
    }
    assert(inbound_turns(sys) + ms =~= ms);
    assert(tool_models(back.tools@) =~= tool_models(req.tools@)) by {
        assert forall|i: int| 0 <= i < req.tools@.len() implies tool_from_wire(wire.tools@[i]) == req.tools@[i]@ by {
            assert(function_tool_for(wire.tools@[i], req.tools@[i]@));
        }
    }
}

} // verus!

verus! {

/// `filter_map` of two runs is the `filter_map` of each, in order.
proof fn lemma_filter_map_concat<A, B>(a: Seq<A>, b: Seq<A>, f: spec_fn(A) -> Option<B>)
    ensures
        (a + b).filter_map(f) == a.filter_map(f) + b.filter_map(f),
    decreases b.len(),
{
    if b.len() == 0 {
        assert(a + b =~= a);
        assert(a.filter_map(f) + b.filter_map(f) =~= a.filter_map(f));
    } else {
        lemma_filter_map_concat(a, b.drop_last(), f);
        assert((a + b).drop_last() =~= a + b.drop_last());
        assert((a + b).last() == b.last());
        match f(b.last()) {
            Some(x) => {
                assert((a + b).filter_map(f) =~= a.filter_map(f) + b.filter_map(f));
            },
            None => {
                assert((a + b).filter_map(f) =~= a.filter_map(f) + b.filter_map(f));
            },
        }
    }
}

/// The `tool` messages among OpenAI messages.
pub open spec fn tool_messages(ws: Seq<WireMessage>) -> Seq<WireMessage> {
    ws.filter_map(|w: WireMessage| if w.role == "tool"@ { Some(w) } else { None })
}

proof fn lemma_results_as_tool_messages(parts: Seq<PartModel>)
    ensures
        tool_messages(results_of(parts).map_values(|r: (Seq<char>, Seq<char>)| tool_result_message(r)))
            == parts.filter_map(
            |p: PartModel|
                match p {
                    PartModel::ToolResult(id, c) => Some(
                        WireMessage {
                            role: "tool"@,
                            content: Some(ContentModel::Text(c)),
                            tool_calls: None,
                            tool_call_id: Some(id),
                        },
                    ),
                    _ => None,
                },
        ),
    decreases parts.len(),
{
    let f = |w: WireMessage| if w.role == "tool"@ { Some(w) } else { None };
    let trm = |r: (Seq<char>, Seq<char>)| tool_result_message(r);
    if parts.len() > 0 {
        let init = parts.drop_last();
        lemma_results_as_tool_messages(init);
        let x: Seq<(Seq<char>, Seq<char>)> = match parts.last() {
            PartModel::ToolResult(id, c) => seq![(id, c)],
            _ => Seq::empty(),
        };
        assert(results_of(parts) == results_of(init) + x);
        assert(results_of(parts).map_values(trm) =~= results_of(init).map_values(trm) + x.map_values(trm));
        lemma_filter_map_concat(results_of(init).map_values(trm), x.map_values(trm), f);
        match parts.last() {
            PartModel::ToolResult(id, c) => {
                let w = tool_result_message((id, c));
                assert(x.map_values(trm) =~= seq![w]);
                assert(seq![w].drop_last() =~= Seq::<WireMessage>::empty());
                assert(seq![w].last() == w);
                assert(w.role == "tool"@);
                assert(f(w) == Some(w));
                assert(Seq::<WireMessage>::empty().filter_map(f) =~= Seq::<WireMessage>::empty());
                assert(seq![w].filter_map(f) =~= seq![w]);
            },
            _ => {
                assert(x.map_values(trm) =~= Seq::<WireMessage>::empty());
            },
        }
    } else {
        assert(results_of(parts).map_values(trm) =~= Seq::<WireMessage>::empty());
    }
}

/// A canonical message becomes one `tool` message per tool-result part, in
/// order, each carrying that result's id and content; nothing else it
/// becomes is a `tool` message.
pub proof fn law_one_tool_message_per_result(m: MessageModel)
    ensures
        tool_messages(outbound_messages(m)) == m.content.filter_map(
            |p: PartModel|
                match p {
                    PartModel::ToolResult(id, c) => Some(
                        WireMessage {
                            role: "tool"@,
                            content: Some(ContentModel::Text(c)),
                            tool_calls: None,
                            tool_call_id: Some(id),
                        },
                    ),
                    _ => None,
                },
        ),
{
    lemma_roles_differ();
    let f = |w: WireMessage| if w.role == "tool"@ { Some(w) } else { None };
    let parts = m.content;
    let trm = |r: (Seq<char>, Seq<char>)| tool_result_message(r);
    let blocks = blocks_of(parts);
    let calls = calls_of(parts);
    let text = text_of_parts(parts);
    let head = if blocks.len() > 0 || calls.len() > 0 {
        seq![
            WireMessage {
                role: role_name(m.role),
                content: if any_image(parts) {
                    Some(ContentModel::Blocks(blocks))
                } else if text.len() > 0 {
                    Some(ContentModel::Text(text))
                } else {
                    None
                },
                tool_calls: if calls.len() > 0 { Some(calls) } else { None },
                tool_call_id: None,
            },
        ]
    } else {
        Seq::empty()
    };
    assert(outbound_messages(m) == head + results_of(parts).map_values(trm));
    lemma_filter_map_concat(head, results_of(parts).map_values(trm), f);
    assert(Seq::<WireMessage>::empty().filter_map(f) =~= Seq::<WireMessage>::empty());
    if head.len() > 0 {
        assert(head.drop_last() =~= Seq::<WireMessage>::empty());
        assert(head.last().role != "tool"@);
        assert(f(head.last()) is None);
    }
    assert(head.filter_map(f) =~= Seq::<WireMessage>::empty());
    lemma_results_as_tool_messages(parts);
    assert(head.filter_map(f) + results_of(parts).map_values(trm).filter_map(f) =~= results_of(parts).map_values(
        trm,
    ).filter_map(f));
}

} // verus!
