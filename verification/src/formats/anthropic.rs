//! The Anthropic `/v1/messages` shape, and its translation to and from the
//! canonical model. Used both for requests from Anthropic-format clients and
//! for calls to providers that speak the Messages API.

use vstd::prelude::*;

use crate::canonical::{
    copy_opt_string, message_models, opt_view, part_models, text_of_parts, tool_call_models, tool_models, ChatRequest,
    ChatResponse, ContentPart, Message, MessageModel, PartModel, PluginRequest, Role, StopReason, StreamEvent, Tool,
    ToolCall, ToolCallModel, ToolModel, Usage,
};
use crate::json::{copy_opt_value, copy_value};
use crate::text::str_eq;

verus! {

/// `content` as Anthropic accepts it: a bare string or a list of blocks.
#[derive(Debug, Clone, PartialEq)]
pub enum AnthropicContent {
    Text(String),
    Blocks(Vec<ContentBlock>),
}

#[derive(Debug, Clone, PartialEq)]
pub enum ContentBlock {
    Text { text: String },
    Image { source: ImageSource },
    ToolUse { id: String, name: String, input: serde_json::Value },
    ToolResult { tool_use_id: String, content: String },
}

#[derive(Debug, Clone, PartialEq)]
pub struct ImageSource {
    pub source_type: String,
    pub media_type: String,
    pub data: String,
}

#[derive(Debug, Clone, PartialEq)]
pub struct AnthropicMessage {
    pub role: String,
    pub content: AnthropicContent,
}

#[derive(Debug, Clone, PartialEq)]
pub struct AnthropicTool {
    pub name: String,
    pub description: Option<String>,
    pub input_schema: serde_json::Value,
}

#[derive(Debug)]
pub struct AnthropicMessagesRequest {
    pub model: String,
    pub max_tokens: u32,
    pub system: Option<String>,
    pub messages: Vec<AnthropicMessage>,
    /// Bit pattern of the client's `f32` temperature.
    pub temperature: Option<u32>,
    /// Extended-thinking config, passed through opaquely.
    pub thinking: Option<serde_json::Value>,
    pub output_config: Option<OutputConfig>,
    pub tools: Vec<AnthropicTool>,
    pub stream: bool,
    /// Plugins to run for this request; stripped before forwarding.
    pub plugins: Vec<PluginRequest>,
}

#[derive(Debug, Clone, PartialEq)]
pub struct OutputConfig {
    pub effort: Option<String>,
    pub task_budget: Option<serde_json::Value>,
    /// Structured-outputs config: `{"type": "json_schema", "schema": ...}`.
    pub format: Option<OutputFormat>,
}

#[derive(Debug, Clone, PartialEq)]
pub struct OutputFormat {
    pub format_type: String,
    pub schema: serde_json::Value,
}

#[derive(Debug, Clone, Copy, PartialEq, Eq, Structural)]
pub struct AnthropicUsage {
    pub input_tokens: u32,
    pub output_tokens: u32,
}

impl Default for AnthropicUsage {
    fn default() -> (r: AnthropicUsage)
        ensures
            r.input_tokens == 0 && r.output_tokens == 0,
    {
        AnthropicUsage { input_tokens: 0, output_tokens: 0 }
    }
}

#[derive(Debug, Clone, PartialEq)]
pub struct AnthropicMessagesResponse {
    pub id: String,
    pub response_type: String,
    pub role: String,
    pub model: String,
    pub content: Vec<ContentBlock>,
    pub stop_reason: Option<String>,
    pub usage: AnthropicUsage,
}

/// `max_tokens` sent when the request sets none (the API requires it).
pub const DEFAULT_MAX_TOKENS: u32 = 4096;

/// A content block as the contracts see it.
pub ghost enum BlockModel {
    Text(Seq<char>),
    /// Source type, media type, data.
    Image(Seq<char>, Seq<char>, Seq<char>),
    ToolUse(Seq<char>, Seq<char>, serde_json::Value),
    ToolResult(Seq<char>, Seq<char>),
}

impl View for ContentBlock {
    type V = BlockModel;

    open spec fn view(&self) -> BlockModel {
        match self {
            ContentBlock::Text { text } => BlockModel::Text(text@),
            ContentBlock::Image { source } => BlockModel::Image(source.source_type@, source.media_type@, source.data@),
            ContentBlock::ToolUse { id, name, input } => BlockModel::ToolUse(id@, name@, *input),
            ContentBlock::ToolResult { tool_use_id, content } => BlockModel::ToolResult(tool_use_id@, content@),
        }
    }
}

/// Message content as the contracts see it.
pub ghost enum ContentModel {
    Text(Seq<char>),
    Blocks(Seq<BlockModel>),
}

impl View for AnthropicContent {
    type V = ContentModel;

    open spec fn view(&self) -> ContentModel {
        match self {
            AnthropicContent::Text(t) => ContentModel::Text(t@),
            AnthropicContent::Blocks(b) => ContentModel::Blocks(block_models(b@)),
        }
    }
}

/// The models of a sequence of blocks.
pub open spec fn block_models(s: Seq<ContentBlock>) -> Seq<BlockModel> {
    s.map_values(|b: ContentBlock| b@)
}

/// The canonical part for a block (an image keeps media type and data).
pub open spec fn part_of_block(b: BlockModel) -> PartModel {
    match b {
        BlockModel::Text(t) => PartModel::Text(t),
        BlockModel::Image(_, m, d) => PartModel::Image(m, d),
        BlockModel::ToolUse(id, name, input) => PartModel::ToolUse(id, name, input),
        BlockModel::ToolResult(id, c) => PartModel::ToolResult(id, c),
    }
}

/// The block for a canonical part (images as base64 sources).
pub open spec fn block_of_part(p: PartModel) -> BlockModel {
    match p {
        PartModel::Text(t) => BlockModel::Text(t),
        PartModel::Image(m, d) => BlockModel::Image("base64"@, m, d),
        PartModel::ToolUse(id, name, input) => BlockModel::ToolUse(id, name, input),
        PartModel::ToolResult(id, c) => BlockModel::ToolResult(id, c),
    }
}

/// The canonical parts for Anthropic content.
pub open spec fn parts_of_content(c: ContentModel) -> Seq<PartModel> {
    match c {
        ContentModel::Text(t) => seq![PartModel::Text(t)],
        ContentModel::Blocks(bs) => bs.map_values(|b: BlockModel| part_of_block(b)),
    }
}

/// The Anthropic content for canonical parts: a single text part collapses
/// to a bare string; anything else becomes blocks.
pub open spec fn content_of_parts(parts: Seq<PartModel>) -> ContentModel {
    if parts.len() == 1 && parts[0] is Text {
        ContentModel::Text(parts[0]->Text_0)
    } else {
        ContentModel::Blocks(parts.map_values(|p: PartModel| block_of_part(p)))
    }
}

/// Rendering canonical parts as Anthropic content and reading them back
/// gives the same parts.
pub proof fn law_content_round_trip(parts: Seq<PartModel>)
    ensures
        parts_of_content(content_of_parts(parts)) == parts,
{
    if parts.len() == 1 && parts[0] is Text {
        assert(parts_of_content(content_of_parts(parts)) =~= parts);
    } else {
        let back = parts.map_values(|p: PartModel| block_of_part(p)).map_values(|b: BlockModel| part_of_block(b));
        assert forall|i: int| 0 <= i < parts.len() implies back[i] == parts[i] by {
            match parts[i] {
                PartModel::Text(_) => {},
                PartModel::Image(_, _) => {},
                PartModel::ToolUse(_, _, _) => {},
                PartModel::ToolResult(_, _) => {},
            }
        }
        assert(back =~= parts);
    }
}

/// The canonical parts for Anthropic content.
pub fn content_parts_from_anthropic(content: AnthropicContent) -> (r: Vec<ContentPart>)
    ensures
        part_models(r@) == parts_of_content(content@),
{
    match content {
        AnthropicContent::Text(text) => {
            let mut v: Vec<ContentPart> = Vec::new();
            v.push(ContentPart::Text { text });
            proof {
                assert(part_models(v@) =~= seq![PartModel::Text(text@)]);
            }
            v
        },
        AnthropicContent::Blocks(blocks) => {
            let ghost bm = block_models(blocks@);
            let mut v: Vec<ContentPart> = Vec::new();
            for block in it: blocks
                invariant
                    it.seq() == blocks@,
                    bm == block_models(blocks@),
                    v@.len() == it.index(),
                    forall|j: int| 0 <= j < v@.len() ==> (#[trigger] v@[j])@ == part_of_block(bm[j]),
            {
                let ghost k = it.index() as int;
                let ghost b = block;
                proof {
                    assert(bm[k] == b@);
                }
                let part = match block {
                    ContentBlock::Text { text } => ContentPart::Text { text },
                    ContentBlock::Image { source } => ContentPart::Image { media_type: source.media_type, data: source.data },
                    ContentBlock::ToolUse { id, name, input } => ContentPart::ToolUse { id, name, input },
                    ContentBlock::ToolResult { tool_use_id, content } => ContentPart::ToolResult { tool_use_id, content },
                };
                v.push(part);
            }
            proof {
                assert(part_models(v@) =~= bm.map_values(|b: BlockModel| part_of_block(b)));
            }
            v
        },
    }
}

/// The block for a canonical part.
fn block_from_part(part: &ContentPart) -> (r: ContentBlock)
    ensures
        r@ == block_of_part(part@),
{
    proof {
        reveal_strlit("base64");
    }
    match part {
        ContentPart::Text { text } => ContentBlock::Text { text: text.clone() },
        ContentPart::Image { media_type, data } => ContentBlock::Image {
            source: ImageSource {
                source_type: String::from_str("base64"),
                media_type: media_type.clone(),
                data: data.clone(),
            },
        },
        ContentPart::ToolUse { id, name, input } => ContentBlock::ToolUse {
            id: id.clone(),
            name: name.clone(),
            input: copy_value(input),
        },
        ContentPart::ToolResult { tool_use_id, content } => ContentBlock::ToolResult {
            tool_use_id: tool_use_id.clone(),
            content: content.clone(),
        },
    }
}

/// The Anthropic content for canonical parts; a single text part collapses
/// to a bare string.
pub fn anthropic_content_from_parts(parts: &Vec<ContentPart>) -> (r: AnthropicContent)
    ensures
        r@ == content_of_parts(part_models(parts@)),
{
    if parts.len() == 1 {
        if let ContentPart::Text { text } = &parts[0] {
            return AnthropicContent::Text(text.clone());
        }
    }
    let ghost pm = part_models(parts@);
    let mut blocks: Vec<ContentBlock> = Vec::new();
    let mut i: usize = 0;
    while i < parts.len()
        invariant
            i <= parts.len(),
            pm == part_models(parts@),
            blocks@.len() == i,
            forall|j: int| 0 <= j < i ==> (#[trigger] blocks@[j])@ == block_of_part(pm[j]),
        decreases parts.len() - i,
    {
        blocks.push(block_from_part(&parts[i]));
        i = i + 1;
    }
    proof {
        assert(block_models(blocks@) =~= pm.map_values(|p: PartModel| block_of_part(p)));
    }
    AnthropicContent::Blocks(blocks)
}

} // verus!

verus! {

/// An Anthropic message as the contracts see it.
pub ghost struct WireMessage {
    pub role: Seq<char>,
    pub content: ContentModel,
}

impl View for AnthropicMessage {
    type V = WireMessage;

    open spec fn view(&self) -> WireMessage {
        WireMessage { role: self.role@, content: self.content@ }
    }
}

/// The canonical turn for an inbound Anthropic message: `assistant` stays
/// an assistant turn, any other role is a user turn.
pub open spec fn turn_of(m: WireMessage) -> MessageModel {
    MessageModel {
        role: if m.role == "assistant"@ { Role::Assistant } else { Role::User },
        content: parts_of_content(m.content),
    }
}

/// The outbound Anthropic message for a canonical turn.
pub open spec fn wire_of(m: MessageModel) -> WireMessage {
    WireMessage {
        role: match m.role {
            Role::Assistant => "assistant"@,
            Role::User => "user"@,
        },
        content: content_of_parts(m.content),
    }
}

/// The canonical tool for an Anthropic tool.
pub open spec fn tool_of(t: AnthropicTool) -> ToolModel {
    ToolModel { name: t.name@, description: opt_view(t.description), input_schema: t.input_schema }
}

/// `w` is the Anthropic tool for canonical tool `t`.
pub open spec fn wire_tool_for(w: AnthropicTool, t: ToolModel) -> bool {
    w.name@ == t.name && opt_view(w.description) == t.description && w.input_schema == t.input_schema
}

/// `c` is the output config for the Anthropic-only fields and the output
/// schema: absent when all three are, otherwise carrying each as given,
/// the schema wrapped as a `json_schema` format.
pub open spec fn output_config_for(
    c: Option<OutputConfig>,
    effort: Option<String>,
    task_budget: Option<serde_json::Value>,
    schema: Option<serde_json::Value>,
) -> bool {
    if effort.is_none() && task_budget.is_none() && schema.is_none() {
        c.is_none()
    } else {
        match c {
            Some(c) => {
                &&& opt_view(c.effort) == opt_view(effort)
                &&& c.task_budget == task_budget
                &&& match (c.format, schema) {
                    (Some(f), Some(s)) => f.format_type@ == "json_schema"@ && f.schema == s,
                    (None, None) => true,
                    _ => false,
                }
            },
            None => false,
        }
    }
}

impl ChatRequest {
    /// An inbound request from a client speaking the Anthropic format.
    pub fn from_anthropic(req: AnthropicMessagesRequest) -> (r: ChatRequest)
        ensures
            r.model == req.model,
            r.system == req.system,
            message_models(r.messages@) == req.messages@.map_values(|m: AnthropicMessage| turn_of(m@)),
            r.max_tokens == Some(req.max_tokens),
            r.temperature == req.temperature,
            r.thinking == req.thinking,
            match req.output_config {
                Some(c) => r.effort == c.effort && r.task_budget == c.task_budget && r.output_schema == match c.format {
                    Some(f) => Some(f.schema),
                    None => None,
                },
                None => r.effort.is_none() && r.task_budget.is_none() && r.output_schema.is_none(),
            },
            tool_models(r.tools@) == req.tools@.map_values(|t: AnthropicTool| tool_of(t)),
            r.stream == req.stream,
            r.plugins == req.plugins,
            r.forced_provider.is_none(),
            r.tags@.len() == 0,
    {
        proof {
            reveal_strlit("assistant");
        }
        let ghost wm = req.messages@;
        let mut messages: Vec<Message> = Vec::new();
        for msg in it: req.messages
            invariant
                it.seq() == wm,
                messages@.len() == it.index(),
                forall|j: int| 0 <= j < messages@.len() ==> (#[trigger] messages@[j])@ == turn_of(wm[j]@),
        {
            let ghost k = it.index() as int;
            let ghost mv = msg@;
            proof {
                assert(wm[k]@ == mv);
            }
            let role = if str_eq(msg.role.as_str(), "assistant") { Role::Assistant } else { Role::User };
            let content = content_parts_from_anthropic(msg.content);
            messages.push(Message { role, content });
        }
        proof {
            assert(message_models(messages@) =~= wm.map_values(|m: AnthropicMessage| turn_of(m@)));
        }
        let (effort, task_budget, output_schema) = match req.output_config {
            Some(c) => (c.effort, c.task_budget, match c.format {
                Some(f) => Some(f.schema),
                None => None,
            }),
            None => (None, None, None),
        };
        let ghost wt = req.tools@;
        let mut tools: Vec<Tool> = Vec::new();
        for t in it: req.tools
            invariant
                it.seq() == wt,
                tools@.len() == it.index(),
                forall|j: int| 0 <= j < tools@.len() ==> (#[trigger] tools@[j])@ == tool_of(wt[j]),
        {
            let ghost k = it.index() as int;
            proof {
                assert(wt[k] == t);
            }
            tools.push(Tool { name: t.name, description: t.description, input_schema: t.input_schema });
        }
        proof {
            assert(tool_models(tools@) =~= wt.map_values(|t: AnthropicTool| tool_of(t)));
        }
        ChatRequest {
            model: req.model,
            system: req.system,
            messages,
            max_tokens: Some(req.max_tokens),
            temperature: req.temperature,
            thinking: req.thinking,
            effort,
            task_budget,
            output_schema,
            tools,
            stream: req.stream,
            plugins: req.plugins,
            forced_provider: None,
            tags: Vec::new(),
        }
    }
}

impl AnthropicMessagesRequest {
    /// An outbound request to a provider that speaks the Anthropic format.
    pub fn from_chat(req: &ChatRequest) -> (r: AnthropicMessagesRequest)
        ensures
            r.model@ == req.model@,
            r.max_tokens == match req.max_tokens {
                Some(n) => n,
                None => DEFAULT_MAX_TOKENS,
            },
            r.system == req.system,
            r.messages@.map_values(|m: AnthropicMessage| m@) == message_models(req.messages@).map_values(
                |m: MessageModel| wire_of(m),
            ),
            r.temperature == req.temperature,
            r.thinking == req.thinking,
            output_config_for(r.output_config, req.effort, req.task_budget, req.output_schema),
            r.tools@.len() == req.tools@.len(),
            forall|i: int| 0 <= i < r.tools@.len() ==> wire_tool_for(#[trigger] r.tools@[i], req.tools@[i]@),
            r.stream == req.stream,
            r.plugins@.len() == 0,
    {
        proof {
            reveal_strlit("assistant");
            reveal_strlit("user");
            reveal_strlit("json_schema");
        }
        let ghost mm = message_models(req.messages@);
        let mut messages: Vec<AnthropicMessage> = Vec::new();
        let mut i: usize = 0;
        while i < req.messages.len()
            invariant
                i <= req.messages.len(),
                mm == message_models(req.messages@),
                messages@.len() == i,
                forall|j: int| 0 <= j < i ==> (#[trigger] messages@[j])@ == wire_of(mm[j]),
            decreases req.messages.len() - i,
        {
            let m = &req.messages[i];
            let role = match m.role {
                Role::Assistant => String::from_str("assistant"),
                Role::User => String::from_str("user"),
            };
            messages.push(AnthropicMessage { role, content: anthropic_content_from_parts(&m.content) });
            i = i + 1;
        }
        proof {
            assert(messages@.map_values(|m: AnthropicMessage| m@) =~= mm.map_values(|m: MessageModel| wire_of(m)));
        }
        let output_config = if req.effort.is_some() || req.task_budget.is_some() || req.output_schema.is_some() {
            Some(OutputConfig {
                effort: copy_opt_string(&req.effort),
                task_budget: copy_opt_value(&req.task_budget),
                format: match &req.output_schema {
                    Some(s) => Some(OutputFormat { format_type: String::from_str("json_schema"), schema: copy_value(s) }),
                    None => None,
                },
            })
        } else {
            None
        };
        let mut tools: Vec<AnthropicTool> = Vec::new();
        let mut j: usize = 0;
        while j < req.tools.len()
            invariant
                j <= req.tools.len(),
                tools@.len() == j,
                forall|k: int| 0 <= k < j ==> wire_tool_for(#[trigger] tools@[k], req.tools@[k]@),
            decreases req.tools.len() - j,
        {
            let t = &req.tools[j];
            tools.push(AnthropicTool {
                name: t.name.clone(),
                description: copy_opt_string(&t.description),
                input_schema: copy_value(&t.input_schema),
            });
            j = j + 1;
        }
        AnthropicMessagesRequest {
            model: req.model.clone(),
            max_tokens: match req.max_tokens {
                Some(n) => n,
                None => DEFAULT_MAX_TOKENS,
            },
            system: copy_opt_string(&req.system),
            messages,
            temperature: req.temperature,
            thinking: copy_opt_value(&req.thinking),
            output_config,
            tools,
            stream: req.stream,
            plugins: Vec::new(),
        }
    }
}

/// The text of a response's text blocks, joined.
pub open spec fn text_of_blocks(bs: Seq<BlockModel>) -> Seq<char>
    decreases bs.len(),
{
    if bs.len() == 0 {
        Seq::empty()
    } else {
        text_of_blocks(bs.drop_last()) + match bs.last() {
            BlockModel::Text(t) => t,
            _ => Seq::empty(),
        }
    }
}

/// The tool calls of a response's tool-use blocks.
pub open spec fn calls_of_blocks(bs: Seq<BlockModel>) -> Seq<ToolCallModel>
    decreases bs.len(),
{
    if bs.len() == 0 {
        Seq::empty()
    } else {
        calls_of_blocks(bs.drop_last()) + match bs.last() {
            BlockModel::ToolUse(id, name, input) => seq![ToolCallModel { id, name, input }],
            _ => Seq::empty(),
        }
    }
}

/// The canonical stop reason for an Anthropic `stop_reason`.
pub open spec fn stop_of(reason: Option<Seq<char>>) -> StopReason {
    match reason {
        Some(r) => if r == "end_turn"@ {
            StopReason::EndTurn
        } else if r == "max_tokens"@ {
            StopReason::MaxTokens
        } else if r == "tool_use"@ {
            StopReason::ToolUse
        } else {
            StopReason::Other
        },
        None => StopReason::Other,
    }
}

/// The Anthropic `stop_reason` for a canonical one.
pub open spec fn anthropic_stop(reason: StopReason) -> Seq<char> {
    match reason {
        StopReason::EndTurn => "end_turn"@,
        StopReason::MaxTokens => "max_tokens"@,
        StopReason::ToolUse => "tool_use"@,
        StopReason::Other => "end_turn"@,
    }
}

/// The Anthropic `stop_reason` for a canonical one.
pub fn stop_reason_to_anthropic(reason: StopReason) -> (r: &'static str)
    ensures
        r@ == anthropic_stop(reason),
{
    proof {
        reveal_strlit("end_turn");
        reveal_strlit("max_tokens");
        reveal_strlit("tool_use");
    }
    match reason {
        StopReason::EndTurn => "end_turn",
        StopReason::MaxTokens => "max_tokens",
        StopReason::ToolUse => "tool_use",
        StopReason::Other => "end_turn",
    }
}

impl ChatResponse {
    /// A reply from a provider that speaks the Anthropic format: text blocks
    /// joined, tool-use blocks as tool calls, other blocks ignored.
    pub fn from_anthropic(resp: AnthropicMessagesResponse) -> (r: ChatResponse)
        ensures
            r.id == resp.id,
            r.model == resp.model,
            r.content@ == text_of_blocks(block_models(resp.content@)),
            tool_call_models(r.tool_calls@) == calls_of_blocks(block_models(resp.content@)),
            r.stop_reason == stop_of(opt_view(resp.stop_reason)),
            r.usage.input_tokens == resp.usage.input_tokens,
            r.usage.output_tokens == resp.usage.output_tokens,
            r.tags@.len() == 0,
    {
        let ghost bm = block_models(resp.content@);
        let mut content = String::new();
        let mut tool_calls: Vec<ToolCall> = Vec::new();
        for block in it: resp.content
            invariant
                it.seq() == resp.content@,
                bm == block_models(resp.content@),
                content@ == text_of_blocks(bm.take(it.index() as int)),
                tool_call_models(tool_calls@) == calls_of_blocks(bm.take(it.index() as int)),
        {
            let ghost k = it.index() as int;
            let ghost before = tool_calls@;
            proof {
                assert(bm.take(k + 1).drop_last() =~= bm.take(k));
                assert(bm.take(k + 1).last() == block@);
            }
            match block {
                ContentBlock::Text { text } => content.append(text.as_str()),
                ContentBlock::ToolUse { id, name, input } => tool_calls.push(ToolCall { id, name, input }),
                _ => {},
            }
            proof {
                assert(tool_call_models(tool_calls@) =~= calls_of_blocks(bm.take(k + 1)));
            }
        }
        proof {
            assert(bm.take(resp.content@.len() as int) =~= bm);
        }
        let stop_reason = match &resp.stop_reason {
            Some(s) => {
                if str_eq(s.as_str(), "end_turn") {
                    StopReason::EndTurn
                } else if str_eq(s.as_str(), "max_tokens") {
                    StopReason::MaxTokens
                } else if str_eq(s.as_str(), "tool_use") {
                    StopReason::ToolUse
                } else {
                    StopReason::Other
                }
            },
            None => StopReason::Other,
        };
        ChatResponse {
            id: resp.id,
            model: resp.model,
            content,
            stop_reason,
            tool_calls,
            usage: Usage { input_tokens: resp.usage.input_tokens, output_tokens: resp.usage.output_tokens },
            tags: Vec::new(),
        }
    }
}

impl AnthropicMessagesResponse {
    /// A reply rendered for a client that speaks the Anthropic format: a
    /// text block (when there is text), then one tool-use block per call.
    pub fn from_chat(resp: ChatResponse) -> (r: AnthropicMessagesResponse)
        ensures
            r.id == resp.id,
            r.model == resp.model,
            r.response_type@ == "message"@,
            r.role@ == "assistant"@,
            block_models(r.content@) == (if resp.content@.len() > 0 {
                seq![BlockModel::Text(resp.content@)]
            } else {
                Seq::empty()
            }) + tool_call_models(resp.tool_calls@).map_values(
                |c: ToolCallModel| BlockModel::ToolUse(c.id, c.name, c.input),
            ),
            opt_view(r.stop_reason) == Some(anthropic_stop(resp.stop_reason)),
            r.usage.input_tokens == resp.usage.input_tokens,
            r.usage.output_tokens == resp.usage.output_tokens,
    {
        let stop = stop_reason_to_anthropic(resp.stop_reason);
        let mut content: Vec<ContentBlock> = Vec::new();
        let has_text = !resp.content.as_str().is_empty();
        let ghost text = resp.content@;
        if has_text {
            content.push(ContentBlock::Text { text: resp.content });
        }
        let ghost head = block_models(content@);
        let ghost tm = tool_call_models(resp.tool_calls@);
        for tc in it: resp.tool_calls
            invariant
                it.seq() == resp.tool_calls@,
                tm == tool_call_models(resp.tool_calls@),
                head.len() <= 1,
                content@.len() == head.len() + it.index(),
                forall|j: int| 0 <= j < head.len() ==> (#[trigger] content@[j])@ == head[j],
                forall|j: int|
                    0 <= j < it.index() ==> (#[trigger] content@[head.len() + j])@ == BlockModel::ToolUse(
                        tm[j].id,
                        tm[j].name,
                        tm[j].input,
                    ),
        {
            let ghost k = it.index() as int;
            proof {
                assert(tm[k] == tc@);
            }
            content.push(ContentBlock::ToolUse { id: tc.id, name: tc.name, input: tc.input });
        }
        proof {
            let target = (if text.len() > 0 { seq![BlockModel::Text(text)] } else { Seq::empty() }) + tm.map_values(
                |c: ToolCallModel| BlockModel::ToolUse(c.id, c.name, c.input),
            );
            assert forall|j: int| 0 <= j < target.len() implies block_models(content@)[j] == target[j] by {
                if j >= head.len() {
                    assert(content@[head.len() + (j - head.len())]@ == BlockModel::ToolUse(
                        tm[j - head.len()].id,
                        tm[j - head.len()].name,
                        tm[j - head.len()].input,
                    ));
                }
            }
            assert(block_models(content@) =~= target);
        }
        AnthropicMessagesResponse {
            id: resp.id,
            response_type: String::from_str("message"),
            role: String::from_str("assistant"),
            model: resp.model,
            content,
            stop_reason: Some(String::from_str(stop)),
            usage: AnthropicUsage { input_tokens: resp.usage.input_tokens, output_tokens: resp.usage.output_tokens },
        }
    }
}

} // verus!

verus! {

/// One event of the Anthropic Messages SSE stream, as the renderer decides
/// it; the program around the library writes it as
/// `event: <name>\ndata: <json>\n\n`.
#[derive(Debug, Clone, PartialEq)]
pub enum AnthropicStreamEvent {
    /// `message_start`, with an empty assistant message.
    MessageStart { id: String, model: String },
    /// `content_block_start` of an empty text block.
    TextBlockStart { index: i64 },
    /// `content_block_start` of a tool-use block with empty input.
    ToolUseBlockStart { index: i64, id: String, name: String },
    /// `content_block_delta` with a `text_delta`.
    TextDelta { index: i64, text: String },
    /// `content_block_delta` with an `input_json_delta`.
    InputJsonDelta { index: i64, partial_json: String },
    /// `content_block_stop`.
    BlockStop { index: i64 },
    /// `message_delta` with the stop reason and usage.
    MessageDelta { stop_reason: String, usage: Usage },
    /// `message_stop`.
    MessageStop,
}

/// The kind of content block currently open.
#[derive(Debug, Clone, Copy, PartialEq, Eq, Structural)]
pub enum OpenBlock {
    Text,
    ToolUse,
}

/// Renders canonical events as the Anthropic Messages SSE sequence. Every
/// block is explicitly started and stopped, and at most one is open at a
/// time; blocks are numbered from 0.
#[derive(Debug, Clone, Copy, PartialEq, Eq, Structural)]
pub struct AnthropicStreamRenderer {
    /// Index of the most recently opened block (-1 before any).
    pub block_index: i64,
    pub open_block: Option<OpenBlock>,
}

/// The `content_block_stop` of the block open in `s`, if one is.
pub open spec fn stop_open(s: AnthropicStreamRenderer) -> Seq<AnthropicStreamEvent> {
    if s.open_block.is_some() {
        seq![AnthropicStreamEvent::BlockStop { index: s.block_index }]
    } else {
        Seq::empty()
    }
}

/// One rendering step: from state `s`, event `e` leads to state `s2` and
/// the events `out`; `done` is set after the final event.
///
/// - Text: opens a text block first unless one is open (stopping any other
///   block), then a text delta.
/// - Tool-call start: stops any open block and opens a tool-use block.
/// - Tool-call fragment: an input-JSON delta on the current block.
/// - Done: stops any open block, then `message_delta` with the stop reason
///   and usage, then `message_stop`.
pub open spec fn anthropic_step(
    s: AnthropicStreamRenderer,
    e: StreamEvent,
    s2: AnthropicStreamRenderer,
    out: Seq<AnthropicStreamEvent>,
    done: bool,
) -> bool {
    match e {
        StreamEvent::TextDelta { text } => !done && if s.open_block == Some(OpenBlock::Text) {
            s2 == s && out == seq![AnthropicStreamEvent::TextDelta { index: s.block_index, text }]
        } else {
            &&& s2.block_index == s.block_index + 1
            &&& s2.open_block == Some(OpenBlock::Text)
            &&& out == stop_open(s) + seq![
                AnthropicStreamEvent::TextBlockStart { index: s2.block_index },
                AnthropicStreamEvent::TextDelta { index: s2.block_index, text },
            ]
        },
        StreamEvent::ToolCallStart { id, name } => {
            &&& !done
            &&& s2.block_index == s.block_index + 1
            &&& s2.open_block == Some(OpenBlock::ToolUse)
            &&& out == stop_open(s) + seq![AnthropicStreamEvent::ToolUseBlockStart { index: s2.block_index, id, name }]
        },
        StreamEvent::ToolCallDelta { partial_input, .. } => {
            &&& !done
            &&& s2 == s
            &&& out == seq![AnthropicStreamEvent::InputJsonDelta { index: s.block_index, partial_json: partial_input }]
        },
        StreamEvent::Done { stop_reason, usage } => {
            let n = stop_open(s).len() as int;
            &&& done
            &&& s2 == s
            &&& out.len() == n + 2
            &&& out.take(n) == stop_open(s)
            &&& out[n] matches AnthropicStreamEvent::MessageDelta { stop_reason: r, usage: u } && r@ == anthropic_stop(
                stop_reason,
            ) && u == usage
            &&& out[n + 1] == AnthropicStreamEvent::MessageStop
        },
    }
}

/// A run of rendering steps: `states[i]` and `es[i]` lead to `states[i + 1]`,
/// `outs[i]` and `dones[i]`.
pub open spec fn anthropic_run(
    states: Seq<AnthropicStreamRenderer>,
    es: Seq<StreamEvent>,
    outs: Seq<Seq<AnthropicStreamEvent>>,
    dones: Seq<bool>,
) -> bool {
    &&& states.len() == es.len() + 1
    &&& outs.len() == es.len()
    &&& dones.len() == es.len()
    &&& forall|i: int|
        #![trigger outs[i]]
        0 <= i < es.len() ==> anthropic_step(states[i], es[i], states[i + 1], outs[i], dones[i])
}

/// The events of all steps, in order.
pub open spec fn concat_all(outs: Seq<Seq<AnthropicStreamEvent>>) -> Seq<AnthropicStreamEvent>
    decreases outs.len(),
{
    if outs.len() == 0 {
        Seq::empty()
    } else {
        outs[0] + concat_all(outs.skip(1))
    }
}

/// Whether `out` is a well-formed rest of a message stream, given that `k`
/// blocks were started so far and whether the last is still open: each
/// block starts (numbered `k`) only when none is open, every delta is on the
/// open block, each block is stopped once, and the stream ends with
/// `message_delta` (with stop reason `sr` and `usage`) and `message_stop`,
/// with no block open.
pub open spec fn valid_from(out: Seq<AnthropicStreamEvent>, k: int, open: bool, sr: StopReason, usage: Usage) -> bool
    decreases out.len(),
{
    if out.len() == 0 {
        false
    } else {
        let rest = out.skip(1);
        match out[0] {
            AnthropicStreamEvent::TextBlockStart { index } => !open && index == k && valid_from(rest, k + 1, true, sr, usage),
            AnthropicStreamEvent::ToolUseBlockStart { index, .. } => !open && index == k && valid_from(
                rest,
                k + 1,
                true,
                sr,
                usage,
            ),
            AnthropicStreamEvent::TextDelta { index, .. } => open && index == k - 1 && valid_from(rest, k, true, sr, usage),
            AnthropicStreamEvent::InputJsonDelta { index, .. } => open && index == k - 1 && valid_from(
                rest,
                k,
                true,
                sr,
                usage,
            ),
            AnthropicStreamEvent::BlockStop { index } => open && index == k - 1 && valid_from(rest, k, false, sr, usage),
            AnthropicStreamEvent::MessageDelta { stop_reason, usage: u } => !open && stop_reason@ == anthropic_stop(sr)
                && u == usage && rest == seq![AnthropicStreamEvent::MessageStop],
            _ => false,
        }
    }
}

/// Putting `x` in front of `rest`: `x` comes first, and `rest` follows.
proof fn lemma_cons(x: AnthropicStreamEvent, rest: Seq<AnthropicStreamEvent>)
    ensures
        (seq![x] + rest)[0] == x,
        (seq![x] + rest).skip(1) == rest,
        (seq![x] + rest).len() > 0,
{
    assert((seq![x] + rest).skip(1) =~= rest);
}

/// The events of the final (`Done`) step end a well-formed stream.
proof fn lemma_done_valid(
    s: AnthropicStreamRenderer,
    s1: AnthropicStreamRenderer,
    o: Seq<AnthropicStreamEvent>,
    done: bool,
    sr: StopReason,
    usage: Usage,
)
    requires
        anthropic_step(s, StreamEvent::Done { stop_reason: sr, usage }, s1, o, done),
    ensures
        valid_from(o, s.block_index + 1, s.open_block is Some, sr, usage),
{
    let k = s.block_index + 1;
    let n = stop_open(s).len() as int;
    let tail = seq![o[n], o[n + 1]];
    lemma_cons(o[n + 1], Seq::empty());
    lemma_cons(o[n], seq![o[n + 1]]);
    assert(tail =~= seq![o[n]] + seq![o[n + 1]]);
    assert(seq![o[n + 1]] =~= seq![o[n + 1]] + Seq::<AnthropicStreamEvent>::empty());
    assert(valid_from(tail, k, false, sr, usage));
    if s.open_block is Some {
        assert(o.take(n)[0] == o[0]);
        assert(o[0] == AnthropicStreamEvent::BlockStop { index: s.block_index });
        assert(o =~= seq![o[0]] + tail);
        lemma_cons(o[0], tail);
    } else {
        assert(o =~= tail);
    }
}

/// A step before the last one puts its events in front of a well-formed
/// rest, keeping the stream well-formed.
proof fn lemma_step_valid(
    s: AnthropicStreamRenderer,
    e: StreamEvent,
    s1: AnthropicStreamRenderer,
    o: Seq<AnthropicStreamEvent>,
    done: bool,
    rest: Seq<AnthropicStreamEvent>,
    sr: StopReason,
    usage: Usage,
)
    requires
        anthropic_step(s, e, s1, o, done),
        !(e is Done),
        e is ToolCallDelta ==> s.open_block is Some,
        valid_from(rest, s1.block_index + 1, s1.open_block is Some, sr, usage),
    ensures
        valid_from(o + rest, s.block_index + 1, s.open_block is Some, sr, usage),
{
    let k = s.block_index + 1;
    let open = s.open_block is Some;
    let b = s.block_index;
    match e {
        StreamEvent::TextDelta { text } => {
            if s.open_block == Some(OpenBlock::Text) {
                lemma_cons(o[0], rest);
                assert(o =~= seq![o[0]]);
            } else {
                assert(o[o.len() - 1] == AnthropicStreamEvent::TextDelta { index: s1.block_index, text });
                assert(o[o.len() - 2] == AnthropicStreamEvent::TextBlockStart { index: s1.block_index });
                let r2 = seq![o[o.len() - 1]] + rest;
                lemma_cons(o[o.len() - 1], rest);
                assert(valid_from(r2, s1.block_index + 1, true, sr, usage));
                let r1 = seq![o[o.len() - 2]] + r2;
                lemma_cons(o[o.len() - 2], r2);
                assert(valid_from(r1, k, false, sr, usage));
                if open {
                    assert(o[0] == AnthropicStreamEvent::BlockStop { index: b });
                    lemma_cons(o[0], r1);
                    assert(o + rest =~= seq![o[0]] + r1);
                } else {
                    assert(o + rest =~= r1);
                }
            }
        },
        StreamEvent::ToolCallStart { id, name } => {
            assert(o[o.len() - 1] == AnthropicStreamEvent::ToolUseBlockStart { index: s1.block_index, id, name });
            let r1 = seq![o[o.len() - 1]] + rest;
            lemma_cons(o[o.len() - 1], rest);
            assert(valid_from(r1, k, false, sr, usage));
            if open {
                assert(o[0] == AnthropicStreamEvent::BlockStop { index: b });
                lemma_cons(o[0], r1);
                assert(o + rest =~= seq![o[0]] + r1);
            } else {
                assert(o + rest =~= r1);
            }
        },
        StreamEvent::ToolCallDelta { .. } => {
            lemma_cons(o[0], rest);
            assert(o =~= seq![o[0]]);
        },
        StreamEvent::Done { .. } => {},
    }
}

/// The events of a run ending with `Done` make a well-formed stream, from
/// the state the run starts in.
proof fn lemma_run_valid(
    states: Seq<AnthropicStreamRenderer>,
    es: Seq<StreamEvent>,
    outs: Seq<Seq<AnthropicStreamEvent>>,
    dones: Seq<bool>,
    sr: StopReason,
    usage: Usage,
)
    requires
        anthropic_run(states, es, outs, dones),
        es.len() > 0,
        es.last() == (StreamEvent::Done { stop_reason: sr, usage }),
        forall|i: int| 0 <= i < es.len() - 1 ==> !(#[trigger] es[i] is Done),
        forall|i: int|
            0 <= i < es.len() && (#[trigger] es[i] is ToolCallDelta) ==> states[0].open_block is Some || exists|j: int|
                0 <= j < i && opens_block(#[trigger] es[j]),
    ensures
        valid_from(concat_all(outs), states[0].block_index + 1, states[0].open_block is Some, sr, usage),
    decreases es.len(),
{
    let s = states[0];
    let s1 = states[1];
    let o = outs[0];
    assert(anthropic_step(s, es[0], s1, o, dones[0]));
    let rest = concat_all(outs.skip(1));
    assert(concat_all(outs) == o + rest);
    if es.len() == 1 {
        assert(es[0] == es.last());
        assert(outs.skip(1).len() == 0);
        assert(rest =~= Seq::<AnthropicStreamEvent>::empty());
        assert(o + rest =~= o);
        lemma_done_valid(s, s1, o, dones[0], sr, usage);
    } else {
        let ts = states.skip(1);
        let tes = es.skip(1);
        let touts = outs.skip(1);
        let tdones = dones.skip(1);
        assert forall|i: int| #![trigger touts[i]] 0 <= i < tes.len() implies anthropic_step(
            ts[i],
            tes[i],
            ts[i + 1],
            touts[i],
            tdones[i],
        ) by {
            assert(touts[i] == outs[i + 1]);
        }
        assert(tes.last() == es.last());
        assert forall|i: int| 0 <= i < tes.len() - 1 implies !(#[trigger] tes[i] is Done) by {
            assert(tes[i] == es[i + 1]);
        }
        assert(!(es[0] is Done));
        assert forall|i: int|
            0 <= i < tes.len() && (#[trigger] tes[i] is ToolCallDelta) implies ts[0].open_block is Some || exists|
                j: int,
            | 0 <= j < i && opens_block(#[trigger] tes[j]) by {
            assert(tes[i] == es[i + 1]);
            if !(s.open_block is Some) {
                let j = choose|j: int| 0 <= j < i + 1 && opens_block(#[trigger] es[j]);
                if j > 0 {
                    assert(tes[j - 1] == es[j]);
                }
            }
        }
        lemma_run_valid(ts, tes, touts, tdones, sr, usage);
        assert(ts[0] == s1);
        if es[0] is ToolCallDelta {
            assert(s.open_block is Some);
        }
        lemma_step_valid(s, es[0], s1, o, dones[0], rest, sr, usage);
    }
}

/// The whole stream the renderer writes for a run from a fresh renderer
/// whose last event is `Done` (and only the last), where every tool-call
/// fragment comes after some text or tool-call start: content blocks are
/// numbered `0, 1, 2, ...` and each starts only when none is open; every
/// delta is on the open block; each block is stopped exactly once, before
/// the next starts or the message ends; `message_delta`, with the stop
/// reason and usage of `Done`, and then `message_stop` come last; and only
/// the final step reports the stream complete. (`start` writes the opening
/// `message_start` before all of this.)
pub proof fn law_anthropic_stream_shape(
    states: Seq<AnthropicStreamRenderer>,
    es: Seq<StreamEvent>,
    outs: Seq<Seq<AnthropicStreamEvent>>,
    dones: Seq<bool>,
    sr: StopReason,
    usage: Usage,
)
    requires
        anthropic_run(states, es, outs, dones),
        states[0].block_index == -1,
        states[0].open_block is None,
        es.len() > 0,
        es.last() == (StreamEvent::Done { stop_reason: sr, usage }),
        forall|i: int| 0 <= i < es.len() - 1 ==> !(#[trigger] es[i] is Done),
        forall|i: int|
            0 <= i < es.len() && (#[trigger] es[i] is ToolCallDelta) ==> exists|j: int|
                0 <= j < i && opens_block(#[trigger] es[j]),
    ensures
        valid_from(concat_all(outs), 0, false, sr, usage),
        dones.last(),
        forall|i: int| 0 <= i < es.len() - 1 ==> !(#[trigger] dones[i]),
{
    lemma_run_valid(states, es, outs, dones, sr, usage);
    assert(outs[es.len() - 1] == outs[es.len() - 1]);
    assert forall|i: int| 0 <= i < es.len() - 1 implies !(#[trigger] dones[i]) by {
        assert(outs[i] == outs[i]);
    }
}

/// Whether an event opens a content block.
pub open spec fn opens_block(e: StreamEvent) -> bool {
    e is TextDelta || e is ToolCallStart
}

impl AnthropicStreamRenderer {
    pub open spec fn wf(self) -> bool {
        &&& self.block_index >= -1
        &&& self.open_block.is_some() ==> self.block_index >= 0
    }

    /// A fresh renderer and the opening `message_start` event.
    pub fn start(msg_id: String, model: String) -> (r: (AnthropicStreamRenderer, AnthropicStreamEvent))
        ensures
            r.0.wf(),
            r.0.block_index == -1,
            r.0.open_block.is_none(),
            r.1 == (AnthropicStreamEvent::MessageStart { id: msg_id, model }),
    {
        (AnthropicStreamRenderer { block_index: -1, open_block: None }, AnthropicStreamEvent::MessageStart {
            id: msg_id,
            model,
        })
    }

    /// Renders one canonical event. The flag is set once the stream is
    /// complete (after the final event).
    ///
    /// - Text: opens a text block first unless one is open (closing any
    ///   other block), then a text delta.
    /// - Tool-call start: closes any open block and opens a tool-use block.
    /// - Tool-call fragment: an input-JSON delta on the current block.
    /// - Done: closes any open block, then `message_delta`, `message_stop`.
    pub fn render(&mut self, event: StreamEvent) -> (r: (Vec<AnthropicStreamEvent>, bool))
        requires
            old(self).wf(),
            old(self).block_index < i64::MAX,
        ensures
            final(self).wf(),
            anthropic_step(*old(self), event, *final(self), r.0@, r.1),
    {
        let ghost s0 = *self;
        let mut out: Vec<AnthropicStreamEvent> = Vec::new();
        let closes = match &event {
            StreamEvent::ToolCallDelta { .. } => false,
            StreamEvent::TextDelta { .. } => self.open_block != Some(OpenBlock::Text),
            _ => true,
        };
        if closes && self.open_block.is_some() {
            out.push(AnthropicStreamEvent::BlockStop { index: self.block_index });
        }
        proof {
            if !(event is ToolCallDelta) && !(event is TextDelta && s0.open_block == Some(OpenBlock::Text)) {
                assert(out@ =~= stop_open(s0));
            }
        }
        match event {
            StreamEvent::TextDelta { text } => {
                if self.open_block != Some(OpenBlock::Text) {
                    self.block_index = self.block_index + 1;
                    self.open_block = Some(OpenBlock::Text);
                    out.push(AnthropicStreamEvent::TextBlockStart { index: self.block_index });
                }
                let ghost before = out@;
                out.push(AnthropicStreamEvent::TextDelta { index: self.block_index, text });
                proof {
                    if s0.open_block != Some(OpenBlock::Text) {
                        assert(out@ =~= stop_open(s0) + seq![
                            AnthropicStreamEvent::TextBlockStart { index: self.block_index },
                            AnthropicStreamEvent::TextDelta { index: self.block_index, text },
                        ]);
                    } else {
                        assert(out@ =~= seq![AnthropicStreamEvent::TextDelta { index: s0.block_index, text }]);
                    }
                }
                (out, false)
            },
            StreamEvent::ToolCallStart { id, name } => {
                self.block_index = self.block_index + 1;
                self.open_block = Some(OpenBlock::ToolUse);
                out.push(AnthropicStreamEvent::ToolUseBlockStart { index: self.block_index, id, name });
                proof {
                    assert(out@ =~= stop_open(s0) + seq![
                        AnthropicStreamEvent::ToolUseBlockStart { index: self.block_index, id, name },
                    ]);
                }
                (out, false)
            },
            StreamEvent::ToolCallDelta { partial_input, .. } => {
                out.push(AnthropicStreamEvent::InputJsonDelta { index: self.block_index, partial_json: partial_input });
                proof {
                    assert(out@ =~= seq![
                        AnthropicStreamEvent::InputJsonDelta { index: s0.block_index, partial_json: partial_input },
                    ]);
                }
                (out, false)
            },
            StreamEvent::Done { stop_reason, usage } => {
                out.push(AnthropicStreamEvent::MessageDelta {
                    stop_reason: String::from_str(stop_reason_to_anthropic(stop_reason)),
                    usage,
                });
                out.push(AnthropicStreamEvent::MessageStop);
                proof {
                    assert(out@.take(stop_open(s0).len() as int) =~= stop_open(s0));
                }
                (out, true)
            },
        }
    }
}

} // verus!
