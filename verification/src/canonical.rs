//! The internal representation that every wire format is translated to and
//! from. Inbound requests (OpenAI, Anthropic or Responses shaped) become a
//! [`ChatRequest`]; a provider's reply becomes a [`ChatResponse`], which is
//! then rendered in whichever format the caller used.

use vstd::prelude::*;

use crate::json::JsonValue;

verus! {

#[derive(Debug, Clone, Copy, PartialEq, Eq, Structural)]
pub enum Role {
    User,
    Assistant,
}

/// One piece of a [`Message`]'s content.
#[derive(Debug, Clone, PartialEq)]
pub enum ContentPart {
    Text { text: String },
    /// `data` is base64, with no `data:` URL prefix.
    Image { media_type: String, data: String },
    /// An assistant requesting a tool call.
    ToolUse { id: String, name: String, input: serde_json::Value },
    /// The result of a tool call, supplied back in a user turn.
    ToolResult { tool_use_id: String, content: String },
}

#[derive(Debug, Clone, PartialEq)]
pub struct Message {
    pub role: Role,
    pub content: Vec<ContentPart>,
}

/// A tool the model may call: a name and a JSON Schema for its parameters.
#[derive(Debug, Clone, PartialEq)]
pub struct Tool {
    pub name: String,
    pub description: Option<String>,
    pub input_schema: serde_json::Value,
}

/// A tool invocation requested by the model.
#[derive(Debug, Clone, PartialEq)]
pub struct ToolCall {
    pub id: String,
    pub name: String,
    pub input: serde_json::Value,
}

/// One entry of a request's `plugins` array: `{"id": "<plugin-id>", ...settings}`.
#[derive(Debug, PartialEq)]
pub struct PluginRequest {
    pub id: String,
    pub settings: Vec<(String, JsonValue)>,
}

#[derive(Debug)]
pub struct ChatRequest {
    pub model: String,
    /// System prompt, kept apart from `messages`.
    pub system: Option<String>,
    pub messages: Vec<Message>,
    pub max_tokens: Option<u32>,
    /// The sampling temperature as the bit pattern of the client's `f32`
    /// (`f32::to_bits`); the router only carries it through.
    pub temperature: Option<u32>,
    /// Anthropic-only extended-thinking config, passed through opaquely.
    pub thinking: Option<serde_json::Value>,
    /// Anthropic-only `output_config.effort`.
    pub effort: Option<String>,
    /// Anthropic-only `output_config.task_budget`, passed through opaquely.
    pub task_budget: Option<serde_json::Value>,
    /// JSON Schema the response must conform to.
    pub output_schema: Option<serde_json::Value>,
    pub tools: Vec<Tool>,
    pub stream: bool,
    /// Plugins requested for this call; never forwarded to providers.
    pub plugins: Vec<PluginRequest>,
    /// Set by a plugin to force routing to a named provider.
    pub forced_provider: Option<String>,
    /// Tags assigned by the classifiers before routing.
    pub tags: Vec<String>,
}

#[derive(Debug, Clone, Copy, PartialEq, Eq, Structural)]
pub enum StopReason {
    EndTurn,
    MaxTokens,
    ToolUse,
    Other,
}

#[derive(Debug, Clone, Copy, PartialEq, Eq, Structural)]
pub struct Usage {
    pub input_tokens: u32,
    pub output_tokens: u32,
}

impl Default for Usage {
    fn default() -> (r: Usage)
        ensures
            r.input_tokens == 0,
            r.output_tokens == 0,
    {
        Usage { input_tokens: 0, output_tokens: 0 }
    }
}

#[derive(Debug, Clone, PartialEq)]
pub struct ChatResponse {
    pub id: String,
    pub model: String,
    pub content: String,
    pub stop_reason: StopReason,
    pub tool_calls: Vec<ToolCall>,
    pub usage: Usage,
    /// Tags assigned by the response classifiers; never part of a wire body.
    pub tags: Vec<String>,
}

/// One incremental update from a streaming provider call.
#[derive(Debug, Clone, PartialEq)]
pub enum StreamEvent {
    TextDelta { text: String },
    /// Opens a new tool call.
    ToolCallStart { id: String, name: String },
    /// A raw fragment of the tool call's JSON-arguments text.
    ToolCallDelta { id: String, partial_input: String },
    Done { stop_reason: StopReason, usage: Usage },
}

/// A content part as the contracts see it.
pub ghost enum PartModel {
    Text(Seq<char>),
    Image(Seq<char>, Seq<char>),
    ToolUse(Seq<char>, Seq<char>, serde_json::Value),
    ToolResult(Seq<char>, Seq<char>),
}

impl View for ContentPart {
    type V = PartModel;

    open spec fn view(&self) -> PartModel {
        match self {
            ContentPart::Text { text } => PartModel::Text(text@),
            ContentPart::Image { media_type, data } => PartModel::Image(media_type@, data@),
            ContentPart::ToolUse { id, name, input } => PartModel::ToolUse(id@, name@, *input),
            ContentPart::ToolResult { tool_use_id, content } => PartModel::ToolResult(tool_use_id@, content@),
        }
    }
}

/// A message as the contracts see it.
pub ghost struct MessageModel {
    pub role: Role,
    pub content: Seq<PartModel>,
}

impl View for Message {
    type V = MessageModel;

    open spec fn view(&self) -> MessageModel {
        MessageModel { role: self.role, content: part_models(self.content@) }
    }
}

/// A tool as the contracts see it.
pub ghost struct ToolModel {
    pub name: Seq<char>,
    pub description: Option<Seq<char>>,
    pub input_schema: serde_json::Value,
}

impl View for Tool {
    type V = ToolModel;

    open spec fn view(&self) -> ToolModel {
        ToolModel { name: self.name@, description: opt_view(self.description), input_schema: self.input_schema }
    }
}

/// A tool call as the contracts see it.
pub ghost struct ToolCallModel {
    pub id: Seq<char>,
    pub name: Seq<char>,
    pub input: serde_json::Value,
}

impl View for ToolCall {
    type V = ToolCallModel;

    open spec fn view(&self) -> ToolCallModel {
        ToolCallModel { id: self.id@, name: self.name@, input: self.input }
    }
}

/// A stream event as the contracts see it.
pub ghost enum EventModel {
    TextDelta(Seq<char>),
    ToolCallStart(Seq<char>, Seq<char>),
    ToolCallDelta(Seq<char>, Seq<char>),
    Done(StopReason, Usage),
}

impl View for StreamEvent {
    type V = EventModel;

    open spec fn view(&self) -> EventModel {
        match self {
            StreamEvent::TextDelta { text } => EventModel::TextDelta(text@),
            StreamEvent::ToolCallStart { id, name } => EventModel::ToolCallStart(id@, name@),
            StreamEvent::ToolCallDelta { id, partial_input } => EventModel::ToolCallDelta(id@, partial_input@),
            StreamEvent::Done { stop_reason, usage } => EventModel::Done(*stop_reason, *usage),
        }
    }
}

/// The models of a sequence of stream events.
pub open spec fn event_models(s: Seq<StreamEvent>) -> Seq<EventModel> {
    s.map_values(|e: StreamEvent| e@)
}

/// The models of a sequence of content parts.
pub open spec fn part_models(s: Seq<ContentPart>) -> Seq<PartModel> {
    s.map_values(|p: ContentPart| p@)
}

/// The models of a sequence of messages.
pub open spec fn message_models(s: Seq<Message>) -> Seq<MessageModel> {
    s.map_values(|m: Message| m@)
}

/// The models of a sequence of tools.
pub open spec fn tool_models(s: Seq<Tool>) -> Seq<ToolModel> {
    s.map_values(|t: Tool| t@)
}

/// The models of a sequence of tool calls.
pub open spec fn tool_call_models(s: Seq<ToolCall>) -> Seq<ToolCallModel> {
    s.map_values(|t: ToolCall| t@)
}

/// The view of an optional string.
pub open spec fn opt_view(o: Option<String>) -> Option<Seq<char>> {
    match o {
        Some(s) => Some(s@),
        None => None,
    }
}

/// The text of every `Text` part of `parts`, joined in order.
pub open spec fn text_of_parts(parts: Seq<PartModel>) -> Seq<char>
    decreases parts.len(),
{
    if parts.len() == 0 {
        Seq::empty()
    } else {
        text_of_parts(parts.drop_last()) + match parts.last() {
            PartModel::Text(text) => text,
            _ => Seq::empty(),
        }
    }
}

/// Some message of `msgs` holds an image part.
pub open spec fn has_image(msgs: Seq<MessageModel>) -> bool {
    exists|i: int, j: int|
        0 <= i < msgs.len() && 0 <= j < msgs[i].content.len() && (#[trigger] msgs[i].content[j] is Image)
}

/// The capabilities a request needs: `"vision"` when a message holds an
/// image, then `"tools"` when tools are offered.
pub open spec fn needed_caps(msgs: Seq<MessageModel>, n_tools: nat) -> Seq<Seq<char>> {
    (if has_image(msgs) { seq!["vision"@] } else { Seq::empty() }) + (if n_tools > 0 {
        seq!["tools"@]
    } else {
        Seq::empty()
    })
}

/// The views of a sequence of strings.
pub open spec fn views(s: Seq<String>) -> Seq<Seq<char>> {
    s.map_values(|x: String| x@)
}

/// A copy of a content part.
pub fn copy_part(p: &ContentPart) -> (r: ContentPart)
    ensures
        r == *p,
{
    match p {
        ContentPart::Text { text } => ContentPart::Text { text: text.clone() },
        ContentPart::Image { media_type, data } => ContentPart::Image {
            media_type: media_type.clone(),
            data: data.clone(),
        },
        ContentPart::ToolUse { id, name, input } => ContentPart::ToolUse {
            id: id.clone(),
            name: name.clone(),
            input: crate::json::copy_value(input),
        },
        ContentPart::ToolResult { tool_use_id, content } => ContentPart::ToolResult {
            tool_use_id: tool_use_id.clone(),
            content: content.clone(),
        },
    }
}

/// A copy of a list of strings.
pub fn copy_strings(v: &Vec<String>) -> (r: Vec<String>)
    ensures
        r@ == v@,
{
    let mut out: Vec<String> = Vec::new();
    let mut i: usize = 0;
    while i < v.len()
        invariant
            i <= v.len(),
            out@ == v@.take(i as int),
        decreases v.len() - i,
    {
        out.push(v[i].clone());
        i = i + 1;
        proof {
            assert(out@ =~= v@.take(i as int));
        }
    }
    proof {
        assert(v@.take(i as int) =~= v@);
    }
    out
}

/// A copy of an optional string.
pub fn copy_opt_string(v: &Option<String>) -> (r: Option<String>)
    ensures
        r == *v,
{
    match v {
        Some(s) => Some(s.clone()),
        None => None,
    }
}

impl Message {
    /// A message holding a single text part.
    pub fn text(role: Role, text: &str) -> (r: Message)
        ensures
            r.role == role,
            r.content@.len() == 1,
            part_models(r.content@) == seq![PartModel::Text(text@)],
    {
        let mut content: Vec<ContentPart> = Vec::new();
        content.push(ContentPart::Text { text: String::from_str(text) });
        proof {
            assert(part_models(content@) =~= seq![PartModel::Text(text@)]);
        }
        Message { role, content }
    }

    /// The text of every `Text` part joined in order; images and tool parts
    /// are skipped.
    pub fn text_content(&self) -> (r: String)
        ensures
            r@ == text_of_parts(part_models(self.content@)),
    {
        let mut out = String::new();
        let mut i: usize = 0;
        while i < self.content.len()
            invariant
                i <= self.content.len(),
                out@ == text_of_parts(part_models(self.content@.take(i as int))),
            decreases self.content.len() - i,
        {
            proof {
                assert(part_models(self.content@.take(i + 1)).drop_last() =~= part_models(self.content@.take(i as int)));
            }
            match &self.content[i] {
                ContentPart::Text { text } => out.append(text.as_str()),
                _ => {},
            }
            i = i + 1;
        }
        proof {
            assert(self.content@.take(i as int) =~= self.content@);
        }
        out
    }

    /// A copy of this message.
    pub fn copy(&self) -> (r: Message)
        ensures
            r.role == self.role,
            r.content@ == self.content@,
    {
        let mut content: Vec<ContentPart> = Vec::new();
        let mut i: usize = 0;
        while i < self.content.len()
            invariant
                i <= self.content.len(),
                content@ == self.content@.take(i as int),
            decreases self.content.len() - i,
        {
            content.push(copy_part(&self.content[i]));
            i = i + 1;
            proof {
                assert(content@ =~= self.content@.take(i as int));
            }
        }
        proof {
            assert(self.content@.take(i as int) =~= self.content@);
        }
        Message { role: self.role, content }
    }
}

impl ChatRequest {
    /// Capabilities this request structurally needs from whichever model
    /// handles it: `"vision"` if any message holds an image, then `"tools"`
    /// if any tools are offered.
    pub fn needed_capabilities(&self) -> (r: Vec<String>)
        ensures
            views(r@) == needed_caps(message_models(self.messages@), self.tools@.len()),
    {
        let mut found = false;
        let mut i: usize = 0;
        while i < self.messages.len()
            invariant
                i <= self.messages.len(),
                found <==> exists|a: int, b: int|
                    0 <= a < i && 0 <= b < self.messages@[a].content@.len()
                        && (#[trigger] self.messages@[a].content@[b] is Image),
            decreases self.messages.len() - i,
        {
            let m = &self.messages[i];
            let mut j: usize = 0;
            while j < m.content.len()
                invariant
                    i < self.messages.len(),
                    *m == self.messages@[i as int],
                    j <= m.content.len(),
                    found <==> (exists|a: int, b: int|
                        0 <= a < i && 0 <= b < self.messages@[a].content@.len()
                            && (#[trigger] self.messages@[a].content@[b] is Image))
                        || exists|b: int| 0 <= b < j && (#[trigger] m.content@[b] is Image),
                decreases m.content.len() - j,
            {
                if let ContentPart::Image { .. } = &m.content[j] {
                    found = true;
                }
                j = j + 1;
            }
            i = i + 1;
            proof {
                if found {
                    if !(exists|a: int, b: int|
                        0 <= a < i - 1 && 0 <= b < self.messages@[a].content@.len()
                            && (#[trigger] self.messages@[a].content@[b] is Image)) {
                        let b = choose|b: int| 0 <= b < j && (#[trigger] m.content@[b] is Image);
                        assert(self.messages@[i - 1].content@[b] is Image);
                    }
                }
            }
        }
        let mut needed: Vec<String> = Vec::new();
        if found {
            needed.push(String::from_str("vision"));
        }
        if self.tools.len() > 0 {
            needed.push(String::from_str("tools"));
        }
        proof {
            let mm = message_models(self.messages@);
            if found {
                let (a, b) = choose|a: int, b: int|
                    0 <= a < self.messages@.len() && 0 <= b < self.messages@[a].content@.len()
                        && (#[trigger] self.messages@[a].content@[b] is Image);
                assert(mm[a].content[b] is Image);
            } else {
                assert forall|a: int, b: int|
                    0 <= a < mm.len() && 0 <= b < mm[a].content.len() implies !(#[trigger] mm[a].content[b] is Image) by {
                    assert(!(self.messages@[a].content@[b] is Image));
                }
            }
            assert(views(needed@) =~= needed_caps(mm, self.tools@.len()));
        }
        needed
    }
}

} // verus!
