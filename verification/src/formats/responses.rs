//! OpenAI's Responses API (`POST /v1/responses`), the format Codex CLI and
//! App speak. The router never calls a Responses-speaking upstream, so only
//! the inbound request and the outbound reply (whole or streamed) exist.
//! Supported: message items, function calls and their outputs,
//! `instructions`, `tools`, `stream` and `max_output_tokens`.

use vstd::prelude::*;

use crate::canonical::{
    message_models, tool_call_models, tool_models, ChatRequest, ChatResponse, ContentPart, Message, MessageModel,
    PartModel, PluginRequest, Role, StreamEvent, Tool, ToolCallModel, ToolModel, opt_view,
};
use crate::json::{json_text, parse_json_or_null, parsed_or_null, value_to_text};
use crate::text::{concat, i64_text, signed_decimal, str_eq};

verus! {

#[derive(Debug, Clone, PartialEq)]
pub enum InputContentPart {
    InputText { text: String },
    OutputText { text: String },
}

/// One entry of the request's `input` array. A tool call and its result are
/// siblings of message items here, not blocks inside a message.
#[derive(Debug, Clone, PartialEq)]
pub enum InputItem {
    Message { role: String, content: Vec<InputContentPart> },
    FunctionCall { call_id: String, name: String, arguments: String },
    FunctionCallOutput { call_id: String, output: String },
}

#[derive(Debug, Clone, PartialEq)]
pub struct ResponsesTool {
    pub tool_type: String,
    pub name: String,
    pub description: Option<String>,
    pub parameters: serde_json::Value,
}

#[derive(Debug)]
pub struct ResponsesRequest {
    pub model: String,
    pub input: Vec<InputItem>,
    pub instructions: Option<String>,
    pub tools: Vec<ResponsesTool>,
    pub stream: bool,
    pub max_output_tokens: Option<u32>,
    /// Plugins to run for this request; not part of the standard API and
    /// never forwarded.
    pub plugins: Vec<PluginRequest>,
}

#[derive(Debug, Clone, PartialEq)]
pub enum OutputContentPart {
    OutputText { text: String },
}

#[derive(Debug, Clone, PartialEq)]
pub enum OutputItem {
    Message { id: String, role: String, status: String, content: Vec<OutputContentPart> },
    FunctionCall { id: String, call_id: String, name: String, arguments: String },
}

#[derive(Debug, Clone, Copy, PartialEq, Eq, Structural)]
pub struct ResponsesUsage {
    pub input_tokens: u32,
    pub output_tokens: u32,
    pub total_tokens: u32,
}

#[derive(Debug, Clone, PartialEq)]
pub struct ResponsesResponse {
    pub id: String,
    pub object: String,
    pub model: String,
    pub status: String,
    pub output: Vec<OutputItem>,
    pub usage: ResponsesUsage,
}

/// The text of an input content part, whichever its kind.
pub open spec fn input_text(c: InputContentPart) -> Seq<char> {
    match c {
        InputContentPart::InputText { text } => text@,
        InputContentPart::OutputText { text } => text@,
    }
}

/// The role a message item's `role` names: `assistant`, else user.
pub open spec fn role_of(role: Seq<char>) -> Role {
    if role == "assistant"@ {
        Role::Assistant
    } else {
        Role::User
    }
}

/// The canonical message an input item becomes: a message item keeps its
/// texts; a function call becomes an assistant tool use whose input is its
/// `arguments` parsed as JSON (`null` when malformed); a function-call
/// output becomes a user tool result.
pub open spec fn turn_of_item(item: InputItem) -> MessageModel {
    match item {
        InputItem::Message { role, content } => MessageModel {
            role: role_of(role@),
            content: content@.map_values(|c: InputContentPart| PartModel::Text(input_text(c))),
        },
        InputItem::FunctionCall { call_id, name, arguments } => MessageModel {
            role: Role::Assistant,
            content: seq![PartModel::ToolUse(call_id@, name@, parsed_or_null(arguments@))],
        },
        InputItem::FunctionCallOutput { call_id, output } => MessageModel {
            role: Role::User,
            content: seq![PartModel::ToolResult(call_id@, output@)],
        },
    }
}

/// A message item becomes a message with one text part per content part of
/// the item, in order, each holding that part's text; its role is
/// assistant exactly when the item's role is `assistant`.
pub proof fn law_message_item_keeps_every_part(role: String, content: Vec<InputContentPart>)
    ensures
        ({
            let m = turn_of_item(InputItem::Message { role, content });
            &&& m.content.len() == content@.len()
            &&& forall|k: int|
                0 <= k < content@.len() ==> m.content[k] == PartModel::Text(
                    match #[trigger] content@[k] {
                        InputContentPart::InputText { text } => text@,
                        InputContentPart::OutputText { text } => text@,
                    },
                )
            &&& (m.role == Role::Assistant <==> role@ == "assistant"@)
        }),
{
}

/// The canonical tool a Responses tool declares.
pub open spec fn tool_of(t: ResponsesTool) -> ToolModel {
    ToolModel { name: t.name@, description: opt_view(t.description), input_schema: t.parameters }
}

fn message_of_item(item: InputItem) -> (r: Message)
    ensures
        r@ == turn_of_item(item),
{
    proof {
        reveal_strlit("assistant");
    }
    match item {
        InputItem::Message { role, content } => {
            let ghost cs = content@;
            let mut parts: Vec<ContentPart> = Vec::new();
            for c in it: content
                invariant
                    it.seq() == cs,
                    parts@.len() == it.index(),
                    forall|j: int| 0 <= j < parts@.len() ==> (#[trigger] parts@[j])@ == PartModel::Text(input_text(cs[j])),
            {
                let ghost k = it.index() as int;
                proof {
                    assert(cs[k] == c);
                }
                let text = match c {
                    InputContentPart::InputText { text } => text,
                    InputContentPart::OutputText { text } => text,
                };
                parts.push(ContentPart::Text { text });
            }
            let r = if str_eq(role.as_str(), "assistant") {
                Role::Assistant
            } else {
                Role::User
            };
            let m = Message { role: r, content: parts };
            proof {
                assert(m@.content =~= cs.map_values(|c: InputContentPart| PartModel::Text(input_text(c))));
            }
            m
        },
        InputItem::FunctionCall { call_id, name, arguments } => {
            let input = parse_json_or_null(arguments.as_str());
            let mut content: Vec<ContentPart> = Vec::new();
            content.push(ContentPart::ToolUse { id: call_id, name, input });
            let m = Message { role: Role::Assistant, content };
            proof {
                assert(m@.content =~= turn_of_item(item).content);
            }
            m
        },
        InputItem::FunctionCallOutput { call_id, output } => {
            let mut content: Vec<ContentPart> = Vec::new();
            content.push(ContentPart::ToolResult { tool_use_id: call_id, content: output });
            let m = Message { role: Role::User, content };
            proof {
                assert(m@.content =~= turn_of_item(item).content);
            }
            m
        },
    }
}

impl ChatRequest {
    /// An inbound request from a client speaking the Responses format: one
    /// canonical message per input item, `instructions` as the system
    /// prompt, `max_output_tokens` as the token limit.
    pub fn from_responses(req: ResponsesRequest) -> (r: ChatRequest)
        ensures
            r.model == req.model,
            r.system == req.instructions,
            message_models(r.messages@) == req.input@.map_values(|i: InputItem| turn_of_item(i)),
            r.max_tokens == req.max_output_tokens,
            r.temperature.is_none(),
            r.thinking.is_none(),
            r.effort.is_none(),
            r.task_budget.is_none(),
            r.output_schema.is_none(),
            tool_models(r.tools@) == req.tools@.map_values(|t: ResponsesTool| tool_of(t)),
            r.stream == req.stream,
            r.plugins == req.plugins,
            r.forced_provider.is_none(),
            r.tags@.len() == 0,
    {
        let ghost items = req.input@;
        let mut messages: Vec<Message> = Vec::new();
        for item in it: req.input
            invariant
                it.seq() == items,
                messages@.len() == it.index(),
                forall|j: int| 0 <= j < messages@.len() ==> (#[trigger] messages@[j])@ == turn_of_item(items[j]),
        {
            let ghost k = it.index() as int;
            proof {
                assert(items[k] == item);
            }
            messages.push(message_of_item(item));
        }
        proof {
            assert(message_models(messages@) =~= items.map_values(|i: InputItem| turn_of_item(i)));
        }
        let ghost ts = req.tools@;
        let mut tools: Vec<Tool> = Vec::new();
        for t in it: req.tools
            invariant
                it.seq() == ts,
                tools@.len() == it.index(),
                forall|j: int| 0 <= j < tools@.len() ==> (#[trigger] tools@[j])@ == tool_of(ts[j]),
        {
            let ghost k = it.index() as int;
            proof {
                assert(ts[k] == t);
            }
            tools.push(Tool { name: t.name, description: t.description, input_schema: t.parameters });
        }
        proof {
            assert(tool_models(tools@) =~= ts.map_values(|t: ResponsesTool| tool_of(t)));
        }
        ChatRequest {
            model: req.model,
            system: req.instructions,
            messages,
            max_tokens: req.max_output_tokens,
            temperature: None,
            thinking: None,
            effort: None,
            task_budget: None,
            output_schema: None,
            tools,
            stream: req.stream,
            plugins: req.plugins,
            forced_provider: None,
            tags: Vec::new(),
        }
    }
}

/// An output item as the contracts see it.
pub ghost enum OutputModel {
    Message { id: Seq<char>, role: Seq<char>, status: Seq<char>, texts: Seq<Seq<char>> },
    FunctionCall { id: Seq<char>, call_id: Seq<char>, name: Seq<char>, arguments: Seq<char> },
}

impl View for OutputItem {
    type V = OutputModel;

    open spec fn view(&self) -> OutputModel {
        match self {
            OutputItem::Message { id, role, status, content } => OutputModel::Message {
                id: id@,
                role: role@,
                status: status@,
                texts: content@.map_values(
                    |c: OutputContentPart|
                        match c {
                            OutputContentPart::OutputText { text } => text@,
                        },
                ),
            },
            OutputItem::FunctionCall { id, call_id, name, arguments } => OutputModel::FunctionCall {
                id: id@,
                call_id: call_id@,
                name: name@,
                arguments: arguments@,
            },
        }
    }
}

/// The output items of a reply: a completed assistant message `msg_<id>`
/// holding the text (when there is text), then one function call
/// `fc_<call id>` per tool call, its arguments the input as JSON text.
pub open spec fn output_of(id: Seq<char>, content: Seq<char>, calls: Seq<ToolCallModel>) -> Seq<OutputModel> {
    (if content.len() > 0 {
        seq![
            OutputModel::Message {
                id: "msg_"@ + id,
                role: "assistant"@,
                status: "completed"@,
                texts: seq![content],
            },
        ]
    } else {
        Seq::empty()
    }) + calls.map_values(
        |c: ToolCallModel|
            OutputModel::FunctionCall {
                id: "fc_"@ + c.id,
                call_id: c.id,
                name: c.name,
                arguments: json_text(c.input),
            },
    )
}

impl ResponsesResponse {
    /// A reply rendered for a client that speaks the Responses format. The
    /// status is always `completed`.
    pub fn from_chat(resp: ChatResponse) -> (r: ResponsesResponse)
        requires
            resp.usage.input_tokens + resp.usage.output_tokens <= u32::MAX,
        ensures
            r.id == resp.id,
            r.object@ == "response"@,
            r.model == resp.model,
            r.status@ == "completed"@,
            r.output@.map_values(|o: OutputItem| o@) == output_of(
                resp.id@,
                resp.content@,
                tool_call_models(resp.tool_calls@),
            ),
            r.usage.input_tokens == resp.usage.input_tokens,
            r.usage.output_tokens == resp.usage.output_tokens,
            r.usage.total_tokens == resp.usage.input_tokens + resp.usage.output_tokens,
    {
        let ghost text = resp.content@;
        let ghost tm = tool_call_models(resp.tool_calls@);
        let mut output: Vec<OutputItem> = Vec::new();
        if !resp.content.as_str().is_empty() {
            let mut content: Vec<OutputContentPart> = Vec::new();
            content.push(OutputContentPart::OutputText { text: resp.content });
            output.push(OutputItem::Message {
                id: concat("msg_", resp.id.as_str()),
                role: String::from_str("assistant"),
                status: String::from_str("completed"),
                content,
            });
        }
        let ghost head = output@.map_values(|o: OutputItem| o@);
        proof {
            reveal_strlit("assistant");
            reveal_strlit("completed");
            if text.len() > 0 {
                assert(output@[0]@ == (OutputModel::Message {
                    id: "msg_"@ + resp.id@,
                    role: "assistant"@,
                    status: "completed"@,
                    texts: seq![text],
                })) by {
                    let c = output@[0];
                    if let OutputItem::Message { content, .. } = c {
                        assert(content@.map_values(
                            |c: OutputContentPart|
                                match c {
                                    OutputContentPart::OutputText { text } => text@,
                                },
                        ) =~= seq![text]);
                    }
                }
            }
            assert(head =~= if text.len() > 0 {
                seq![
                    OutputModel::Message {
                        id: "msg_"@ + resp.id@,
                        role: "assistant"@,
                        status: "completed"@,
                        texts: seq![text],
                    },
                ]
            } else {
                Seq::empty()
            });
        }
        for tc in it: resp.tool_calls
            invariant
                tool_call_models(it.seq()) == tm,
                head.len() <= 1,
                output@.len() == head.len() + it.index(),
                forall|j: int| 0 <= j < head.len() ==> (#[trigger] output@[j])@ == head[j],
                forall|j: int|
                    0 <= j < it.index() ==> (#[trigger] output@[head.len() + j])@ == (OutputModel::FunctionCall {
                        id: "fc_"@ + tm[j].id,
                        call_id: tm[j].id,
                        name: tm[j].name,
                        arguments: json_text(tm[j].input),
                    }),
        {
            let ghost k = it.index() as int;
            proof {
                assert(tm[k] == tc@);
            }
            let arguments = value_to_text(&tc.input);
            output.push(OutputItem::FunctionCall {
                id: concat("fc_", tc.id.as_str()),
                call_id: tc.id,
                name: tc.name,
                arguments,
            });
        }
        proof {
            let target = output_of(resp.id@, text, tm);
            assert(target.len() == output@.len());
            assert forall|j: int| 0 <= j < target.len() implies output@.map_values(|o: OutputItem| o@)[j]
                == target[j] by {
                if j >= head.len() {
                    assert(output@[head.len() + (j - head.len())]@ == target[j]);
                }
            }
            assert(output@.map_values(|o: OutputItem| o@) =~= target);
        }
        ResponsesResponse {
            id: resp.id,
            object: String::from_str("response"),
            model: resp.model,
            status: String::from_str("completed"),
            output,
            usage: ResponsesUsage {
                input_tokens: resp.usage.input_tokens,
                output_tokens: resp.usage.output_tokens,
                total_tokens: resp.usage.input_tokens + resp.usage.output_tokens,
            },
        }
    }
}

} // verus!

verus! {

/// One event of the Responses SSE stream, as the renderer decides it; the
/// program around the library writes it as `event: <name>\ndata: <json>\n\n`.
#[derive(Debug, Clone, PartialEq)]
pub enum ResponsesStreamEvent {
    /// `response.created`, status `in_progress`.
    Created { response_id: String, model: String },
    /// `response.output_item.added` of an empty, in-progress assistant message.
    MessageAdded { output_index: i64, item_id: String },
    /// `response.output_item.added` of a function call with empty arguments.
    FunctionCallAdded { output_index: i64, item_id: String, call_id: String, name: String },
    /// `response.output_text.delta`.
    TextDelta { item_id: String, output_index: i64, delta: String },
    /// `response.function_call_arguments.delta`.
    ArgumentsDelta { item_id: String, output_index: i64, call_id: String, delta: String },
    /// `response.output_item.done`.
    ItemDone { output_index: i64 },
    /// `response.completed`, status `completed`, with the usage.
    Completed { response_id: String, model: String, input_tokens: u32, output_tokens: u32, total_tokens: u32 },
}

/// The output item currently open, with its id.
#[derive(Debug, Clone, PartialEq)]
pub enum OpenItem {
    Message { item_id: String },
    FunctionCall { item_id: String },
}

/// The id of the output item at `index`, with the item kind's prefix.
pub open spec fn item_id(prefix: Seq<char>, index: int) -> Seq<char> {
    prefix + signed_decimal(index)
}

fn make_item_id(prefix: &str, index: i64) -> (r: String)
    ensures
        r@ == item_id(prefix@, index as int),
{
    let digits = i64_text(index);
    concat(prefix, digits.as_str())
}

/// Renders canonical events as the Responses SSE sequence: each output item
/// is explicitly added and marked done, at most one is open at a time, and
/// items are numbered from 0.
#[derive(Debug, Clone, PartialEq)]
pub struct ResponsesStreamRenderer {
    pub response_id: String,
    pub model: String,
    /// Index of the most recently opened item (-1 before any).
    pub item_index: i64,
    pub open_item: Option<OpenItem>,
}

impl ResponsesStreamRenderer {
    pub open spec fn wf(self) -> bool {
        &&& self.item_index >= -1
        &&& match self.open_item {
            Some(OpenItem::Message { item_id: id }) => self.item_index >= 0 && id@ == item_id(
                "msg_"@,
                self.item_index as int,
            ),
            Some(OpenItem::FunctionCall { item_id: id }) => self.item_index >= 0 && id@ == item_id(
                "fc_"@,
                self.item_index as int,
            ),
            None => true,
        }
    }

    /// A fresh renderer and the opening `response.created` event.
    pub fn start(response_id: String, model: String) -> (r: (ResponsesStreamRenderer, ResponsesStreamEvent))
        ensures
            r.0.wf(),
            r.0.response_id == response_id,
            r.0.model == model,
            r.0.item_index == -1,
            r.0.open_item.is_none(),
            r.1 == (ResponsesStreamEvent::Created { response_id, model }),
    {
        let ev = ResponsesStreamEvent::Created { response_id: response_id.clone(), model: model.clone() };
        (ResponsesStreamRenderer { response_id, model, item_index: -1, open_item: None }, ev)
    }

    /// Renders one canonical event. The flag is set once the stream is
    /// complete (after the final event).
    ///
    /// - Text: opens a message item first unless one is open (marking any
    ///   other item done), then a text delta on it.
    /// - Tool-call start: marks any open item done and adds a function-call
    ///   item.
    /// - Tool-call fragment: an arguments delta on the open function call
    ///   (or on `fc_<index>` when none is open).
    /// - Done: marks any open item done, then `response.completed`.
    pub fn render(&mut self, event: StreamEvent) -> (r: (Vec<ResponsesStreamEvent>, bool))
        requires
            old(self).wf(),
            old(self).item_index < i64::MAX,
            event matches StreamEvent::Done { usage, .. } ==> usage.input_tokens + usage.output_tokens <= u32::MAX,
        ensures
            final(self).wf(),
            final(self).response_id == old(self).response_id,
            final(self).model == old(self).model,
            ({
                let old_i = old(self).item_index;
                let new_i = (old_i + 1) as i64;
                let done_first: Seq<ResponsesStreamEvent> = if old(self).open_item.is_some() {
                    seq![ResponsesStreamEvent::ItemDone { output_index: old_i }]
                } else {
                    Seq::empty()
                };
                match event {
                    StreamEvent::TextDelta { text } => {
                        &&& !r.1
                        &&& final(self).open_item matches Some(OpenItem::Message { .. })
                        &&& match old(self).open_item {
                            Some(OpenItem::Message { item_id: id }) => {
                            &&& final(self).item_index == old_i
                            &&& r.0@.len() == 1
                            &&& r.0@[0] matches ResponsesStreamEvent::TextDelta { item_id: d_id, output_index, delta }
                            &&& d_id@ == id@ && output_index == old_i && delta == text
                            },
                            _ => {
                            &&& final(self).item_index == new_i
                            &&& r.0@.len() == done_first.len() + 2
                            &&& r.0@.take(done_first.len() as int) == done_first
                            &&& r.0@[done_first.len() as int] matches ResponsesStreamEvent::MessageAdded {
                                output_index,
                                item_id: a_id,
                            }
                            &&& output_index == new_i && a_id@ == item_id("msg_"@, new_i as int)
                            &&& r.0@[done_first.len() as int + 1] matches ResponsesStreamEvent::TextDelta {
                                item_id: d_id,
                                output_index: d_index,
                                delta,
                            }
                            &&& d_id@ == item_id("msg_"@, new_i as int) && d_index == new_i && delta == text
                            },
                        }
                    },
                    StreamEvent::ToolCallStart { id, name } => {
                        &&& !r.1
                        &&& final(self).open_item matches Some(OpenItem::FunctionCall { .. })
                        &&& final(self).item_index == new_i
                        &&& r.0@.len() == done_first.len() + 1
                        &&& r.0@.take(done_first.len() as int) == done_first
                        &&& r.0@[done_first.len() as int] matches ResponsesStreamEvent::FunctionCallAdded {
                            output_index,
                            item_id: a_id,
                            call_id,
                            name: a_name,
                        }
                        &&& output_index == new_i && a_id@ == item_id("fc_"@, new_i as int)
                        &&& call_id == id && a_name == name
                    },
                    StreamEvent::ToolCallDelta { id, partial_input } => {
                        &&& !r.1
                        &&& *final(self) == *old(self)
                        &&& r.0@.len() == 1
                        &&& r.0@[0] matches ResponsesStreamEvent::ArgumentsDelta {
                            item_id: d_id,
                            output_index,
                            call_id,
                            delta,
                        }
                        &&& d_id@ == item_id("fc_"@, old_i as int)
                        &&& output_index == old_i && call_id == id && delta == partial_input
                    },
                    StreamEvent::Done { usage, .. } => {
                        &&& r.1
                        &&& r.0@.len() == done_first.len() + 1
                        &&& r.0@.take(done_first.len() as int) == done_first
                        &&& r.0@[done_first.len() as int] == (ResponsesStreamEvent::Completed {
                            response_id: old(self).response_id,
                            model: old(self).model,
                            input_tokens: usage.input_tokens,
                            output_tokens: usage.output_tokens,
                            total_tokens: (usage.input_tokens + usage.output_tokens) as u32,
                        })
                    },
                }
            }),
    {
        proof {
            reveal_strlit("msg_");
            reveal_strlit("fc_");
        }
        let mut out: Vec<ResponsesStreamEvent> = Vec::new();
        match event {
            StreamEvent::TextDelta { text } => {
                let id = match &self.open_item {
                    Some(OpenItem::Message { item_id }) => item_id.clone(),
                    _ => {
                        if self.open_item.is_some() {
                            out.push(ResponsesStreamEvent::ItemDone { output_index: self.item_index });
                        }
                        self.item_index = self.item_index + 1;
                        let new_id = make_item_id("msg_", self.item_index);
                        self.open_item = Some(OpenItem::Message { item_id: new_id.clone() });
                        out.push(ResponsesStreamEvent::MessageAdded {
                            output_index: self.item_index,
                            item_id: new_id.clone(),
                        });
                        new_id
                    },
                };
                out.push(ResponsesStreamEvent::TextDelta { item_id: id, output_index: self.item_index, delta: text });
                (out, false)
            },
            StreamEvent::ToolCallStart { id, name } => {
                if self.open_item.is_some() {
                    out.push(ResponsesStreamEvent::ItemDone { output_index: self.item_index });
                }
                self.item_index = self.item_index + 1;
                let new_id = make_item_id("fc_", self.item_index);
                self.open_item = Some(OpenItem::FunctionCall { item_id: new_id.clone() });
                out.push(ResponsesStreamEvent::FunctionCallAdded {
                    output_index: self.item_index,
                    item_id: new_id,
                    call_id: id,
                    name,
                });
                (out, false)
            },
            StreamEvent::ToolCallDelta { id, partial_input } => {
                let d_id = match &self.open_item {
                    Some(OpenItem::FunctionCall { item_id }) => item_id.clone(),
                    _ => make_item_id("fc_", self.item_index),
                };
                out.push(ResponsesStreamEvent::ArgumentsDelta {
                    item_id: d_id,
                    output_index: self.item_index,
                    call_id: id,
                    delta: partial_input,
                });
                (out, false)
            },
            StreamEvent::Done { usage, .. } => {
                if self.open_item.is_some() {
                    out.push(ResponsesStreamEvent::ItemDone { output_index: self.item_index });
                }
                out.push(ResponsesStreamEvent::Completed {
                    response_id: self.response_id.clone(),
                    model: self.model.clone(),
                    input_tokens: usage.input_tokens,
                    output_tokens: usage.output_tokens,
                    total_tokens: usage.input_tokens + usage.output_tokens,
                });
                (out, true)
            },
        }
    }
}

} // verus!
