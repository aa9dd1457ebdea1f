//! OpenAI-compatible wire format types and conversion to and from the
//! internal message model.

use vstd::prelude::*;

use crate::json::{empty_object_text, json_reencoded, JsonValue};
use crate::text::{join_spec, join_strings, string_views, text_equals};
use crate::types::{
    InputContentBlock, InputMessage, MessageRequest, ToolChoice, ToolDefinition,
    ToolResultContentBlock,
    zero_usage, BlockDeltaModel, ContentBlockDelta, ContentBlockDeltaEvent, ContentBlockStartEvent,
    ContentBlockStopEvent, MessageDelta, MessageDeltaEvent, MessageResponse, MessageResponseModel,
    MessageStartEvent, MessageStopEvent, OutputBlockModel, OutputContentBlock, StreamEvent,
    StreamEventModel, Usage,
};

verus! {

// ── Request types ──────────────────────────────────────────────────────────

/// A chat completion request.
#[derive(Debug)]
pub struct ChatCompletionRequest {
    pub model: String,
    pub messages: Vec<ChatMessage>,
    pub max_tokens: Option<u32>,
    pub stream: bool,
    pub tools: Option<Vec<ChatTool>>,
    pub tool_choice: Option<ChatToolChoiceValue>,
    pub stream_options: Option<StreamOptions>,
}

/// Options of a streamed request.
#[derive(Debug, Clone, Copy, PartialEq, Eq)]
pub struct StreamOptions {
    pub include_usage: bool,
}

/// A chat message.
#[derive(Debug, Clone)]
pub struct ChatMessage {
    pub role: String,
    pub content: Option<String>,
    pub tool_calls: Option<Vec<ChatToolCall>>,
    pub tool_call_id: Option<String>,
}

/// A tool call made by the assistant.
#[derive(Debug, Clone)]
pub struct ChatToolCall {
    pub id: String,
    pub kind: String,
    pub function: ChatFunctionCall,
}

/// The function and arguments of a tool call.
#[derive(Debug, Clone)]
pub struct ChatFunctionCall {
    pub name: String,
    pub arguments: String,
}

/// A tool offered to the model.
#[derive(Debug)]
pub struct ChatTool {
    pub kind: String,
    pub function: ChatFunctionDef,
}

/// The function of an offered tool.
#[derive(Debug)]
pub struct ChatFunctionDef {
    pub name: String,
    pub description: Option<String>,
    pub parameters: JsonValue,
}

/// How the model is to choose a tool.
#[derive(Debug)]
pub enum ChatToolChoiceValue {
    String(String),
    Named { kind: String, function: ChatToolChoiceFunction },
}

/// The function named by a tool choice.
#[derive(Debug)]
pub struct ChatToolChoiceFunction {
    pub name: String,
}

// ── Response types (non-streaming) ─────────────────────────────────────────

/// A chat completion response.
#[derive(Debug)]
pub struct ChatCompletionResponse {
    pub id: String,
    pub model: String,
    pub choices: Vec<ChatChoice>,
    pub usage: Option<ChatUsage>,
}

/// A choice of a response.
#[derive(Debug)]
pub struct ChatChoice {
    pub message: ChatChoiceMessage,
    pub finish_reason: Option<String>,
}

/// The message of a choice.
#[derive(Debug)]
pub struct ChatChoiceMessage {
    pub content: Option<String>,
    pub tool_calls: Option<Vec<ChatToolCall>>,
}

/// Token counts of a response.
#[derive(Debug, Clone, Copy, PartialEq, Eq)]
pub struct ChatUsage {
    pub prompt_tokens: u32,
    pub completion_tokens: u32,
}

// ── Streaming chunk types ──────────────────────────────────────────────────

/// A chunk of a streamed response.
#[derive(Debug)]
pub struct ChatCompletionChunk {
    pub id: String,
    pub model: String,
    pub choices: Vec<ChunkChoice>,
    pub usage: Option<ChatUsage>,
}

/// A choice of a chunk.
#[derive(Debug)]
pub struct ChunkChoice {
    pub delta: ChunkDelta,
    pub finish_reason: Option<String>,
}

/// The new content of a chunk's choice.
#[derive(Debug)]
pub struct ChunkDelta {
    pub role: Option<String>,
    pub content: Option<String>,
    pub tool_calls: Option<Vec<ChunkToolCall>>,
}

/// A piece of a tool call in a chunk.
#[derive(Debug)]
pub struct ChunkToolCall {
    pub index: u32,
    pub id: Option<String>,
    pub function: Option<ChunkFunction>,
}

/// A piece of a tool call's function in a chunk.
#[derive(Debug)]
pub struct ChunkFunction {
    pub name: Option<String>,
    pub arguments: Option<String>,
}

// ── Models of the wire types ───────────────────────────────────────────────

/// The model of a tool call's function and arguments.
pub struct ChatFunctionCallModel {
    pub name: Seq<char>,
    pub arguments: Seq<char>,
}

/// The model of a tool call.
pub struct ChatToolCallModel {
    pub id: Seq<char>,
    pub kind: Seq<char>,
    pub function: ChatFunctionCallModel,
}

/// The model of a chat message.
pub struct ChatMessageModel {
    pub role: Seq<char>,
    pub content: Option<Seq<char>>,
    pub tool_calls: Option<Seq<ChatToolCallModel>>,
    pub tool_call_id: Option<Seq<char>>,
}

/// The model of an offered tool's function.
pub struct ChatFunctionDefModel {
    pub name: Seq<char>,
    pub description: Option<Seq<char>>,
    pub parameters: Seq<char>,
}

/// The model of an offered tool.
pub struct ChatToolModel {
    pub kind: Seq<char>,
    pub function: ChatFunctionDefModel,
}

/// The model of a tool choice.
pub enum ChatToolChoiceModel {
    Mode { value: Seq<char> },
    Named { kind: Seq<char>, function_name: Seq<char> },
}

/// The model of a chat completion request.
pub struct ChatCompletionRequestModel {
    pub model: Seq<char>,
    pub messages: Seq<ChatMessageModel>,
    pub max_tokens: Option<u32>,
    pub stream: bool,
    pub tools: Option<Seq<ChatToolModel>>,
    pub tool_choice: Option<ChatToolChoiceModel>,
    pub stream_options: Option<StreamOptions>,
}

impl DeepView for ChatFunctionCall {
    type V = ChatFunctionCallModel;

    open spec fn deep_view(&self) -> ChatFunctionCallModel {
        ChatFunctionCallModel { name: self.name@, arguments: self.arguments@ }
    }
}

impl DeepView for ChatToolCall {
    type V = ChatToolCallModel;

    open spec fn deep_view(&self) -> ChatToolCallModel {
        ChatToolCallModel { id: self.id@, kind: self.kind@, function: self.function.deep_view() }
    }
}

impl DeepView for ChatMessage {
    type V = ChatMessageModel;

    open spec fn deep_view(&self) -> ChatMessageModel {
        ChatMessageModel {
            role: self.role@,
            content: self.content.deep_view(),
            tool_calls: self.tool_calls.deep_view(),
            tool_call_id: self.tool_call_id.deep_view(),
        }
    }
}

impl DeepView for ChatFunctionDef {
    type V = ChatFunctionDefModel;

    open spec fn deep_view(&self) -> ChatFunctionDefModel {
        ChatFunctionDefModel {
            name: self.name@,
            description: self.description.deep_view(),
            parameters: self.parameters.deep_view(),
        }
    }
}

impl DeepView for ChatTool {
    type V = ChatToolModel;

    open spec fn deep_view(&self) -> ChatToolModel {
        ChatToolModel { kind: self.kind@, function: self.function.deep_view() }
    }
}

impl DeepView for ChatToolChoiceValue {
    type V = ChatToolChoiceModel;

    open spec fn deep_view(&self) -> ChatToolChoiceModel {
        match self {
            ChatToolChoiceValue::String(s) => ChatToolChoiceModel::Mode { value: s@ },
            ChatToolChoiceValue::Named { kind, function } => ChatToolChoiceModel::Named {
                kind: kind@,
                function_name: function.name@,
            },
        }
    }
}

impl DeepView for StreamOptions {
    type V = StreamOptions;

    open spec fn deep_view(&self) -> StreamOptions {
        *self
    }
}

impl DeepView for ChatCompletionRequest {
    type V = ChatCompletionRequestModel;

    open spec fn deep_view(&self) -> ChatCompletionRequestModel {
        ChatCompletionRequestModel {
            model: self.model@,
            messages: self.messages.deep_view(),
            max_tokens: self.max_tokens,
            stream: self.stream,
            tools: self.tools.deep_view(),
            tool_choice: self.tool_choice.deep_view(),
            stream_options: self.stream_options,
        }
    }
}

// ── Request conversion ─────────────────────────────────────────────────────

/// The text that a block of a tool result stands for.
pub open spec fn tool_result_block_text(b: ToolResultContentBlock) -> Seq<char> {
    match b {
        ToolResultContentBlock::Text { text } => text@,
        ToolResultContentBlock::Json { value } => value.deep_view(),
    }
}

/// The text of a tool result: its blocks' texts, one per line, marked
/// `[ERROR] ` where the result is an error.
pub open spec fn tool_result_text(content: Seq<ToolResultContentBlock>, is_error: bool) -> Seq<
    char,
> {
    let text = join_spec(
        content.map_values(|b: ToolResultContentBlock| tool_result_block_text(b)),
        seq!['\n'],
    );
    if is_error {
        "[ERROR] "@ + text
    } else {
        text
    }
}

/// The parts of a message's content, each kind in order: the texts, the
/// tool calls, and the tool results (the id of the call, and the text).
pub struct MessageParts {
    pub texts: Seq<Seq<char>>,
    pub calls: Seq<ChatToolCallModel>,
    pub results: Seq<(Seq<char>, Seq<char>)>,
}

/// The parts of the content blocks `blocks`.
pub open spec fn message_parts(blocks: Seq<InputContentBlock>) -> MessageParts
    decreases blocks.len(),
{
    if blocks.len() == 0 {
        MessageParts { texts: Seq::empty(), calls: Seq::empty(), results: Seq::empty() }
    } else {
        let p = message_parts(blocks.drop_last());
        match blocks.last() {
            InputContentBlock::Text { text } => MessageParts { texts: p.texts.push(text@), ..p },
            InputContentBlock::ToolUse { id, name, input } => MessageParts {
                calls: p.calls.push(
                    ChatToolCallModel {
                        id: id@,
                        kind: "function"@,
                        function: ChatFunctionCallModel {
                            name: name@,
                            arguments: input.deep_view(),
                        },
                    },
                ),
                ..p
            },
            InputContentBlock::ToolResult { tool_use_id, content, is_error } => MessageParts {
                results: p.results.push((tool_use_id@, tool_result_text(content@, is_error))),
                ..p
            },
        }
    }
}

/// The message that carries the output of a tool call.
pub open spec fn tool_message(result: (Seq<char>, Seq<char>)) -> ChatMessageModel {
    ChatMessageModel {
        role: "tool"@,
        content: Some(result.1),
        tool_calls: None,
        tool_call_id: Some(result.0),
    }
}

/// The chat messages for one input message. An assistant message becomes
/// one assistant message with its texts run together and its tool calls;
/// any other message becomes a user message with its texts one per line,
/// if it has texts, followed by one tool message per tool result.
pub open spec fn chat_messages_of(msg: InputMessage) -> Seq<ChatMessageModel> {
    let p = message_parts(msg.content@);
    if msg.role@ == "assistant"@ {
        seq![
            ChatMessageModel {
                role: "assistant"@,
                content: if p.texts.len() == 0 {
                    None
                } else {
                    Some(join_spec(p.texts, Seq::empty()))
                },
                tool_calls: if p.calls.len() == 0 {
                    None
                } else {
                    Some(p.calls)
                },
                tool_call_id: None,
            },
        ]
    } else {
        let user = if p.texts.len() == 0 {
            Seq::<ChatMessageModel>::empty()
        } else {
            seq![
                ChatMessageModel {
                    role: "user"@,
                    content: Some(join_spec(p.texts, seq!['\n'])),
                    tool_calls: None,
                    tool_call_id: None,
                },
            ]
        };
        user + p.results.map_values(|r: (Seq<char>, Seq<char>)| tool_message(r))
    }
}

/// The chat messages for the input messages, in order.
pub open spec fn chat_messages_of_all(msgs: Seq<InputMessage>) -> Seq<ChatMessageModel>
    decreases msgs.len(),
{
    if msgs.len() == 0 {
        Seq::empty()
    } else {
        chat_messages_of_all(msgs.drop_last()) + chat_messages_of(msgs.last())
    }
}

/// The system message that carries a system prompt.
pub open spec fn system_message(prompt: Seq<char>) -> ChatMessageModel {
    ChatMessageModel { role: "system"@, content: Some(prompt), tool_calls: None, tool_call_id: None }
}

/// The offered tool for a tool definition.
pub open spec fn tool_def_model(t: ToolDefinition) -> ChatToolModel {
    ChatToolModel {
        kind: "function"@,
        function: ChatFunctionDefModel {
            name: t.name@,
            description: t.description.deep_view(),
            parameters: t.input_schema.deep_view(),
        },
    }
}

/// The tool choice on the wire: `auto`, `required`, or the named function.
pub open spec fn tool_choice_model(c: ToolChoice) -> ChatToolChoiceModel {
    match c {
        ToolChoice::Auto => ChatToolChoiceModel::Mode { value: "auto"@ },
        ToolChoice::Any => ChatToolChoiceModel::Mode { value: "required"@ },
        ToolChoice::Tool { name } => ChatToolChoiceModel::Named {
            kind: "function"@,
            function_name: name@,
        },
    }
}

/// The chat completion request for a message request.
pub open spec fn chat_request_spec(req: MessageRequest) -> ChatCompletionRequestModel {
    let system = match req.system {
        Some(s) => seq![system_message(s@)],
        None => Seq::<ChatMessageModel>::empty(),
    };
    ChatCompletionRequestModel {
        model: req.model@,
        messages: system + chat_messages_of_all(req.messages@),
        max_tokens: Some(req.max_tokens),
        stream: req.stream,
        tools: match req.tools {
            Some(ts) => Some(ts@.map_values(|t: ToolDefinition| tool_def_model(t))),
            None => None,
        },
        tool_choice: match req.tool_choice {
            Some(c) => Some(tool_choice_model(c)),
            None => None,
        },
        stream_options: if req.stream {
            Some(StreamOptions { include_usage: true })
        } else {
            None
        },
    }
}

/// The text of a tool result's content.
fn tool_result_content_text(content: &Vec<ToolResultContentBlock>, is_error: bool) -> (r: String)
    ensures
        r@ == tool_result_text(content@, is_error),
{
    let mut parts: Vec<String> = Vec::new();
    let ghost texts = content@.map_values(|b: ToolResultContentBlock| tool_result_block_text(b));
    let mut i: usize = 0;
    while i < content.len()
        invariant
            0 <= i <= content@.len(),
            texts == content@.map_values(|b: ToolResultContentBlock| tool_result_block_text(b)),
            string_views(parts@) == texts.take(i as int),
        decreases content@.len() - i,
    {
        let t = match &content[i] {
            ToolResultContentBlock::Text { text } => text.clone(),
            ToolResultContentBlock::Json { value } => value.to_json_string(),
        };
        assert(t@ == texts[i as int]);
        let ghost old_parts = parts@;
        let ghost tv = t@;
        parts.push(t);
        assert(string_views(parts@) =~= string_views(old_parts).push(tv));
        assert(texts.take(i + 1) =~= texts.take(i as int).push(texts[i as int]));
        assert(string_views(parts@) =~= texts.take(i + 1));
        i = i + 1;
    }
    assert(texts.take(content@.len() as int) =~= texts);
    let text = join_strings(&parts, "\n");
    proof {
        reveal_strlit("\n");
        assert("\n"@ =~= seq!['\n']);
    }
    if is_error {
        let mut marked = "[ERROR] ".to_string();
        marked.append(text.as_str());
        marked
    } else {
        text
    }
}

/// Appends the chat messages for `msg` to `out`.
fn convert_input_message(msg: &InputMessage, out: &mut Vec<ChatMessage>)
    ensures
        final(out).deep_view() == old(out).deep_view() + chat_messages_of(*msg),
{
    let mut text_parts: Vec<String> = Vec::new();
    let mut tool_calls: Vec<ChatToolCall> = Vec::new();
    let mut tool_results: Vec<(String, String)> = Vec::new();
    let ghost blocks = msg.content@;
    let mut i: usize = 0;
    assert(blocks.take(0) =~= Seq::<InputContentBlock>::empty());
    while i < msg.content.len()
        invariant
            blocks == msg.content@,
            0 <= i <= blocks.len(),
            string_views(text_parts@) == message_parts(blocks.take(i as int)).texts,
            tool_calls.deep_view() == message_parts(blocks.take(i as int)).calls,
            tool_results.deep_view() == message_parts(blocks.take(i as int)).results,
        decreases blocks.len() - i,
    {
        assert(blocks.take(i + 1).drop_last() =~= blocks.take(i as int));
        assert(blocks.take(i + 1).last() == blocks[i as int]);
        match &msg.content[i] {
            InputContentBlock::Text { text } => {
                text_parts.push(text.clone());
                assert(string_views(text_parts@) =~= message_parts(blocks.take(i + 1)).texts);
            },
            InputContentBlock::ToolUse { id, name, input } => {
                let call = ChatToolCall {
                    id: id.clone(),
                    kind: "function".to_string(),
                    function: ChatFunctionCall { name: name.clone(), arguments: input.to_json_string() },
                };
                tool_calls.push(call);
                assert(tool_calls.deep_view() =~= message_parts(blocks.take(i + 1)).calls);
            },
            InputContentBlock::ToolResult { tool_use_id, content, is_error } => {
                let text = tool_result_content_text(content, *is_error);
                tool_results.push((tool_use_id.clone(), text));
                assert(tool_results.deep_view() =~= message_parts(blocks.take(i + 1)).results);
            },
        }
        i = i + 1;
    }
    assert(blocks.take(blocks.len() as int) =~= blocks);
    let ghost p = message_parts(blocks);
    let ghost out0 = out.deep_view();
    if text_equals(msg.role.as_str(), "assistant") {
        let content = if text_parts.len() == 0 {
            None
        } else {
            Some(join_strings(&text_parts, ""))
        };
        proof {
            reveal_strlit("");
            assert(""@ =~= Seq::<char>::empty());
        }
        assert(content.deep_view() == (if p.texts.len() == 0 {
            None
        } else {
            Some(join_spec(p.texts, Seq::empty()))
        }));
        let tc = if tool_calls.len() == 0 {
            None
        } else {
            Some(tool_calls)
        };
        let m = ChatMessage {
            role: "assistant".to_string(),
            content,
            tool_calls: tc,
            tool_call_id: None,
        };
        out.push(m);
        assert(out.deep_view() =~= out0 + chat_messages_of(*msg));
    } else {
        if text_parts.len() > 0 {
            let m = ChatMessage {
                role: "user".to_string(),
                content: Some(join_strings(&text_parts, "\n")),
                tool_calls: None,
                tool_call_id: None,
            };
            proof {
                reveal_strlit("\n");
                assert("\n"@ =~= seq!['\n']);
            }
            out.push(m);
        }
        let ghost out1 = out.deep_view();
        let ghost results = p.results;
        let mut j: usize = 0;
        let n = tool_results.len();
        let mut rest = tool_results;
        assert(results.take(0) =~= Seq::<(Seq<char>, Seq<char>)>::empty());
        assert(results.skip(0) =~= results);
        while j < n
            invariant
                n == results.len(),
                0 <= j <= n,
                rest.deep_view() == results.skip(j as int),
                rest@.len() == n - j,
                out.deep_view() == out1 + results.take(j as int).map_values(
                    |r: (Seq<char>, Seq<char>)| tool_message(r),
                ),
            decreases n - j,
        {
            assert(rest.deep_view()[0] == rest@[0].deep_view());
            assert(rest@[0].deep_view() == results[j as int]);
            let ghost old_rest = rest@;
            let (tool_call_id, text) = rest.remove(0);
            assert(rest@ =~= old_rest.subrange(1, old_rest.len() as int));
            assert forall|k: int| 0 <= k < rest@.len() implies #[trigger] rest.deep_view()[k]
                == results.skip(j + 1)[k] by {
                assert(rest@[k] == old_rest[k + 1]);
                assert(results.skip(j as int)[k + 1] == results.skip(j + 1)[k]);
            }
            assert(rest.deep_view() =~= results.skip(j + 1));
            let m = ChatMessage {
                role: "tool".to_string(),
                content: Some(text),
                tool_calls: None,
                tool_call_id: Some(tool_call_id),
            };
            let ghost mv = m.deep_view();
            let ghost before = out.deep_view();
            out.push(m);
            assert(results.take(j + 1) =~= results.take(j as int).push(results[j as int]));
            assert(out.deep_view() =~= before.push(mv));
            assert(out.deep_view() =~= out1 + results.take(j + 1).map_values(
                |r: (Seq<char>, Seq<char>)| tool_message(r),
            ));
            j = j + 1;
        }
        assert(results.take(n as int) =~= results);
        assert(out.deep_view() =~= out0 + chat_messages_of(*msg));
    }
}

/// The offered tool for a tool definition.
fn convert_tool_def(tool: &ToolDefinition) -> (t: ChatTool)
    ensures
        t.deep_view() == tool_def_model(*tool),
{
    ChatTool {
        kind: "function".to_string(),
        function: ChatFunctionDef {
            name: tool.name.clone(),
            description: clone_opt_string(&tool.description),
            parameters: tool.input_schema.clone(),
        },
    }
}

/// The tool choice on the wire for a tool choice.
pub fn convert_tool_choice(choice: &ToolChoice) -> (c: ChatToolChoiceValue)
    ensures
        c.deep_view() == tool_choice_model(*choice),
{
    match choice {
        ToolChoice::Auto => ChatToolChoiceValue::String("auto".to_string()),
        ToolChoice::Any => ChatToolChoiceValue::String("required".to_string()),
        ToolChoice::Tool { name } => ChatToolChoiceValue::Named {
            kind: "function".to_string(),
            function: ChatToolChoiceFunction { name: name.clone() },
        },
    }
}

/// Converts a message request into a chat completion request.
pub fn to_chat_request(request: &MessageRequest) -> (r: ChatCompletionRequest)
    ensures
        r.deep_view() == chat_request_spec(*request),
{
    let mut messages: Vec<ChatMessage> = Vec::new();
    if let Some(system) = &request.system {
        let m = ChatMessage {
            role: "system".to_string(),
            content: Some(system.clone()),
            tool_calls: None,
            tool_call_id: None,
        };
        let ghost mv = m.deep_view();
        messages.push(m);
        assert(messages.deep_view() =~= seq![mv]);
    }
    let ghost first = messages.deep_view();
    let ghost msgs = request.messages@;
    let mut i: usize = 0;
    assert(msgs.take(0) =~= Seq::<InputMessage>::empty());
    assert(first + Seq::<ChatMessageModel>::empty() =~= first);
    while i < request.messages.len()
        invariant
            msgs == request.messages@,
            0 <= i <= msgs.len(),
            messages.deep_view() == first + chat_messages_of_all(msgs.take(i as int)),
        decreases msgs.len() - i,
    {
        assert(msgs.take(i + 1).drop_last() =~= msgs.take(i as int));
        assert(msgs.take(i + 1).last() == msgs[i as int]);
        convert_input_message(&request.messages[i], &mut messages);
        assert(first + chat_messages_of_all(msgs.take(i as int)) + chat_messages_of(msgs[i as int])
            =~= first + chat_messages_of_all(msgs.take(i + 1)));
        i = i + 1;
    }
    assert(msgs.take(msgs.len() as int) =~= msgs);
    let tools = match &request.tools {
        Some(tools) => {
            let mut out: Vec<ChatTool> = Vec::new();
            let mut k: usize = 0;
            while k < tools.len()
                invariant
                    0 <= k <= tools@.len(),
                    out.deep_view() == tools@.take(k as int).map_values(
                        |t: ToolDefinition| tool_def_model(t),
                    ),
                decreases tools@.len() - k,
            {
                let t = convert_tool_def(&tools[k]);
                let ghost tv = t.deep_view();
                let ghost before = out.deep_view();
                out.push(t);
                assert(out.deep_view() =~= before.push(tv));
                assert(tools@.take(k + 1) =~= tools@.take(k as int).push(tools@[k as int]));
                assert(out.deep_view() =~= tools@.take(k + 1).map_values(
                    |t: ToolDefinition| tool_def_model(t),
                ));
                k = k + 1;
            }
            assert(tools@.take(tools@.len() as int) =~= tools@);
            Some(out)
        },
        None => None,
    };
    let tool_choice = match &request.tool_choice {
        Some(c) => Some(convert_tool_choice(c)),
        None => None,
    };
    let stream_options = if request.stream {
        Some(StreamOptions { include_usage: true })
    } else {
        None
    };
    let r = ChatCompletionRequest {
        model: request.model.clone(),
        messages,
        max_tokens: Some(request.max_tokens),
        stream: request.stream,
        tools,
        tool_choice,
        stream_options,
    };
    assert(r.deep_view().messages =~= chat_request_spec(*request).messages);
    r
}

// ── Finish reasons ─────────────────────────────────────────────────────────

/// The internal stop reason for an OpenAI finish reason: `stop` is
/// `end_turn`, `tool_calls` is `tool_use`, `length` is `max_tokens`, and any
/// other reason is kept as it is.
pub open spec fn finish_reason_spec(reason: Seq<char>) -> Seq<char> {
    if reason == "stop"@ {
        "end_turn"@
    } else if reason == "tool_calls"@ {
        "tool_use"@
    } else if reason == "length"@ {
        "max_tokens"@
    } else {
        reason
    }
}

/// Maps an OpenAI finish reason to the internal stop reason.
pub fn map_finish_reason(reason: &str) -> (r: String)
    ensures
        r@ == finish_reason_spec(reason@),
{
    if text_equals(reason, "stop") {
        "end_turn".to_string()
    } else if text_equals(reason, "tool_calls") {
        "tool_use".to_string()
    } else if text_equals(reason, "length") {
        "max_tokens".to_string()
    } else {
        reason.to_string()
    }
}

// ── Response conversion (non-streaming) ────────────────────────────────────

/// The input of a tool call whose arguments text is `arguments`: the JSON
/// value it holds, or the empty object where it holds none.
pub open spec fn tool_input_spec(arguments: Seq<char>) -> Seq<char> {
    match json_reencoded(arguments) {
        Some(t) => t,
        None => empty_object_text(),
    }
}

/// The tool-use block for a tool call of a response.
pub open spec fn tool_use_block(tc: ChatToolCall) -> OutputBlockModel {
    OutputBlockModel::ToolUse {
        id: tc.id@,
        name: tc.function.name@,
        input: tool_input_spec(tc.function.arguments@),
    }
}

/// The content of a response's choice: its text, unless empty, then one
/// tool-use block per tool call.
pub open spec fn choice_content(choice: ChatChoice) -> Seq<OutputBlockModel> {
    let text = match choice.message.content {
        Some(t) => if t@.len() > 0 {
            seq![OutputBlockModel::Text { text: t@ }]
        } else {
            Seq::<OutputBlockModel>::empty()
        },
        None => Seq::<OutputBlockModel>::empty(),
    };
    let tools = match choice.message.tool_calls {
        Some(tcs) => tcs@.map_values(|tc: ChatToolCall| tool_use_block(tc)),
        None => Seq::<OutputBlockModel>::empty(),
    };
    text + tools
}

/// The internal response for a chat completion response: its first choice
/// gives the content and the stop reason, and its usage (zero where it has
/// none) gives the token counts.
pub open spec fn response_spec(resp: ChatCompletionResponse) -> MessageResponseModel {
    let has_choice = resp.choices@.len() > 0;
    MessageResponseModel {
        id: resp.id@,
        kind: "message"@,
        role: "assistant"@,
        content: if has_choice {
            choice_content(resp.choices@[0])
        } else {
            Seq::empty()
        },
        model: resp.model@,
        stop_reason: if has_choice {
            match resp.choices@[0].finish_reason {
                Some(r) => Some(finish_reason_spec(r@)),
                None => None,
            }
        } else {
            None
        },
        stop_sequence: None,
        usage: match resp.usage {
            Some(u) => usage_of(u),
            None => zero_usage(),
        },
        request_id: None,
    }
}

/// The input of a tool call, from the result of reading its arguments:
/// the value read, or the empty object where none was.
pub fn tool_input_or_empty(parsed: Option<JsonValue>) -> (v: JsonValue)
    ensures
        v.deep_view() == (match parsed.deep_view() {
            Some(t) => t,
            None => empty_object_text(),
        }),
{
    match parsed {
        Some(v) => v,
        None => JsonValue::empty_object(),
    }
}

/// The content blocks of a response's choice.
fn convert_choice_content(choice: &ChatChoice) -> (content: Vec<OutputContentBlock>)
    ensures
        content.deep_view() == choice_content(*choice),
{
    let mut content: Vec<OutputContentBlock> = Vec::new();
    if let Some(text) = &choice.message.content {
        if !text.as_str().is_empty() {
            content.push(OutputContentBlock::Text { text: text.clone() });
        }
    }
    let ghost first = content.deep_view();
    if let Some(tool_calls) = &choice.message.tool_calls {
        let ghost blocks = tool_calls@.map_values(|tc: ChatToolCall| tool_use_block(tc));
        let mut k: usize = 0;
        assert(first + blocks.take(0) =~= first);
        while k < tool_calls.len()
            invariant
                0 <= k <= tool_calls@.len(),
                blocks == tool_calls@.map_values(|tc: ChatToolCall| tool_use_block(tc)),
                content.deep_view() == first + blocks.take(k as int),
            decreases tool_calls@.len() - k,
        {
            let tc = &tool_calls[k];
            let input = tool_input_or_empty(JsonValue::parse(tc.function.arguments.as_str()));
            let b = OutputContentBlock::ToolUse {
                id: tc.id.clone(),
                name: tc.function.name.clone(),
                input,
            };
            let ghost bv = b.deep_view();
            let ghost before = content.deep_view();
            content.push(b);
            assert(bv == blocks[k as int]);
            assert(content.deep_view() =~= before.push(bv));
            assert(blocks.take(k + 1) =~= blocks.take(k as int).push(blocks[k as int]));
            k = k + 1;
        }
        assert(blocks.take(tool_calls@.len() as int) =~= blocks);
    }
    assert(content.deep_view() =~= choice_content(*choice));
    content
}

/// Converts a chat completion response into an internal response.
pub fn from_chat_response(response: ChatCompletionResponse) -> (m: MessageResponse)
    ensures
        m.deep_view() == response_spec(response),
{
    let ChatCompletionResponse { id, model, choices, usage } = response;
    let mut content: Vec<OutputContentBlock> = Vec::new();
    let mut stop_reason: Option<String> = None;
    if choices.len() > 0 {
        let choice = &choices[0];
        content = convert_choice_content(choice);
        stop_reason = match &choice.finish_reason {
            Some(r) => Some(map_finish_reason(r.as_str())),
            None => None,
        };
    } else {
        assert(content.deep_view() =~= Seq::<OutputBlockModel>::empty());
    }
    let usage = match usage {
        Some(u) => Usage {
            input_tokens: u.prompt_tokens,
            cache_creation_input_tokens: 0,
            cache_read_input_tokens: 0,
            output_tokens: u.completion_tokens,
        },
        None => Usage {
            input_tokens: 0,
            cache_creation_input_tokens: 0,
            cache_read_input_tokens: 0,
            output_tokens: 0,
        },
    };
    MessageResponse {
        id,
        kind: "message".to_string(),
        role: "assistant".to_string(),
        content,
        model,
        stop_reason,
        stop_sequence: None,
        usage,
        request_id: None,
    }
}

// ── Streaming conversion ───────────────────────────────────────────────────

/// The usage that a chunk's token counts stand for.
pub open spec fn usage_of(u: ChatUsage) -> Usage {
    Usage {
        input_tokens: u.prompt_tokens,
        cache_creation_input_tokens: 0,
        cache_read_input_tokens: 0,
        output_tokens: u.completion_tokens,
    }
}

/// The event that reports a usage and, at the end of a message, its stop reason.
pub open spec fn usage_event(u: ChatUsage, stop_reason: Option<Seq<char>>) -> StreamEventModel {
    StreamEventModel::MessageDelta { stop_reason, stop_sequence: None, usage: usage_of(u) }
}

/// The (still empty) message that a stream opens with.
pub open spec fn start_message_model(id: Seq<char>, model: Seq<char>) -> MessageResponseModel {
    MessageResponseModel {
        id,
        kind: "message"@,
        role: "assistant"@,
        content: Seq::empty(),
        model,
        stop_reason: None,
        stop_sequence: None,
        usage: zero_usage(),
        request_id: None,
    }
}

/// The model of a stream converter: whether the message has started, the
/// index of the last content block opened, whether a text block is open,
/// and the message's id and model as last reported.
pub struct ConverterModel {
    pub message_started: bool,
    pub block_index: int,
    pub has_text_block: bool,
    pub message_id: Seq<char>,
    pub message_model: Seq<char>,
}

/// The converter before any chunk.
pub open spec fn initial_converter() -> ConverterModel {
    ConverterModel {
        message_started: false,
        block_index: 0,
        has_text_block: false,
        message_id: Seq::empty(),
        message_model: Seq::empty(),
    }
}

/// The block index, whether a text block is open, and the events, after
/// text `content` arrives with block index `idx`: a text block is opened
/// unless one is, and non-empty text is added to it.
pub open spec fn text_events(idx: int, has_text: bool, content: Option<Seq<char>>) -> (
    int,
    bool,
    Seq<StreamEventModel>,
) {
    match content {
        None => (idx, has_text, Seq::empty()),
        Some(t) => {
            let i1 = if has_text {
                idx
            } else {
                idx + 1
            };
            let opened = if has_text {
                Seq::<StreamEventModel>::empty()
            } else {
                seq![
                    StreamEventModel::ContentBlockStart {
                        index: i1 as u32,
                        content_block: OutputBlockModel::Text { text: Seq::empty() },
                    },
                ]
            };
            let added = if t.len() > 0 {
                seq![
                    StreamEventModel::ContentBlockDelta {
                        index: i1 as u32,
                        delta: BlockDeltaModel::TextDelta { text: t },
                    },
                ]
            } else {
                Seq::<StreamEventModel>::empty()
            };
            (i1, true, opened + added)
        },
    }
}

/// The name that a tool call piece gives, or the empty name.
pub open spec fn tool_call_name(tc: ChunkToolCall) -> Seq<char> {
    match tc.function {
        Some(f) => match f.name {
            Some(n) => n@,
            None => Seq::empty(),
        },
        None => Seq::empty(),
    }
}

/// The arguments text that a tool call piece adds, empty where it adds none.
pub open spec fn tool_call_arguments(tc: ChunkToolCall) -> Seq<char> {
    match tc.function {
        Some(f) => match f.arguments {
            Some(a) => a@,
            None => Seq::empty(),
        },
        None => Seq::empty(),
    }
}

/// The block index, whether a text block is open, and the events after one
/// tool call piece: a piece with an id closes an open text block and opens a
/// tool-use block; non-empty arguments are added to the current block.
pub open spec fn tool_call_step(idx: int, has_text: bool, tc: ChunkToolCall) -> (
    int,
    bool,
    Seq<StreamEventModel>,
) {
    let (i1, h1, opened) = match tc.id {
        Some(id) => {
            let closed = if has_text {
                seq![StreamEventModel::ContentBlockStop { index: idx as u32 }]
            } else {
                Seq::<StreamEventModel>::empty()
            };
            (
                idx + 1,
                false,
                closed.push(
                    StreamEventModel::ContentBlockStart {
                        index: (idx + 1) as u32,
                        content_block: OutputBlockModel::ToolUse {
                            id: id@,
                            name: tool_call_name(tc),
                            input: empty_object_text(),
                        },
                    },
                ),
            )
        },
        None => (idx, has_text, Seq::<StreamEventModel>::empty()),
    };
    let args = tool_call_arguments(tc);
    let added = if args.len() > 0 {
        seq![
            StreamEventModel::ContentBlockDelta {
                index: i1 as u32,
                delta: BlockDeltaModel::InputJsonDelta { partial_json: args },
            },
        ]
    } else {
        Seq::<StreamEventModel>::empty()
    };
    (i1, h1, opened + added)
}

/// `tool_call_step` over the tool call pieces in order.
pub open spec fn tool_call_events(idx: int, has_text: bool, calls: Seq<ChunkToolCall>) -> (
    int,
    bool,
    Seq<StreamEventModel>,
)
    decreases calls.len(),
{
    if calls.len() == 0 {
        (idx, has_text, Seq::empty())
    } else {
        let (i0, h0, e0) = tool_call_events(idx, has_text, calls.drop_last());
        let (i1, h1, e1) = tool_call_step(i0, h0, calls.last());
        (i1, h1, e0 + e1)
    }
}

/// `tool_call_events` over the tool call pieces of a delta, if it has any.
pub open spec fn tool_calls_part(idx: int, has_text: bool, calls: Option<Vec<ChunkToolCall>>) -> (
    int,
    bool,
    Seq<StreamEventModel>,
) {
    match calls {
        Some(calls) => tool_call_events(idx, has_text, calls@),
        None => (idx, has_text, Seq::<StreamEventModel>::empty()),
    }
}

/// The events that finish a message: the current block is closed, then the
/// stop reason and usage (zero where the chunk has none) are reported, and
/// the message is stopped.
pub open spec fn finish_events(idx: int, reason: Seq<char>, usage: Option<ChatUsage>) -> Seq<
    StreamEventModel,
> {
    let closed = if idx >= 0 {
        seq![StreamEventModel::ContentBlockStop { index: idx as u32 }]
    } else {
        Seq::<StreamEventModel>::empty()
    };
    let u = match usage {
        Some(u) => u,
        None => ChatUsage { prompt_tokens: 0, completion_tokens: 0 },
    };
    closed + seq![
        usage_event(u, Some(finish_reason_spec(reason))),
        StreamEventModel::MessageStop,
    ]
}

/// The state after a chunk and the events it produces.
///
/// The chunk's id and model, where not empty, replace the stored ones. A
/// chunk without choices only reports its usage, if it has one. Otherwise
/// the first choice is taken: the message is started unless it was, its text
/// and tool call pieces are turned into block events, and a finish reason
/// finishes the message.
pub open spec fn converter_step(s: ConverterModel, chunk: ChatCompletionChunk) -> (
    ConverterModel,
    Seq<StreamEventModel>,
) {
    let id = if chunk.id@.len() > 0 {
        chunk.id@
    } else {
        s.message_id
    };
    let model = if chunk.model@.len() > 0 {
        chunk.model@
    } else {
        s.message_model
    };
    if chunk.choices@.len() == 0 {
        let events = match chunk.usage {
            Some(u) => seq![usage_event(u, None)],
            None => Seq::<StreamEventModel>::empty(),
        };
        (
            ConverterModel {
                message_started: s.message_started,
                block_index: s.block_index,
                has_text_block: s.has_text_block,
                message_id: id,
                message_model: model,
            },
            events,
        )
    } else {
        let choice = chunk.choices@[0];
        let started = if s.message_started {
            Seq::<StreamEventModel>::empty()
        } else {
            seq![StreamEventModel::MessageStart { message: start_message_model(id, model) }]
        };
        let (i1, h1, text) = text_events(
            s.block_index,
            s.has_text_block,
            choice.delta.content.deep_view(),
        );
        let (i2, h2, tools) = tool_calls_part(i1, h1, choice.delta.tool_calls);
        let finish = match choice.finish_reason {
            Some(r) => finish_events(i2, r@, chunk.usage),
            None => Seq::<StreamEventModel>::empty(),
        };
        (
            ConverterModel {
                message_started: true,
                block_index: i2,
                has_text_block: h2,
                message_id: id,
                message_model: model,
            },
            started + text + tools + finish,
        )
    }
}

/// The block index after tool call pieces is never below the one before.
pub proof fn lemma_tool_index_grows(idx: int, h: bool, calls: Seq<ChunkToolCall>)
    ensures
        tool_call_events(idx, h, calls).0 >= idx,
    decreases calls.len(),
{
    if calls.len() > 0 {
        lemma_tool_index_grows(idx, h, calls.drop_last());
    }
}

/// The number of tool call pieces that open a block (those with an id).
pub open spec fn opening_calls(calls: Seq<ChunkToolCall>) -> int
    decreases calls.len(),
{
    if calls.len() == 0 {
        0
    } else {
        opening_calls(calls.drop_last()) + if calls.last().id is Some {
            1int
        } else {
            0int
        }
    }
}

proof fn lemma_tool_index_count(idx: int, h: bool, calls: Seq<ChunkToolCall>)
    ensures
        tool_call_events(idx, h, calls).0 == idx + opening_calls(calls),
    decreases calls.len(),
{
    if calls.len() > 0 {
        lemma_tool_index_count(idx, h, calls.drop_last());
    }
}

proof fn lemma_opening_calls_prefix(calls: Seq<ChunkToolCall>, k: int)
    requires
        0 <= k <= calls.len(),
    ensures
        0 <= opening_calls(calls.take(k)) <= opening_calls(calls),
    decreases calls.len() - k,
{
    if k < calls.len() {
        assert(calls.take(k + 1).drop_last() =~= calls.take(k));
        lemma_opening_calls_prefix(calls, k + 1);
    } else {
        assert(calls.take(k) =~= calls);
    }
    lemma_opening_calls_nonneg(calls.take(k));
}

proof fn lemma_opening_calls_nonneg(calls: Seq<ChunkToolCall>)
    ensures
        opening_calls(calls) >= 0,
    decreases calls.len(),
{
    if calls.len() > 0 {
        lemma_opening_calls_nonneg(calls.drop_last());
    }
}

proof fn lemma_tool_calls_part_grows(idx: int, h: bool, calls: Option<Vec<ChunkToolCall>>)
    ensures
        tool_calls_part(idx, h, calls).0 >= idx,
{
    match calls {
        Some(c) => lemma_tool_index_grows(idx, h, c@),
        None => {},
    }
}

proof fn lemma_tool_index_prefix(idx: int, h: bool, calls: Seq<ChunkToolCall>, k: int)
    requires
        0 <= k <= calls.len(),
    ensures
        tool_call_events(idx, h, calls.take(k)).0 <= tool_call_events(idx, h, calls).0,
    decreases calls.len() - k,
{
    if k < calls.len() {
        assert(calls.take(k + 1).drop_last() =~= calls.take(k));
        lemma_tool_index_prefix(idx, h, calls, k + 1);
    } else {
        assert(calls.take(k) =~= calls);
    }
}

/// Stateful converter that turns OpenAI streaming chunks into internal
/// stream events.
#[derive(Debug)]
pub struct OpenAiStreamConverter {
    message_started: bool,
    block_index: i32,
    has_text_block: bool,
    message_id: String,
    message_model: String,
}

impl View for OpenAiStreamConverter {
    type V = ConverterModel;

    closed spec fn view(&self) -> ConverterModel {
        ConverterModel {
            message_started: self.message_started,
            block_index: self.block_index as int,
            has_text_block: self.has_text_block,
            message_id: self.message_id@,
            message_model: self.message_model@,
        }
    }
}

/// Appends `e` to `events`.
fn push_event(events: &mut Vec<StreamEvent>, e: StreamEvent)
    ensures
        final(events).deep_view() == old(events).deep_view().push(e.deep_view()),
{
    let ghost ev = e.deep_view();
    events.push(e);
    assert(events.deep_view() =~= old(events).deep_view().push(ev));
}

/// A copy of an optional string.
pub fn clone_opt_string(o: &Option<String>) -> (r: Option<String>)
    ensures
        r.deep_view() == o.deep_view(),
{
    match o {
        Some(s) => Some(s.clone()),
        None => None,
    }
}

impl Default for OpenAiStreamConverter {
    fn default() -> (c: Self)
        ensures
            c@ == initial_converter(),
    {
        OpenAiStreamConverter::new()
    }
}

impl OpenAiStreamConverter {
    #[verifier::type_invariant]
    spec fn block_index_is_natural(self) -> bool {
        self.block_index >= 0
    }

    /// A converter before any chunk.
    pub fn new() -> (c: Self)
        ensures
            c@ == initial_converter(),
    {
        let c = OpenAiStreamConverter {
            message_started: false,
            block_index: 0,
            has_text_block: false,
            message_id: String::new(),
            message_model: String::new(),
        };
        assert(c@.message_id =~= Seq::<char>::empty());
        c
    }

    /// Whether the block indices that `chunk` would open stay within `i32`,
    /// as `process_chunk` requires.
    pub fn can_process(&self, chunk: &ChatCompletionChunk) -> (r: bool)
        ensures
            r == (converter_step(self@, *chunk).0.block_index <= i32::MAX),
            0 <= self@.block_index <= i32::MAX,
    {
        proof {
            use_type_invariant(self);
        }
        if chunk.choices.len() == 0 {
            return true;
        }
        let delta = &chunk.choices[0].delta;
        let mut idx: i64 = self.block_index as i64;
        let mut has_text = self.has_text_block;
        if delta.content.is_some() && !has_text {
            idx = idx + 1;
            has_text = true;
        }
        let ghost i1 = idx as int;
        let ghost h1 = has_text;
        assert(text_events(self@.block_index, self@.has_text_block, delta.content.deep_view()).0
            == i1);
        match &delta.tool_calls {
            None => idx <= 0x7fff_ffff,
            Some(calls) => {
                proof {
                    lemma_tool_index_count(i1, h1, calls@);
                }
                assert(converter_step(self@, *chunk).0.block_index == i1 + opening_calls(calls@));
                let mut k: usize = 0;
                assert(calls@.take(0) =~= Seq::<ChunkToolCall>::empty());
                while k < calls.len()
                    invariant
                        0 <= k <= calls@.len(),
                        idx == i1 + opening_calls(calls@.take(k as int)),
                        idx <= 0x7fff_ffff + 1,
                        tool_call_events(i1, h1, calls@).0 == i1 + opening_calls(calls@),
                        converter_step(self@, *chunk).0.block_index == i1 + opening_calls(calls@),
                        0 <= self@.block_index <= i32::MAX,
                    decreases calls@.len() - k,
                {
                    assert(calls@.take(k + 1).drop_last() =~= calls@.take(k as int));
                    assert(calls@.take(k + 1).last() == calls@[k as int]);
                    if calls[k].id.is_some() {
                        idx = idx + 1;
                    }
                    proof {
                        lemma_opening_calls_prefix(calls@, k + 1);
                    }
                    if idx > 0x7fff_ffff {
                        return false;
                    }
                    k = k + 1;
                }
                assert(calls@.take(calls@.len() as int) =~= calls@);
                idx <= 0x7fff_ffff
            },
        }
    }

    /// The message that opens the stream.
    fn start_message(&self) -> (m: MessageResponse)
        ensures
            m.deep_view() == start_message_model(self@.message_id, self@.message_model),
    {
        let m = MessageResponse {
            id: self.message_id.clone(),
            kind: "message".to_string(),
            role: "assistant".to_string(),
            content: Vec::new(),
            model: self.message_model.clone(),
            stop_reason: None,
            stop_sequence: None,
            usage: Usage {
                input_tokens: 0,
                cache_creation_input_tokens: 0,
                cache_read_input_tokens: 0,
                output_tokens: 0,
            },
            request_id: None,
        };
        assert(m.content.deep_view() =~= Seq::<OutputBlockModel>::empty());
        m
    }

    /// Opens a text block unless one is open, and adds non-empty text to it.
    fn add_text(&mut self, events: &mut Vec<StreamEvent>, content: &Option<String>)
        requires
            text_events(old(self)@.block_index, old(self)@.has_text_block, content.deep_view()).0
                <= i32::MAX,
        ensures
            ({
                let (i1, h1, e) = text_events(
                    old(self)@.block_index,
                    old(self)@.has_text_block,
                    content.deep_view(),
                );
                &&& final(self)@ == ConverterModel {
                    block_index: i1,
                    has_text_block: h1,
                    ..old(self)@
                }
                &&& final(events).deep_view() == old(events).deep_view() + e
            }),
    {
        proof {
            use_type_invariant(&*self);
        }
        let ghost ev0 = events.deep_view();
        if let Some(text) = content {
            if !self.has_text_block {
                self.has_text_block = true;
                self.block_index = self.block_index + 1;
                push_event(
                    events,
                    StreamEvent::ContentBlockStart(
                        ContentBlockStartEvent {
                            index: self.block_index as u32,
                            content_block: OutputContentBlock::Text { text: String::new() },
                        },
                    ),
                );
            }
            if !text.as_str().is_empty() {
                push_event(
                    events,
                    StreamEvent::ContentBlockDelta(
                        ContentBlockDeltaEvent {
                            index: self.block_index as u32,
                            delta: ContentBlockDelta::TextDelta { text: text.clone() },
                        },
                    ),
                );
            }
        }
        let ghost e = text_events(
            old(self)@.block_index,
            old(self)@.has_text_block,
            content.deep_view(),
        ).2;
        assert(events.deep_view() =~= ev0 + e);
    }

    /// Handles one tool call piece.
    fn add_tool_call(&mut self, events: &mut Vec<StreamEvent>, tc: &ChunkToolCall)
        requires
            tool_call_step(old(self)@.block_index, old(self)@.has_text_block, *tc).0 <= i32::MAX,
        ensures
            ({
                let (i1, h1, e) = tool_call_step(
                    old(self)@.block_index,
                    old(self)@.has_text_block,
                    *tc,
                );
                &&& final(self)@ == ConverterModel {
                    block_index: i1,
                    has_text_block: h1,
                    ..old(self)@
                }
                &&& final(events).deep_view() == old(events).deep_view() + e
            }),
    {
        proof {
            use_type_invariant(&*self);
        }
        let ghost ev0 = events.deep_view();
        if let Some(id) = &tc.id {
            if self.has_text_block {
                push_event(
                    events,
                    StreamEvent::ContentBlockStop(
                        ContentBlockStopEvent { index: self.block_index as u32 },
                    ),
                );
                self.has_text_block = false;
            }
            self.block_index = self.block_index + 1;
            let name = match &tc.function {
                Some(f) => match &f.name {
                    Some(n) => n.clone(),
                    None => String::new(),
                },
                None => String::new(),
            };
            assert(name@ =~= tool_call_name(*tc));
            push_event(
                events,
                StreamEvent::ContentBlockStart(
                    ContentBlockStartEvent {
                        index: self.block_index as u32,
                        content_block: OutputContentBlock::ToolUse {
                            id: id.clone(),
                            name,
                            input: JsonValue::empty_object(),
                        },
                    },
                ),
            );
        }
        if let Some(func) = &tc.function {
            if let Some(args) = &func.arguments {
                if !args.as_str().is_empty() {
                    push_event(
                        events,
                        StreamEvent::ContentBlockDelta(
                            ContentBlockDeltaEvent {
                                index: self.block_index as u32,
                                delta: ContentBlockDelta::InputJsonDelta {
                                    partial_json: args.clone(),
                                },
                            },
                        ),
                    );
                }
            }
        }
        let ghost e = tool_call_step(old(self)@.block_index, old(self)@.has_text_block, *tc).2;
        assert(events.deep_view() =~= ev0 + e);
    }

    /// Handles the tool call pieces of a delta, in order.
    fn add_tool_calls(&mut self, events: &mut Vec<StreamEvent>, tool_calls: &Vec<ChunkToolCall>)
        requires
            tool_call_events(old(self)@.block_index, old(self)@.has_text_block, tool_calls@).0
                <= i32::MAX,
        ensures
            ({
                let (i1, h1, e) = tool_call_events(
                    old(self)@.block_index,
                    old(self)@.has_text_block,
                    tool_calls@,
                );
                &&& final(self)@ == ConverterModel {
                    block_index: i1,
                    has_text_block: h1,
                    ..old(self)@
                }
                &&& final(events).deep_view() == old(events).deep_view() + e
            }),
    {
        let ghost s0 = self@;
        let ghost calls = tool_calls@;
        let ghost before = events.deep_view();
        let mut k: usize = 0;
        assert(calls.take(0) =~= Seq::<ChunkToolCall>::empty());
        assert(before + Seq::<StreamEventModel>::empty() =~= before);
        while k < tool_calls.len()
            invariant
                calls == tool_calls@,
                0 <= k <= calls.len(),
                tool_call_events(s0.block_index, s0.has_text_block, calls).0 <= i32::MAX,
                ({
                    let (i1, h1, e) = tool_call_events(
                        s0.block_index,
                        s0.has_text_block,
                        calls.take(k as int),
                    );
                    &&& self@ == ConverterModel { block_index: i1, has_text_block: h1, ..s0 }
                    &&& events.deep_view() == before + e
                }),
            decreases calls.len() - k,
        {
            assert(calls.take(k + 1).drop_last() =~= calls.take(k as int));
            assert(calls.take(k + 1).last() == calls[k as int]);
            proof {
                lemma_tool_index_prefix(s0.block_index, s0.has_text_block, calls, k + 1);
            }
            self.add_tool_call(events, &tool_calls[k]);
            let ghost e0 = tool_call_events(s0.block_index, s0.has_text_block, calls.take(k as int)).2;
            let ghost t0 = tool_call_events(s0.block_index, s0.has_text_block, calls.take(k as int));
            let ghost e1 = tool_call_step(t0.0, t0.1, calls[k as int]).2;
            assert(before + e0 + e1 =~= before + (e0 + e1));
            k = k + 1;
        }
        assert(calls.take(calls.len() as int) =~= calls);
    }

    /// Closes the current block and stops the message.
    fn finish_message(
        &mut self,
        events: &mut Vec<StreamEvent>,
        reason: &String,
        usage: Option<ChatUsage>,
    )
        ensures
            final(self)@ == old(self)@,
            final(events).deep_view() == old(events).deep_view() + finish_events(
                old(self)@.block_index,
                reason@,
                usage,
            ),
    {
        proof {
            use_type_invariant(&*self);
        }
        let ghost ev0 = events.deep_view();
        if self.block_index >= 0 {
            push_event(
                events,
                StreamEvent::ContentBlockStop(
                    ContentBlockStopEvent { index: self.block_index as u32 },
                ),
            );
        }
        let stop_reason = map_finish_reason(reason.as_str());
        let u = match usage {
            Some(u) => u,
            None => ChatUsage { prompt_tokens: 0, completion_tokens: 0 },
        };
        self.emit_usage(events, &u, Some(stop_reason));
        push_event(events, StreamEvent::MessageStop(MessageStopEvent {  }));
        assert(events.deep_view() =~= ev0 + finish_events(self@.block_index, reason@, usage));
    }

    /// Processes one OpenAI chunk and produces zero or more stream events.
    pub fn process_chunk(&mut self, chunk: ChatCompletionChunk) -> (events: Vec<StreamEvent>)
        requires
            converter_step(old(self)@, chunk).0.block_index <= i32::MAX,
        ensures
            final(self)@ == converter_step(old(self)@, chunk).0,
            events.deep_view() == converter_step(old(self)@, chunk).1,
            0 <= old(self)@.block_index <= final(self)@.block_index <= i32::MAX,
    {
        proof {
            use_type_invariant(&*self);
        }
        let ghost s0 = self@;
        let ghost result = converter_step(s0, chunk);
        let mut events: Vec<StreamEvent> = Vec::new();
        if !chunk.id.as_str().is_empty() {
            self.message_id = chunk.id.clone();
        }
        if !chunk.model.as_str().is_empty() {
            self.message_model = chunk.model.clone();
        }
        let ChatCompletionChunk { id: _, model: _, choices, usage } = chunk;
        let mut choices = choices;
        if choices.len() == 0 {
            if let Some(u) = &usage {
                self.emit_usage(&mut events, u, None);
            }
            assert(events.deep_view() =~= result.1);
            return events;
        }
        let choice = choices.remove(0);
        if !self.message_started {
            self.message_started = true;
            let message = self.start_message();
            push_event(&mut events, StreamEvent::MessageStart(MessageStartEvent { message }));
        }
        let ChunkChoice { delta, finish_reason } = choice;
        let ghost (i1, h1, text) = text_events(
            s0.block_index,
            s0.has_text_block,
            delta.content.deep_view(),
        );
        proof {
            lemma_tool_calls_part_grows(i1, h1, delta.tool_calls);
        }
        self.add_text(&mut events, &delta.content);
        if let Some(tool_calls) = &delta.tool_calls {
            self.add_tool_calls(&mut events, tool_calls);
        }
        if let Some(reason) = &finish_reason {
            self.finish_message(&mut events, reason, usage);
        }
        assert(events.deep_view() =~= result.1);
        events
    }

    /// Appends the event that reports `usage` and `stop_reason`.
    fn emit_usage(&self, events: &mut Vec<StreamEvent>, usage: &ChatUsage, stop_reason: Option<String>)
        ensures
            final(events).deep_view() == old(events).deep_view().push(
                usage_event(*usage, stop_reason.deep_view()),
            ),
    {
        push_event(
            events,
            StreamEvent::MessageDelta(
                MessageDeltaEvent {
                    delta: MessageDelta { stop_reason, stop_sequence: None },
                    usage: Usage {
                        input_tokens: usage.prompt_tokens,
                        cache_creation_input_tokens: 0,
                        cache_read_input_tokens: 0,
                        output_tokens: usage.completion_tokens,
                    },
                },
            ),
        );
    }
}

} // verus!
