//! The internal message model: requests, responses and stream events, with
//! the mathematical model of each output type.

use vstd::prelude::*;

use crate::json::JsonValue;

verus! {

/// A request to the messages API.
#[derive(Debug)]
pub struct MessageRequest {
    pub model: String,
    pub max_tokens: u32,
    pub messages: Vec<InputMessage>,
    pub system: Option<String>,
    pub tools: Option<Vec<ToolDefinition>>,
    pub tool_choice: Option<ToolChoice>,
    pub stream: bool,
}

/// One message of a conversation.
#[derive(Debug)]
pub struct InputMessage {
    pub role: String,
    pub content: Vec<InputContentBlock>,
}

/// A block of a message's content.
#[derive(Debug)]
pub enum InputContentBlock {
    Text { text: String },
    ToolUse { id: String, name: String, input: JsonValue },
    ToolResult { tool_use_id: String, content: Vec<ToolResultContentBlock>, is_error: bool },
}

/// A block of a tool result's content.
#[derive(Debug)]
pub enum ToolResultContentBlock {
    Text { text: String },
    Json { value: JsonValue },
}

/// A tool that the model may call.
#[derive(Debug)]
pub struct ToolDefinition {
    pub name: String,
    pub description: Option<String>,
    pub input_schema: JsonValue,
}

/// How the model is to choose a tool.
#[derive(Debug)]
pub enum ToolChoice {
    Auto,
    Any,
    Tool { name: String },
}

/// Token counts of a response.
#[derive(Debug, Clone, Copy, PartialEq, Eq)]
pub struct Usage {
    pub input_tokens: u32,
    pub cache_creation_input_tokens: u32,
    pub cache_read_input_tokens: u32,
    pub output_tokens: u32,
}

/// A block of a response's content.
#[derive(Debug)]
pub enum OutputContentBlock {
    Text { text: String },
    ToolUse { id: String, name: String, input: JsonValue },
}

/// A complete response of the messages API.
#[derive(Debug)]
pub struct MessageResponse {
    pub id: String,
    pub kind: String,
    pub role: String,
    pub content: Vec<OutputContentBlock>,
    pub model: String,
    pub stop_reason: Option<String>,
    pub stop_sequence: Option<String>,
    pub usage: Usage,
    pub request_id: Option<String>,
}

/// The opening event of a streamed message.
#[derive(Debug)]
pub struct MessageStartEvent {
    pub message: MessageResponse,
}

/// The closing facts of a streamed message.
#[derive(Debug)]
pub struct MessageDelta {
    pub stop_reason: Option<String>,
    pub stop_sequence: Option<String>,
}

/// The event that carries a message's stop reason and usage.
#[derive(Debug)]
pub struct MessageDeltaEvent {
    pub delta: MessageDelta,
    pub usage: Usage,
}

/// The event that opens a content block.
#[derive(Debug)]
pub struct ContentBlockStartEvent {
    pub index: u32,
    pub content_block: OutputContentBlock,
}

/// A piece of a content block.
#[derive(Debug)]
pub enum ContentBlockDelta {
    TextDelta { text: String },
    InputJsonDelta { partial_json: String },
}

/// The event that carries a piece of a content block.
#[derive(Debug)]
pub struct ContentBlockDeltaEvent {
    pub index: u32,
    pub delta: ContentBlockDelta,
}

/// The event that closes a content block.
#[derive(Debug)]
pub struct ContentBlockStopEvent {
    pub index: u32,
}

/// The event that closes a streamed message.
#[derive(Debug)]
pub struct MessageStopEvent {}

/// An event of a streamed message.
#[derive(Debug)]
pub enum StreamEvent {
    MessageStart(MessageStartEvent),
    MessageDelta(MessageDeltaEvent),
    ContentBlockStart(ContentBlockStartEvent),
    ContentBlockDelta(ContentBlockDeltaEvent),
    ContentBlockStop(ContentBlockStopEvent),
    MessageStop(MessageStopEvent),
}

/// The model of an output content block.
pub enum OutputBlockModel {
    Text { text: Seq<char> },
    ToolUse { id: Seq<char>, name: Seq<char>, input: Seq<char> },
}

/// The model of a response.
pub struct MessageResponseModel {
    pub id: Seq<char>,
    pub kind: Seq<char>,
    pub role: Seq<char>,
    pub content: Seq<OutputBlockModel>,
    pub model: Seq<char>,
    pub stop_reason: Option<Seq<char>>,
    pub stop_sequence: Option<Seq<char>>,
    pub usage: Usage,
    pub request_id: Option<Seq<char>>,
}

/// The model of a piece of a content block.
pub enum BlockDeltaModel {
    TextDelta { text: Seq<char> },
    InputJsonDelta { partial_json: Seq<char> },
}

/// The model of a stream event.
pub enum StreamEventModel {
    MessageStart { message: MessageResponseModel },
    MessageDelta { stop_reason: Option<Seq<char>>, stop_sequence: Option<Seq<char>>, usage: Usage },
    ContentBlockStart { index: u32, content_block: OutputBlockModel },
    ContentBlockDelta { index: u32, delta: BlockDeltaModel },
    ContentBlockStop { index: u32 },
    MessageStop,
}

impl DeepView for Usage {
    type V = Usage;

    open spec fn deep_view(&self) -> Usage {
        *self
    }
}

impl DeepView for OutputContentBlock {
    type V = OutputBlockModel;

    open spec fn deep_view(&self) -> OutputBlockModel {
        match self {
            OutputContentBlock::Text { text } => OutputBlockModel::Text { text: text@ },
            OutputContentBlock::ToolUse { id, name, input } => OutputBlockModel::ToolUse {
                id: id@,
                name: name@,
                input: input.deep_view(),
            },
        }
    }
}

impl DeepView for MessageResponse {
    type V = MessageResponseModel;

    open spec fn deep_view(&self) -> MessageResponseModel {
        MessageResponseModel {
            id: self.id@,
            kind: self.kind@,
            role: self.role@,
            content: self.content.deep_view(),
            model: self.model@,
            stop_reason: self.stop_reason.deep_view(),
            stop_sequence: self.stop_sequence.deep_view(),
            usage: self.usage,
            request_id: self.request_id.deep_view(),
        }
    }
}

impl DeepView for ContentBlockDelta {
    type V = BlockDeltaModel;

    open spec fn deep_view(&self) -> BlockDeltaModel {
        match self {
            ContentBlockDelta::TextDelta { text } => BlockDeltaModel::TextDelta { text: text@ },
            ContentBlockDelta::InputJsonDelta { partial_json } => BlockDeltaModel::InputJsonDelta {
                partial_json: partial_json@,
            },
        }
    }
}

impl DeepView for StreamEvent {
    type V = StreamEventModel;

    open spec fn deep_view(&self) -> StreamEventModel {
        match self {
            StreamEvent::MessageStart(e) => StreamEventModel::MessageStart {
                message: e.message.deep_view(),
            },
            StreamEvent::MessageDelta(e) => StreamEventModel::MessageDelta {
                stop_reason: e.delta.stop_reason.deep_view(),
                stop_sequence: e.delta.stop_sequence.deep_view(),
                usage: e.usage,
            },
            StreamEvent::ContentBlockStart(e) => StreamEventModel::ContentBlockStart {
                index: e.index,
                content_block: e.content_block.deep_view(),
            },
            StreamEvent::ContentBlockDelta(e) => StreamEventModel::ContentBlockDelta {
                index: e.index,
                delta: e.delta.deep_view(),
            },
            StreamEvent::ContentBlockStop(e) => StreamEventModel::ContentBlockStop { index: e.index },
            StreamEvent::MessageStop(_) => StreamEventModel::MessageStop,
        }
    }
}

/// A usage of zero tokens.
pub open spec fn zero_usage() -> Usage {
    Usage {
        input_tokens: 0,
        cache_creation_input_tokens: 0,
        cache_read_input_tokens: 0,
        output_tokens: 0,
    }
}

/// The text `user`.
pub open spec fn user_role() -> Seq<char> {
    seq!['u', 's', 'e', 'r']
}

impl InputMessage {
    /// A user message of one text block.
    pub fn user_text(text: &str) -> (m: InputMessage)
        ensures
            m.role@ == user_role(),
            m.content@.len() == 1,
            m.content@[0] matches InputContentBlock::Text { text: t } && t@ == text@,
    {
        let role = "user".to_string();
        proof {
            reveal_strlit("user");
        }
        assert(role@ =~= user_role());
        let mut content = Vec::new();
        content.push(InputContentBlock::Text { text: text.to_string() });
        InputMessage { role, content }
    }

    /// A user message of one tool result, whose content is one text block.
    pub fn user_tool_result(tool_use_id: &str, content: &str, is_error: bool) -> (m: InputMessage)
        ensures
            m.role@ == user_role(),
            m.content@.len() == 1,
            m.content@[0] matches InputContentBlock::ToolResult {
                tool_use_id: id,
                content: c,
                is_error: e,
            } && id@ == tool_use_id@ && e == is_error && c@.len() == 1 && (c@[0] matches
                ToolResultContentBlock::Text { text: t } && t@ == content@),
    {
        let role = "user".to_string();
        proof {
            reveal_strlit("user");
        }
        assert(role@ =~= user_role());
        let mut blocks = Vec::new();
        blocks.push(ToolResultContentBlock::Text { text: content.to_string() });
        let mut c = Vec::new();
        c.push(
            InputContentBlock::ToolResult {
                tool_use_id: tool_use_id.to_string(),
                content: blocks,
                is_error,
            },
        );
        InputMessage { role, content: c }
    }
}

} // verus!
