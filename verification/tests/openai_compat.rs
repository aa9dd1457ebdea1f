use api::json::JsonValue;
use api::openai_compat::{
    from_chat_response, map_finish_reason, to_chat_request, ChatChoice, ChatChoiceMessage,
    ChatCompletionChunk, ChatCompletionResponse, ChatFunctionCall, ChatToolCall,
    ChatToolChoiceValue, ChatUsage, ChunkChoice, ChunkDelta, ChunkFunction, ChunkToolCall,
    OpenAiStreamConverter,
};
use api::types::{
    ContentBlockDelta, InputContentBlock, InputMessage, MessageRequest, OutputContentBlock,
    StreamEvent, ToolChoice, ToolDefinition, ToolResultContentBlock,
};

fn json(text: &str) -> JsonValue {
    JsonValue::parse(text).expect("valid JSON")
}

fn text_chunk(id: &str, model: &str, content: Option<&str>, finish: Option<&str>, usage: Option<ChatUsage>) -> ChatCompletionChunk {
    ChatCompletionChunk {
        id: id.to_string(),
        model: model.to_string(),
        choices: vec![ChunkChoice {
            delta: ChunkDelta {
                role: None,
                content: content.map(|c| c.to_string()),
                tool_calls: None,
            },
            finish_reason: finish.map(|f| f.to_string()),
        }],
        usage,
    }
}

#[test]
fn converts_simple_request() {
    let request = MessageRequest {
        model: "openai/gpt-4o".to_string(),
        max_tokens: 4096,
        messages: vec![InputMessage::user_text("Hello")],
        system: Some("You are helpful.".to_string()),
        tools: None,
        tool_choice: None,
        stream: false,
    };

    let chat_req = to_chat_request(&request);
    assert_eq!(chat_req.messages.len(), 2);
    assert_eq!(chat_req.messages[0].role, "system");
    assert_eq!(chat_req.messages[0].content.as_deref(), Some("You are helpful."));
    assert_eq!(chat_req.messages[1].role, "user");
    assert_eq!(chat_req.messages[1].content.as_deref(), Some("Hello"));
}

#[test]
fn converts_tool_result_to_tool_message() {
    let request = MessageRequest {
        model: "test".to_string(),
        max_tokens: 100,
        messages: vec![InputMessage::user_tool_result("call_1", "result text", false)],
        system: None,
        tools: None,
        tool_choice: None,
        stream: false,
    };

    let chat_req = to_chat_request(&request);
    assert_eq!(chat_req.messages.len(), 1);
    assert_eq!(chat_req.messages[0].role, "tool");
    assert_eq!(chat_req.messages[0].tool_call_id.as_deref(), Some("call_1"));
}

#[test]
fn converts_assistant_tool_use() {
    let request = MessageRequest {
        model: "test".to_string(),
        max_tokens: 100,
        messages: vec![InputMessage {
            role: "assistant".to_string(),
            content: vec![InputContentBlock::ToolUse {
                id: "call_1".to_string(),
                name: "read_file".to_string(),
                input: json(r#"{"path": "/tmp/test"}"#),
            }],
        }],
        system: None,
        tools: None,
        tool_choice: None,
        stream: false,
    };

    let chat_req = to_chat_request(&request);
    assert_eq!(chat_req.messages.len(), 1);
    assert_eq!(chat_req.messages[0].role, "assistant");
    assert!(chat_req.messages[0].content.is_none());
    let tc = chat_req.messages[0].tool_calls.as_ref().unwrap();
    assert_eq!(tc[0].function.name, "read_file");
}

#[test]
fn converts_tool_definitions() {
    let request = MessageRequest {
        model: "test".to_string(),
        max_tokens: 100,
        messages: vec![],
        system: None,
        tools: Some(vec![ToolDefinition {
            name: "read_file".to_string(),
            description: Some("Read a file".to_string()),
            input_schema: json(
                r#"{"type": "object", "properties": {"path": {"type": "string"}}}"#,
            ),
        }]),
        tool_choice: Some(ToolChoice::Auto),
        stream: false,
    };

    let chat_req = to_chat_request(&request);
    let tools = chat_req.tools.unwrap();
    assert_eq!(tools[0].kind, "function");
    assert_eq!(tools[0].function.name, "read_file");
    assert_eq!(
        chat_req.tool_choice.map(|tc| match tc {
            ChatToolChoiceValue::String(s) => s,
            _ => panic!("expected string"),
        }),
        Some("auto".to_string())
    );
}

#[test]
fn converts_non_streaming_response() {
    let response = ChatCompletionResponse {
        id: "chatcmpl-123".to_string(),
        model: "openai/gpt-4o".to_string(),
        choices: vec![ChatChoice {
            message: ChatChoiceMessage {
                content: Some("Hello!".to_string()),
                tool_calls: None,
            },
            finish_reason: Some("stop".to_string()),
        }],
        usage: Some(ChatUsage {
            prompt_tokens: 10,
            completion_tokens: 5,
        }),
    };

    let msg = from_chat_response(response);
    assert_eq!(msg.id, "chatcmpl-123");
    assert_eq!(msg.stop_reason.as_deref(), Some("end_turn"));
    assert_eq!(msg.content.len(), 1);
    assert_eq!(msg.usage.input_tokens, 10);
    assert_eq!(msg.usage.output_tokens, 5);
}

#[test]
fn stream_converter_produces_events_for_text() {
    let mut converter = OpenAiStreamConverter::new();

    let chunk = ChatCompletionChunk {
        id: "chatcmpl-1".to_string(),
        model: "test-model".to_string(),
        choices: vec![ChunkChoice {
            delta: ChunkDelta {
                role: Some("assistant".to_string()),
                content: Some("Hello".to_string()),
                tool_calls: None,
            },
            finish_reason: None,
        }],
        usage: None,
    };

    let events = converter.process_chunk(chunk);
    assert!(events.len() >= 3);
    assert!(matches!(events[0], StreamEvent::MessageStart(_)));
    assert!(matches!(events[1], StreamEvent::ContentBlockStart(_)));
    assert!(matches!(events[2], StreamEvent::ContentBlockDelta(_)));
}

#[test]
fn stream_converter_handles_finish() {
    let mut converter = OpenAiStreamConverter::new();

    let _ = converter.process_chunk(text_chunk("c1", "m", Some("Hi"), None, None));

    let events = converter.process_chunk(text_chunk(
        "c1",
        "m",
        None,
        Some("stop"),
        Some(ChatUsage {
            prompt_tokens: 10,
            completion_tokens: 5,
        }),
    ));

    assert!(events.iter().any(|e| matches!(e, StreamEvent::ContentBlockStop(_))));
    assert!(events.iter().any(|e| matches!(e, StreamEvent::MessageDelta(_))));
    assert!(events.iter().any(|e| matches!(e, StreamEvent::MessageStop(_))));
}

#[test]
fn maps_finish_reasons() {
    assert_eq!(map_finish_reason("stop"), "end_turn");
    assert_eq!(map_finish_reason("tool_calls"), "tool_use");
    assert_eq!(map_finish_reason("length"), "max_tokens");
    assert_eq!(map_finish_reason("other"), "other");
}

fn request_with(messages: Vec<InputMessage>) -> MessageRequest {
    MessageRequest {
        model: "m".to_string(),
        max_tokens: 7,
        messages,
        system: None,
        tools: None,
        tool_choice: None,
        stream: false,
    }
}

fn tool_chunk(calls: Vec<ChunkToolCall>, finish: Option<&str>) -> ChatCompletionChunk {
    ChatCompletionChunk {
        id: String::new(),
        model: String::new(),
        choices: vec![ChunkChoice {
            delta: ChunkDelta { role: None, content: None, tool_calls: Some(calls) },
            finish_reason: finish.map(|f| f.to_string()),
        }],
        usage: None,
    }
}

fn call(id: Option<&str>, name: Option<&str>, args: Option<&str>) -> ChunkToolCall {
    ChunkToolCall {
        index: 0,
        id: id.map(|s| s.to_string()),
        function: Some(ChunkFunction {
            name: name.map(|s| s.to_string()),
            arguments: args.map(|s| s.to_string()),
        }),
    }
}

fn opened(events: &[StreamEvent]) -> Vec<u32> {
    events
        .iter()
        .filter_map(|e| match e {
            StreamEvent::ContentBlockStart(s) => Some(s.index),
            _ => None,
        })
        .collect()
}

#[test]
fn json_values_are_held_as_compact_text() {
    assert_eq!(json(r#"{ "a" : [1, 2] }"#).as_str(), r#"{"a":[1,2]}"#);
    assert!(JsonValue::parse("{not json").is_none());
    assert_eq!(JsonValue::empty_object().as_str(), "{}");
}

#[test]
fn stream_settings_and_system_prompt() {
    let mut request = request_with(vec![InputMessage::user_text("Hi")]);
    request.system = Some("sys".to_string());
    request.stream = true;
    let chat_req = to_chat_request(&request);
    assert_eq!(chat_req.model, "m");
    assert_eq!(chat_req.max_tokens, Some(7));
    assert!(chat_req.stream);
    assert_eq!(chat_req.stream_options.map(|o| o.include_usage), Some(true));
    assert_eq!(chat_req.messages[0].role, "system");
    assert_eq!(to_chat_request(&request_with(vec![])).stream_options, None);
}

#[test]
fn tool_result_text_joins_blocks_and_marks_errors() {
    let request = request_with(vec![InputMessage {
        role: "user".to_string(),
        content: vec![
            InputContentBlock::Text { text: "look".to_string() },
            InputContentBlock::ToolResult {
                tool_use_id: "t1".to_string(),
                content: vec![
                    ToolResultContentBlock::Text { text: "line".to_string() },
                    ToolResultContentBlock::Json { value: json(r#"{"ok": false}"#) },
                ],
                is_error: true,
            },
            InputContentBlock::Text { text: "again".to_string() },
        ],
    }]);
    let chat_req = to_chat_request(&request);
    assert_eq!(chat_req.messages.len(), 2);
    assert_eq!(chat_req.messages[0].role, "user");
    assert_eq!(chat_req.messages[0].content.as_deref(), Some("look\nagain"));
    assert_eq!(chat_req.messages[1].role, "tool");
    assert_eq!(chat_req.messages[1].tool_call_id.as_deref(), Some("t1"));
    assert_eq!(chat_req.messages[1].content.as_deref(), Some("[ERROR] line\n{\"ok\":false}"));
}

#[test]
fn assistant_texts_run_together_with_tool_calls() {
    let request = request_with(vec![InputMessage {
        role: "assistant".to_string(),
        content: vec![
            InputContentBlock::Text { text: "a".to_string() },
            InputContentBlock::ToolUse {
                id: "c".to_string(),
                name: "f".to_string(),
                input: json(r#"{"x": 1}"#),
            },
            InputContentBlock::Text { text: "b".to_string() },
        ],
    }]);
    let chat_req = to_chat_request(&request);
    assert_eq!(chat_req.messages.len(), 1);
    assert_eq!(chat_req.messages[0].content.as_deref(), Some("ab"));
    let calls = chat_req.messages[0].tool_calls.as_ref().unwrap();
    assert_eq!(calls.len(), 1);
    assert_eq!(calls[0].kind, "function");
    assert_eq!(calls[0].function.arguments, r#"{"x":1}"#);
}

#[test]
fn empty_user_message_gives_no_chat_message() {
    let chat_req = to_chat_request(&request_with(vec![InputMessage {
        role: "user".to_string(),
        content: vec![],
    }]));
    assert!(chat_req.messages.is_empty());
}

#[test]
fn converts_tool_choices() {
    let mut request = request_with(vec![]);
    request.tool_choice = Some(ToolChoice::Any);
    match to_chat_request(&request).tool_choice {
        Some(ChatToolChoiceValue::String(s)) => assert_eq!(s, "required"),
        other => panic!("unexpected {other:?}"),
    }
    request.tool_choice = Some(ToolChoice::Tool { name: "read".to_string() });
    match to_chat_request(&request).tool_choice {
        Some(ChatToolChoiceValue::Named { kind, function }) => {
            assert_eq!(kind, "function");
            assert_eq!(function.name, "read");
        }
        other => panic!("unexpected {other:?}"),
    }
}

#[test]
fn response_tool_calls_read_their_arguments() {
    let response = ChatCompletionResponse {
        id: "r".to_string(),
        model: "m".to_string(),
        choices: vec![ChatChoice {
            message: ChatChoiceMessage {
                content: Some(String::new()),
                tool_calls: Some(vec![
                    ChatToolCall {
                        id: "c1".to_string(),
                        kind: "function".to_string(),
                        function: ChatFunctionCall {
                            name: "f".to_string(),
                            arguments: r#"{ "p": "/x" }"#.to_string(),
                        },
                    },
                    ChatToolCall {
                        id: "c2".to_string(),
                        kind: "function".to_string(),
                        function: ChatFunctionCall {
                            name: "g".to_string(),
                            arguments: "not json".to_string(),
                        },
                    },
                ]),
            },
            finish_reason: Some("tool_calls".to_string()),
        }],
        usage: None,
    };
    let msg = from_chat_response(response);
    assert_eq!(msg.kind, "message");
    assert_eq!(msg.role, "assistant");
    assert_eq!(msg.stop_reason.as_deref(), Some("tool_use"));
    assert_eq!(msg.usage.input_tokens, 0);
    assert_eq!(msg.content.len(), 2);
    match &msg.content[0] {
        OutputContentBlock::ToolUse { id, name, input } => {
            assert_eq!(id, "c1");
            assert_eq!(name, "f");
            assert_eq!(input.as_str(), r#"{"p":"/x"}"#);
        }
        other => panic!("unexpected {other:?}"),
    }
    match &msg.content[1] {
        OutputContentBlock::ToolUse { input, .. } => assert_eq!(input.as_str(), "{}"),
        other => panic!("unexpected {other:?}"),
    }
}

#[test]
fn response_without_choices_is_empty() {
    let msg = from_chat_response(ChatCompletionResponse {
        id: "r".to_string(),
        model: "m".to_string(),
        choices: vec![],
        usage: None,
    });
    assert!(msg.content.is_empty());
    assert_eq!(msg.stop_reason, None);
}

#[test]
fn message_starts_once() {
    let mut converter = OpenAiStreamConverter::new();
    let mut starts = 0;
    for chunk in [
        text_chunk("c", "m", Some("a"), None, None),
        text_chunk("c", "m", Some("b"), None, None),
        text_chunk("c", "m", None, Some("stop"), None),
    ] {
        starts += converter
            .process_chunk(chunk)
            .iter()
            .filter(|e| matches!(e, StreamEvent::MessageStart(_)))
            .count();
    }
    assert_eq!(starts, 1);
}

#[test]
fn usage_only_chunk_reports_usage() {
    let mut converter = OpenAiStreamConverter::new();
    let events = converter.process_chunk(ChatCompletionChunk {
        id: String::new(),
        model: String::new(),
        choices: vec![],
        usage: Some(ChatUsage { prompt_tokens: 3, completion_tokens: 4 }),
    });
    assert_eq!(events.len(), 1);
    match &events[0] {
        StreamEvent::MessageDelta(d) => {
            assert_eq!(d.delta.stop_reason, None);
            assert_eq!(d.usage.input_tokens, 3);
            assert_eq!(d.usage.output_tokens, 4);
        }
        other => panic!("unexpected {other:?}"),
    }
}

#[test]
fn tool_calls_open_fresh_blocks() {
    let mut converter = OpenAiStreamConverter::new();
    let first = converter.process_chunk(text_chunk("c", "model-x", Some("thinking"), None, None));
    match &first[0] {
        StreamEvent::MessageStart(s) => {
            assert_eq!(s.message.id, "c");
            assert_eq!(s.message.model, "model-x");
        }
        other => panic!("unexpected {other:?}"),
    }
    let second = converter.process_chunk(tool_chunk(
        vec![
            call(Some("t1"), Some("read"), Some("{\"p\":")),
            call(None, None, Some("1}")),
            call(Some("t2"), None, None),
        ],
        Some("tool_calls"),
    ));
    assert!(matches!(&second[0], StreamEvent::ContentBlockStop(s) if s.index == 1));
    let mut all = first;
    all.extend(second);
    assert_eq!(opened(&all), vec![1, 2, 3]);
    let deltas: Vec<String> = all
        .iter()
        .filter_map(|e| match e {
            StreamEvent::ContentBlockDelta(d) => match &d.delta {
                ContentBlockDelta::InputJsonDelta { partial_json } => Some(format!("{}:{}", d.index, partial_json)),
                ContentBlockDelta::TextDelta { text } => Some(format!("{}:{}", d.index, text)),
            },
            _ => None,
        })
        .collect();
    assert_eq!(deltas, vec!["1:thinking", "2:{\"p\":", "2:1}"]);
    let n = all.len();
    assert!(matches!(&all[n - 3], StreamEvent::ContentBlockStop(s) if s.index == 3));
    match &all[n - 2] {
        StreamEvent::MessageDelta(d) => assert_eq!(d.delta.stop_reason.as_deref(), Some("tool_use")),
        other => panic!("unexpected {other:?}"),
    }
    assert!(matches!(all[n - 1], StreamEvent::MessageStop(_)));
    match all.iter().find(|e| matches!(e, StreamEvent::ContentBlockStart(s) if s.index == 3)) {
        Some(StreamEvent::ContentBlockStart(s)) => match &s.content_block {
            OutputContentBlock::ToolUse { id, name, input } => {
                assert_eq!(id, "t2");
                assert_eq!(name, "");
                assert_eq!(input.as_str(), "{}");
            }
            other => panic!("unexpected {other:?}"),
        },
        other => panic!("unexpected {other:?}"),
    }
}

#[test]
fn empty_text_opens_block_without_delta() {
    let mut converter = OpenAiStreamConverter::new();
    let _ = converter.process_chunk(text_chunk("c", "m", None, None, None));
    let events = converter.process_chunk(text_chunk("c", "m", Some(""), None, None));
    assert_eq!(events.len(), 1);
    match &events[0] {
        StreamEvent::ContentBlockStart(s) => {
            assert_eq!(s.index, 1);
            assert!(matches!(&s.content_block, OutputContentBlock::Text { text } if text.is_empty()));
        }
        other => panic!("unexpected {other:?}"),
    }
}

#[test]
fn message_start_carries_last_reported_id_and_model() {
    let mut converter = OpenAiStreamConverter::new();
    let first = converter.process_chunk(ChatCompletionChunk {
        id: "early".to_string(),
        model: "model-a".to_string(),
        choices: vec![],
        usage: None,
    });
    assert!(first.is_empty());
    let events = converter.process_chunk(text_chunk("", "", Some("x"), None, None));
    match &events[0] {
        StreamEvent::MessageStart(s) => {
            assert_eq!(s.message.id, "early");
            assert_eq!(s.message.model, "model-a");
            assert_eq!(s.message.kind, "message");
            assert_eq!(s.message.role, "assistant");
            assert!(s.message.content.is_empty());
            assert_eq!(s.message.stop_reason, None);
            assert_eq!(s.message.usage.output_tokens, 0);
        }
        other => panic!("unexpected {other:?}"),
    }
}

#[test]
fn finish_without_blocks_stops_index_zero() {
    let mut converter = OpenAiStreamConverter::new();
    let events = converter.process_chunk(text_chunk("c", "m", None, Some("length"), None));
    assert_eq!(events.len(), 4);
    assert!(matches!(&events[1], StreamEvent::ContentBlockStop(s) if s.index == 0));
    match &events[2] {
        StreamEvent::MessageDelta(d) => {
            assert_eq!(d.delta.stop_reason.as_deref(), Some("max_tokens"));
            assert_eq!(d.delta.stop_sequence, None);
            assert_eq!(d.usage.input_tokens, 0);
        }
        other => panic!("unexpected {other:?}"),
    }
    assert!(matches!(events[3], StreamEvent::MessageStop(_)));
}

#[test]
fn no_finish_reason_means_no_message_end() {
    let mut converter = OpenAiStreamConverter::new();
    let events = converter.process_chunk(tool_chunk(vec![call(Some("t"), Some("f"), Some("{}"))], None));
    assert!(!events
        .iter()
        .any(|e| matches!(e, StreamEvent::MessageDelta(_) | StreamEvent::MessageStop(_))));
}
