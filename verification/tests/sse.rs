use api::openai_compat::{
    ChatCompletionChunk, ChatUsage, ChunkChoice, ChunkDelta, ChunkFunction, ChunkToolCall,
};
use api::sse::{extract_data_payload, SseParser};
use api::types::{ContentBlockDelta, StreamEvent};
use serde_json::Value;

fn opt_string(v: &Value, key: &str) -> Option<String> {
    v.get(key).and_then(|x| x.as_str()).map(|s| s.to_string())
}

/// Reads a chunk of the OpenAI stream format by hand, as the wire format's
/// deserializer does.
fn read_chunk(payload: &str) -> Result<ChatCompletionChunk, String> {
    let v: Value = serde_json::from_str(payload).map_err(|e| e.to_string())?;
    let choices = v
        .get("choices")
        .and_then(|c| c.as_array())
        .ok_or_else(|| "missing choices".to_string())?;
    let choices = choices
        .iter()
        .map(|c| {
            let delta = c.get("delta").cloned().unwrap_or(Value::Null);
            let tool_calls = match delta.get("tool_calls").and_then(|t| t.as_array()) {
                Some(calls) => Some(
                    calls
                        .iter()
                        .map(|tc| {
                            let index = tc
                                .get("index")
                                .and_then(|i| i.as_u64())
                                .ok_or_else(|| "missing index".to_string())?;
                            Ok(ChunkToolCall {
                                index: index as u32,
                                id: opt_string(tc, "id"),
                                function: tc.get("function").map(|f| ChunkFunction {
                                    name: opt_string(f, "name"),
                                    arguments: opt_string(f, "arguments"),
                                }),
                            })
                        })
                        .collect::<Result<Vec<_>, String>>()?,
                ),
                None => None,
            };
            Ok(ChunkChoice {
                delta: ChunkDelta {
                    role: opt_string(&delta, "role"),
                    content: opt_string(&delta, "content"),
                    tool_calls,
                },
                finish_reason: opt_string(c, "finish_reason"),
            })
        })
        .collect::<Result<Vec<_>, String>>()?;
    let usage = v.get("usage").filter(|u| !u.is_null()).map(|u| ChatUsage {
        prompt_tokens: u.get("prompt_tokens").and_then(|x| x.as_u64()).unwrap_or(0) as u32,
        completion_tokens: u.get("completion_tokens").and_then(|x| x.as_u64()).unwrap_or(0) as u32,
    });
    Ok(ChatCompletionChunk {
        id: opt_string(&v, "id").unwrap_or_default(),
        model: opt_string(&v, "model").unwrap_or_default(),
        choices,
        usage,
    })
}

/// Pushes raw bytes and returns the stream events of the complete frames.
fn push(parser: &mut SseParser, bytes: &[u8]) -> Result<Vec<StreamEvent>, String> {
    parser.push_bytes(bytes);
    let mut events = Vec::new();
    while let Some(payload) = parser.next_payload() {
        let chunk = read_chunk(&payload)?;
        assert!(parser.can_accept(&chunk));
        events.extend(parser.accept_chunk(chunk));
    }
    Ok(events)
}

#[test]
fn extracts_data_payload() {
    let frame = "data: {\"id\":\"chatcmpl-1\",\"choices\":[{\"delta\":{\"content\":\"Hi\"},\"finish_reason\":null}]}";
    let payload = extract_data_payload(frame);
    assert!(payload.is_some());
    assert!(payload.unwrap().contains("chatcmpl-1"));
}

#[test]
fn ignores_done_marker() {
    assert_eq!(extract_data_payload("data: [DONE]"), None);
}

#[test]
fn ignores_ping() {
    assert_eq!(extract_data_payload("event: ping\ndata: {}"), None);
}

#[test]
fn parses_chunked_openai_stream() {
    let mut parser = SseParser::new();
    let first = br#"data: {"id":"c1","model":"m","choices":[{"delta":{"role":"assistant","content":"Hel"},"finish_reason":null}]}"#;
    let first_with_sep = [&first[..], b"\n\n"].concat();

    let events = push(&mut parser, &first_with_sep).expect("first chunk");
    assert!(events.iter().any(|e| matches!(e, StreamEvent::MessageStart(_))));
    assert!(events.iter().any(|e| matches!(e, StreamEvent::ContentBlockStart(_))));

    let second = b"data: {\"id\":\"c1\",\"model\":\"m\",\"choices\":[{\"delta\":{\"content\":\"lo\"},\"finish_reason\":null}]}\n\n";
    let events = push(&mut parser, second).expect("second chunk");
    assert!(events.iter().any(|e| matches!(e, StreamEvent::ContentBlockDelta(d) if matches!(&d.delta, ContentBlockDelta::TextDelta { text } if text == "lo"))));

    let finish = b"data: {\"id\":\"c1\",\"model\":\"m\",\"choices\":[{\"delta\":{},\"finish_reason\":\"stop\"}],\"usage\":{\"prompt_tokens\":5,\"completion_tokens\":2}}\n\n";
    let events = push(&mut parser, finish).expect("finish chunk");
    assert!(events.iter().any(|e| matches!(e, StreamEvent::MessageStop(_))));
}

#[test]
fn handles_done_in_stream() {
    let mut parser = SseParser::new();
    let payload = b"data: {\"id\":\"c1\",\"model\":\"m\",\"choices\":[{\"delta\":{\"role\":\"assistant\",\"content\":\"Hi\"},\"finish_reason\":null}]}\n\ndata: {\"id\":\"c1\",\"model\":\"m\",\"choices\":[{\"delta\":{},\"finish_reason\":\"stop\"}],\"usage\":{\"prompt_tokens\":1,\"completion_tokens\":1}}\n\ndata: [DONE]\n\n";
    let events = push(&mut parser, payload).expect("stream");
    assert!(events.iter().any(|e| matches!(e, StreamEvent::MessageStop(_))));
}

fn stream_of(frames: &[&str]) -> Vec<u8> {
    let mut bytes = Vec::new();
    for f in frames {
        bytes.extend_from_slice(f.as_bytes());
        bytes.extend_from_slice(b"\n\n");
    }
    bytes
}

#[test]
fn blank_frame_has_no_payload() {
    assert_eq!(extract_data_payload(""), None);
    assert_eq!(extract_data_payload("  \n \t \r\n"), None);
}

#[test]
fn ping_anywhere_in_frame_gives_no_payload() {
    assert_eq!(extract_data_payload("data: {}\nevent: ping"), None);
    assert_eq!(extract_data_payload("data: {}\nevent:   ping  \ndata: more"), None);
}

#[test]
fn other_events_keep_payload() {
    assert_eq!(
        extract_data_payload("event: message\ndata: {\"a\":1}"),
        Some("{\"a\":1}".to_string())
    );
}

#[test]
fn frame_without_data_line_has_no_payload() {
    assert_eq!(extract_data_payload("event: message\n: keep-alive\nid: 7"), None);
}

#[test]
fn joins_data_lines_and_skips_comments() {
    assert_eq!(
        extract_data_payload("data: a\n: note\ndata:   b\r\ndata:c"),
        Some("a\nb\nc".to_string())
    );
    assert_eq!(extract_data_payload(":data: x\ndata: y"), Some("y".to_string()));
}

#[test]
fn done_marker_only_when_whole_payload() {
    assert_eq!(extract_data_payload("data: [DONE]\ndata: more"), Some("[DONE]\nmore".to_string()));
    assert_eq!(extract_data_payload("  data: [DONE]  "), None);
}

#[test]
fn next_frame_prefers_line_feed_separator() {
    let mut parser = SseParser::new();
    parser.push_bytes(b"a\r\n\r\nb\n\nc");
    assert_eq!(parser.next_frame(), Some("a\r\n\r\nb".to_string()));
    assert_eq!(parser.next_frame(), None);
    parser.push_bytes(b"\r\n\r\n");
    assert_eq!(parser.next_frame(), Some("c".to_string()));
    assert_eq!(parser.next_frame(), None);
}

#[test]
fn next_frame_decodes_invalid_utf8_lossily() {
    let mut parser = SseParser::new();
    parser.push_bytes(b"data: \xffx\n\n");
    assert_eq!(parser.next_frame(), Some("data: \u{fffd}x".to_string()));
}

#[test]
fn next_payload_skips_frames_without_payload() {
    let mut parser = SseParser::new();
    parser.push_bytes(&stream_of(&[": hello", "event: ping\ndata: {}", "data: one", "data: two"]));
    assert_eq!(parser.next_payload(), Some("one".to_string()));
    assert_eq!(parser.next_payload(), Some("two".to_string()));
    assert_eq!(parser.next_payload(), None);
}

#[test]
fn trailing_bytes_make_a_last_frame() {
    let mut parser = SseParser::new();
    parser.push_bytes(b"data: one\n\ndata: tail");
    assert_eq!(parser.next_payload(), Some("one".to_string()));
    assert_eq!(parser.next_payload(), None);
    assert_eq!(parser.take_trailing_payload(), Some("tail".to_string()));
    assert_eq!(parser.take_trailing_payload(), None);
}

#[test]
fn payloads_do_not_depend_on_chunking() {
    let bytes = stream_of(&["data: one", ": c", "data: two\ndata: three", "data: four"]);
    let mut whole = SseParser::new();
    whole.push_bytes(&bytes);
    let mut all = Vec::new();
    while let Some(p) = whole.next_payload() {
        all.push(p);
    }
    for cut in 0..=bytes.len() {
        let mut parser = SseParser::new();
        let mut got = Vec::new();
        parser.push_bytes(&bytes[..cut]);
        while let Some(p) = parser.next_payload() {
            got.push(p);
        }
        parser.push_bytes(&bytes[cut..]);
        while let Some(p) = parser.next_payload() {
            got.push(p);
        }
        assert_eq!(got, all);
    }
    assert_eq!(all, vec!["one", "two\nthree", "four"]);
}

#[test]
fn stream_events_do_not_depend_on_chunking() {
    let first = r#"data: {"id":"c1","model":"m","choices":[{"delta":{"role":"assistant","content":"Hel"},"finish_reason":null}]}"#;
    let second = r#"data: {"id":"c1","model":"m","choices":[{"delta":{"content":"lo"},"finish_reason":"stop"}]}"#;
    let bytes = stream_of(&[first, second]);
    let mut whole = SseParser::new();
    let all = push(&mut whole, &bytes).expect("whole");
    for cut in [1usize, 10, 50, bytes.len() - 1] {
        let mut parser = SseParser::new();
        let mut got = push(&mut parser, &bytes[..cut]).expect("first part");
        got.extend(push(&mut parser, &bytes[cut..]).expect("second part"));
        assert_eq!(format!("{got:?}"), format!("{all:?}"));
    }
}

#[test]
fn rejects_malformed_chunk() {
    let mut parser = SseParser::new();
    assert!(push(&mut parser, b"data: {not json}\n\n").is_err());
}

#[test]
fn default_parser_is_empty() {
    let mut parser = SseParser::default();
    assert_eq!(parser.next_frame(), None);
    assert_eq!(parser.take_trailing_payload(), None);
}
