use anthropic_wire::error::WireError;
use anthropic_wire::messages::{MessageContent, ResponseItem};
use anthropic_wire::stream::{
    map_anthropic_error, process_sdk_event, process_sdk_events, AnthropicError, ContentBlockDelta,
    MessagesStreamEvent, ResponseEvent, StreamItem, StreamState, TokenUsage, Usage,
};
use anthropic_wire::string_map::StringMap;

fn message_start(id: &str) -> StreamItem {
    Ok(MessagesStreamEvent::MessageStart { id: id.to_string(), usage: None })
}

fn tool_start(id: &str, name: &str, input: &serde_json::Value) -> StreamItem {
    Ok(MessagesStreamEvent::ContentBlockStart {
        index: 0,
        content_block: MessageContent::ToolUse {
            id: id.to_string(),
            name: name.to_string(),
            input: serde_json::to_string(input).unwrap_or_else(|_| "{}".to_string()),
        },
    })
}

fn json_delta(partial: &str) -> StreamItem {
    Ok(MessagesStreamEvent::ContentBlockDelta {
        index: 0,
        delta: ContentBlockDelta::InputJsonDelta { partial_json: partial.to_string() },
    })
}

fn stop_block() -> StreamItem {
    Ok(MessagesStreamEvent::ContentBlockStop { index: 0 })
}

fn stop_message() -> StreamItem {
    Ok(MessagesStreamEvent::MessageStop)
}

fn find_call(collected: &[Result<ResponseEvent, WireError>]) -> Option<(String, String, String)> {
    collected.iter().find_map(|r| {
        if let Ok(ResponseEvent::OutputItemDone(ResponseItem::FunctionCall {
            call_id,
            name,
            arguments,
        })) = r
        {
            Some((call_id.clone(), name.clone(), arguments.clone()))
        } else {
            None
        }
    })
}

#[test]
fn tool_use_stream_emits_output_item_done() {
    let mut input = serde_json::Map::new();
    input.insert("x".to_string(), serde_json::Value::from(1));
    let events = vec![
        message_start("msg-1"),
        tool_start("call-1", "my_tool", &serde_json::Value::Object(input)),
        stop_block(),
        stop_message(),
    ];
    let collected = process_sdk_events(&events, &StringMap::new());
    let created = collected.iter().find(|r| matches!(r, Ok(ResponseEvent::Created)));
    assert!(created.is_some(), "expected Created: {:?}", collected);
    let (call_id, name, args) = find_call(&collected)
        .unwrap_or_else(|| panic!("expected one OutputItemDone FunctionCall: {collected:?}"));
    assert_eq!(call_id, "call-1");
    assert_eq!(name, "my_tool");
    assert_eq!(args, "{\"x\":1}");
    let completed = collected.iter().find(|r| matches!(r, Ok(ResponseEvent::Completed { .. })));
    assert!(completed.is_some(), "expected Completed: {:?}", collected);
}

#[test]
fn tool_use_stream_accumulates_input_json_delta() {
    let events = vec![
        message_start("msg-2"),
        tool_start("call-2", "shell", &serde_json::Value::Object(serde_json::Map::new())),
        json_delta(r#"{"command":"echo hi"}"#),
        stop_block(),
        stop_message(),
    ];
    let collected = process_sdk_events(&events, &StringMap::new());
    let (call_id, name, args) = find_call(&collected)
        .unwrap_or_else(|| panic!("expected one OutputItemDone FunctionCall: {collected:?}"));
    assert_eq!(call_id, "call-2");
    assert_eq!(name, "shell");
    assert!(args.contains("echo hi"), "arguments should contain streamed JSON: {args}");
    assert!(
        !args.starts_with("{}\""),
        "arguments must not be empty-obj concatenated with JSON (invalid): {args}"
    );
    let parsed: serde_json::Value =
        serde_json::from_str(&args).expect("arguments must be valid JSON");
    assert!(parsed.get("command").is_some(), "arguments should have command key: {args}");
}

#[test]
fn tool_use_empty_start_then_single_input_json_delta_produces_valid_json() {
    let events = vec![
        message_start("msg-3"),
        tool_start("call-3", "exec_command", &serde_json::Value::Object(serde_json::Map::new())),
        json_delta(r#"{"cmd": "ls -al bash"}"#),
        stop_block(),
        stop_message(),
    ];
    let collected = process_sdk_events(&events, &StringMap::new());
    let (_, _, args) = find_call(&collected)
        .unwrap_or_else(|| panic!("expected one OutputItemDone FunctionCall: {collected:?}"));
    let parsed: serde_json::Value =
        serde_json::from_str(&args).expect("arguments must be valid JSON");
    assert_eq!(
        parsed.get("cmd").and_then(|v| v.as_str()),
        Some("ls -al bash"),
        "arguments should have cmd field: {args}"
    );
}

#[test]
fn text_block_announces_item_before_text() {
    let events = vec![
        message_start("msg-9"),
        Ok(MessagesStreamEvent::ContentBlockStart {
            index: 12,
            content_block: MessageContent::Text("Hel".to_string()),
        }),
        Ok(MessagesStreamEvent::ContentBlockDelta {
            index: 12,
            delta: ContentBlockDelta::TextDelta { text: "lo".to_string() },
        }),
        Ok(MessagesStreamEvent::ContentBlockDelta {
            index: 12,
            delta: ContentBlockDelta::TextDelta { text: String::new() },
        }),
        Ok(MessagesStreamEvent::ContentBlockStop { index: 12 }),
        stop_message(),
    ];
    let collected = process_sdk_events(&events, &StringMap::new());
    assert_eq!(collected.len(), 5, "{collected:?}");
    assert!(matches!(collected[0], Ok(ResponseEvent::Created)));
    match &collected[1] {
        Ok(ResponseEvent::OutputItemAdded(ResponseItem::Message { id, role, content })) => {
            assert_eq!(id.as_deref(), Some("msg-9-12"));
            assert_eq!(role, "assistant");
            assert!(content.is_empty());
        }
        other => panic!("expected OutputItemAdded, got {other:?}"),
    }
    assert!(matches!(&collected[2], Ok(ResponseEvent::OutputTextDelta(t)) if t == "Hel"));
    assert!(matches!(&collected[3], Ok(ResponseEvent::OutputTextDelta(t)) if t == "lo"));
    match &collected[4] {
        Ok(ResponseEvent::Completed { response_id, token_usage }) => {
            assert_eq!(response_id, "msg-9");
            assert!(token_usage.is_none());
        }
        other => panic!("expected Completed, got {other:?}"),
    }
}

#[test]
fn empty_text_block_start_sends_no_delta() {
    let events = vec![
        message_start("m"),
        Ok(MessagesStreamEvent::ContentBlockStart {
            index: 0,
            content_block: MessageContent::Text(String::new()),
        }),
    ];
    let collected = process_sdk_events(&events, &StringMap::new());
    assert_eq!(collected.len(), 2);
    assert!(matches!(&collected[1], Ok(ResponseEvent::OutputItemAdded(_))));
}

#[test]
fn usage_is_totalled_and_last_report_wins() {
    let events = vec![
        Ok(MessagesStreamEvent::MessageStart {
            id: "msg-u".to_string(),
            usage: Some(Usage { input_tokens: Some(10), output_tokens: Some(1) }),
        }),
        Ok(MessagesStreamEvent::MessageDelta {
            usage: Some(Usage { input_tokens: None, output_tokens: Some(u32::MAX) }),
        }),
        Ok(MessagesStreamEvent::MessageDelta { usage: None }),
        stop_message(),
    ];
    let collected = process_sdk_events(&events, &StringMap::new());
    match collected.last() {
        Some(Ok(ResponseEvent::Completed { response_id, token_usage })) => {
            assert_eq!(response_id, "msg-u");
            assert_eq!(
                *token_usage,
                Some(TokenUsage {
                    input_tokens: 0,
                    cached_input_tokens: 0,
                    output_tokens: 4294967295,
                    reasoning_output_tokens: 0,
                    total_tokens: 4294967295,
                })
            );
        }
        other => panic!("expected Completed, got {other:?}"),
    }
}

#[test]
fn message_start_usage_counts_input_and_output() {
    let mut state = StreamState::new();
    let item = Ok(MessagesStreamEvent::MessageStart {
        id: "a".to_string(),
        usage: Some(Usage { input_tokens: Some(7), output_tokens: Some(5) }),
    });
    let (out, finished) = process_sdk_event(&mut state, &item, &StringMap::new());
    assert!(!finished);
    assert_eq!(out.len(), 1);
    assert_eq!(state.response_id, "a");
    assert_eq!(
        state.token_usage,
        Some(TokenUsage {
            input_tokens: 7,
            cached_input_tokens: 0,
            output_tokens: 5,
            reasoning_output_tokens: 0,
            total_tokens: 12,
        })
    );
}

#[test]
fn tool_name_is_mapped_back_to_codex_name() {
    let mut names = StringMap::new();
    names.insert("mcp__server__do_it".to_string(), "mcp/server/do it".to_string());
    let events = vec![
        message_start("m"),
        tool_start("c", "mcp__server__do_it", &serde_json::Value::Null),
        stop_message(),
    ];
    let collected = process_sdk_events(&events, &names);
    let (call_id, name, args) = find_call(&collected).expect("a call");
    assert_eq!(call_id, "c");
    assert_eq!(name, "mcp/server/do it");
    assert_eq!(args, "null");
    assert!(matches!(collected.last(), Some(Ok(ResponseEvent::Completed { .. }))));
}

#[test]
fn null_placeholder_is_replaced_and_later_pieces_appended() {
    let events = vec![
        message_start("m"),
        tool_start("c", "t", &serde_json::Value::Null),
        json_delta("{\"a\":"),
        json_delta("1}"),
        stop_block(),
        stop_message(),
    ];
    let collected = process_sdk_events(&events, &StringMap::new());
    let (_, _, args) = find_call(&collected).expect("a call");
    assert_eq!(args, "{\"a\":1}");
}

#[test]
fn non_empty_start_input_is_extended() {
    let mut input = serde_json::Map::new();
    input.insert("k".to_string(), serde_json::Value::from("v"));
    let events = vec![
        message_start("m"),
        tool_start("c", "t", &serde_json::Value::Object(input)),
        json_delta("x"),
        stop_block(),
    ];
    let collected = process_sdk_events(&events, &StringMap::new());
    let (_, _, args) = find_call(&collected).expect("a call");
    assert_eq!(args, "{\"k\":\"v\"}x");
}

#[test]
fn json_delta_without_pending_tool_is_ignored() {
    let events = vec![message_start("m"), json_delta("{}"), stop_block(), stop_message()];
    let collected = process_sdk_events(&events, &StringMap::new());
    assert_eq!(collected.len(), 2);
    assert!(find_call(&collected).is_none());
}

#[test]
fn each_tool_call_is_sent_once() {
    let events = vec![
        message_start("m"),
        tool_start("c", "t", &serde_json::Value::Object(serde_json::Map::new())),
        stop_block(),
        stop_block(),
        stop_message(),
    ];
    let collected = process_sdk_events(&events, &StringMap::new());
    let calls = collected
        .iter()
        .filter(|r| matches!(r, Ok(ResponseEvent::OutputItemDone(_))))
        .count();
    assert_eq!(calls, 1);
}

#[test]
fn pending_tool_call_is_sent_at_message_stop() {
    let events = vec![
        message_start("m"),
        tool_start("c", "t", &serde_json::Value::Object(serde_json::Map::new())),
        stop_message(),
    ];
    let collected = process_sdk_events(&events, &StringMap::new());
    assert_eq!(collected.len(), 3);
    assert!(matches!(&collected[1], Ok(ResponseEvent::OutputItemDone(_))));
    assert!(matches!(&collected[2], Ok(ResponseEvent::Completed { .. })));
}

#[test]
fn nothing_is_sent_after_message_stop() {
    let events = vec![message_start("m1"), stop_message(), message_start("m2"), stop_message()];
    let collected = process_sdk_events(&events, &StringMap::new());
    assert_eq!(collected.len(), 2);
    assert!(matches!(&collected[1], Ok(ResponseEvent::Completed { response_id, .. }) if response_id == "m1"));
}

#[test]
fn client_error_ends_the_stream() {
    let events = vec![
        message_start("m"),
        Err(AnthropicError::StreamError {
            error_type: "overloaded_error".to_string(),
            message: "Overloaded".to_string(),
        }),
        stop_message(),
    ];
    let collected = process_sdk_events(&events, &StringMap::new());
    assert_eq!(collected.len(), 2);
    match &collected[1] {
        Err(WireError::Stream(m)) => assert_eq!(m, "Overloaded"),
        other => panic!("expected a stream error, got {other:?}"),
    }
}

#[test]
fn stream_without_stop_sends_no_completed() {
    let events = vec![message_start("m")];
    let collected = process_sdk_events(&events, &StringMap::new());
    assert_eq!(collected.len(), 1);
}

#[test]
fn anthropic_errors_map_to_codex_errors() {
    let cases: Vec<(AnthropicError, bool, &str)> = vec![
        (AnthropicError::BadRequest("bad body".to_string()), true, "bad body"),
        (AnthropicError::Unauthorized, true, "anthropic API key invalid or missing"),
        (
            AnthropicError::StreamError { error_type: "t".to_string(), message: "msg".to_string() },
            false,
            "msg",
        ),
        (AnthropicError::NetworkError("net down".to_string()), false, "net down"),
        (AnthropicError::ApiError("api".to_string()), false, "api"),
        (AnthropicError::Unknown("unknown".to_string()), false, "unknown"),
        (AnthropicError::DeserializationError("eof".to_string()), false, "eof"),
        (AnthropicError::UnexpectedError, false, "anthropic unexpected error"),
    ];
    for (e, invalid, text) in cases {
        let mapped = map_anthropic_error(e);
        match &mapped {
            WireError::InvalidRequest(m) => {
                assert!(invalid, "{mapped:?}");
                assert_eq!(m, text);
            }
            WireError::Stream(m) => {
                assert!(!invalid, "{mapped:?}");
                assert_eq!(m, text);
            }
        }
        assert_eq!(mapped.message(), text);
    }
}
