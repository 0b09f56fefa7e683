use anthropic_wire::error::WireError;
use anthropic_wire::messages::{
    content_to_sdk_blocks, response_items_to_sdk_messages, tool_input_from_arguments, ContentItem,
    MessageContent, MessageRole, ResponseItem,
};
use anthropic_wire::request::{prepare_stream_request, trim_trailing_slashes, Prompt};
use anthropic_wire::sanitize::sanitize_tool_name_for_anthropic;
use anthropic_wire::stream::{process_sdk_events, MessagesStreamEvent, ResponseEvent};
use anthropic_wire::string_map::StringMap;
use anthropic_wire::text::{push_decimal, trim};
use anthropic_wire::tools::{tools_to_sdk_maps, JsonField, ToolJson};

fn function_tool(name: &str) -> ToolJson {
    ToolJson {
        is_object: true,
        kind: JsonField::Str("function".to_string()),
        name: JsonField::Str(name.to_string()),
        description: JsonField::Str(format!("about {name}")),
        parameters: Some("{\"type\":\"object\"}".to_string()),
        function_name: JsonField::Absent,
        function_description: JsonField::Absent,
        function_parameters: None,
    }
}

fn call(name: &str, args: &str, id: &str) -> ResponseItem {
    ResponseItem::FunctionCall {
        name: name.to_string(),
        arguments: args.to_string(),
        call_id: id.to_string(),
    }
}

fn output(id: &str, text: Option<&str>) -> ResponseItem {
    ResponseItem::FunctionCallOutput { call_id: id.to_string(), output: text.map(str::to_string) }
}

fn user_text(role: &str, text: &str) -> ResponseItem {
    ResponseItem::Message {
        id: None,
        role: role.to_string(),
        content: vec![ContentItem::InputText { text: text.to_string() }],
    }
}

#[test]
fn sanitize_replaces_and_trims() {
    assert_eq!(sanitize_tool_name_for_anthropic("my tool!"), "my_tool");
    assert_eq!(sanitize_tool_name_for_anthropic("__a-b__"), "a-b");
    assert_eq!(sanitize_tool_name_for_anthropic("mcp.server/run"), "mcp_server_run");
    assert_eq!(sanitize_tool_name_for_anthropic("ok_name"), "ok_name");
    assert_eq!(sanitize_tool_name_for_anthropic("Grüße"), "Gr__e");
}

#[test]
fn sanitize_falls_back_to_tool_prefix() {
    assert_eq!(sanitize_tool_name_for_anthropic("123abc"), "tool_123abc");
    assert_eq!(sanitize_tool_name_for_anthropic(""), "tool_");
    assert_eq!(sanitize_tool_name_for_anthropic("***"), "tool_");
    assert_eq!(sanitize_tool_name_for_anthropic("-x"), "tool_-x");
}

#[test]
fn sanitize_is_idempotent_on_names_with_content() {
    for name in ["my tool!", "9lives", "a.b.c", "__x__", "Z"] {
        let once = sanitize_tool_name_for_anthropic(name);
        assert_eq!(sanitize_tool_name_for_anthropic(&once), once);
    }
}

#[test]
fn decimal_and_trim_helpers() {
    let mut s = "n=".to_string();
    push_decimal(&mut s, 1234567890);
    assert_eq!(s, "n=1234567890");
    let mut z = String::new();
    push_decimal(&mut z, 0);
    assert_eq!(z, "0");
    assert_eq!(trim("\u{3000} x y\u{a0}\n"), "x y");
    assert_eq!(trim(" \t "), "");
    assert_eq!(trim_trailing_slashes("https://api.example.com/v1//"), "https://api.example.com/v1");
    assert_eq!(trim_trailing_slashes("///"), "");
}

#[test]
fn tools_are_numbered_when_names_collide() {
    let tools = vec![function_tool("shell"), function_tool("shell"), function_tool("a.b"), function_tool("shell")];
    let (out, names) = match tools_to_sdk_maps(&tools) {
        Ok(x) => x,
        Err(e) => panic!("unexpected error {e:?}"),
    };
    let sent: Vec<&str> = out.iter().map(|t| t.name.as_str()).collect();
    assert_eq!(sent, vec!["shell", "shell_2", "a_b", "shell_3"]);
    assert_eq!(out[0].description, "about shell");
    assert_eq!(out[0].input_schema, "{\"type\":\"object\"}");
    assert_eq!(names.get(&"a_b".to_string()).map(String::as_str), Some("a.b"));
    assert_eq!(names.get(&"shell_2".to_string()).map(String::as_str), Some("shell"));
    assert!(names.get(&"a.b".to_string()).is_none());
}

#[test]
fn tool_numbers_go_past_nine() {
    let tools: Vec<ToolJson> = (0..11).map(|_| function_tool("x")).collect();
    let (out, _) = tools_to_sdk_maps(&tools).ok().expect("tools convert");
    assert_eq!(out[9].name, "x_10");
    assert_eq!(out[10].name, "x_11");
}

#[test]
fn tools_skip_non_functions_and_blank_names_and_read_nested_function() {
    let mut web = function_tool("web");
    web.kind = JsonField::Str("web_search".to_string());
    let mut blank = function_tool("  \t");
    blank.description = JsonField::NonString;
    let nested = ToolJson {
        is_object: true,
        kind: JsonField::Str("function".to_string()),
        name: JsonField::Absent,
        description: JsonField::Absent,
        parameters: None,
        function_name: JsonField::Str("inner".to_string()),
        function_description: JsonField::Str("nested".to_string()),
        function_parameters: None,
    };
    let mut non_string_name = function_tool("x");
    non_string_name.name = JsonField::NonString;
    non_string_name.function_name = JsonField::Str("ignored".to_string());
    let mut untyped = function_tool("y");
    untyped.kind = JsonField::NonString;
    let tools = vec![web, blank, nested, non_string_name, untyped];
    let (out, names) = tools_to_sdk_maps(&tools).ok().expect("tools convert");
    assert_eq!(out.len(), 1);
    assert_eq!(out[0].name, "inner");
    assert_eq!(out[0].description, "nested");
    assert_eq!(out[0].input_schema, "{}");
    assert_eq!(names.get(&"inner".to_string()).map(String::as_str), Some("inner"));
}

#[test]
fn tool_that_is_not_an_object_is_an_error() {
    let mut bad = function_tool("x");
    bad.is_object = false;
    let tools = vec![function_tool("ok"), bad];
    match tools_to_sdk_maps(&tools) {
        Err(WireError::InvalidRequest(m)) => assert_eq!(m, "expected tool to be a JSON object"),
        Err(e) => panic!("wrong error {e:?}"),
        Ok(_) => panic!("expected an error"),
    }
}

#[test]
fn string_map_later_insert_wins() {
    let mut m: StringMap<u32> = StringMap::new();
    assert!(m.get(&"a".to_string()).is_none());
    m.insert("a".to_string(), 1);
    m.insert("b".to_string(), 2);
    m.insert("a".to_string(), 3);
    assert_eq!(m.get(&"a".to_string()), Some(&3));
    assert_eq!(m.get(&"b".to_string()), Some(&2));
    assert!(m.get(&"c".to_string()).is_none());
}

#[test]
fn content_blocks_skip_empty_text_and_describe_images() {
    let content = vec![
        ContentItem::InputText { text: String::new() },
        ContentItem::OutputText { text: "hi".to_string() },
        ContentItem::InputImage { image_url: "https://img/x.png".to_string() },
    ];
    let blocks = content_to_sdk_blocks(&content).ok().expect("never fails");
    assert_eq!(blocks.len(), 2);
    assert!(matches!(&blocks[0], MessageContent::Text(t) if t == "hi"));
    assert!(matches!(&blocks[1], MessageContent::Text(t) if t == "[image: https://img/x.png]"));
}

#[test]
fn consecutive_calls_and_outputs_are_merged() {
    let items = vec![
        user_text("user", "run two things"),
        ResponseItem::Message { id: None, role: " Assistant ".to_string(), content: vec![ContentItem::OutputText { text: "ok".to_string() }] },
        call("shell", "{\"cmd\":\"ls\"}", "c1"),
        call("shell", "not json", "c2"),
        output("c1", Some("files")),
        output("c2", None),
        ResponseItem::CustomToolCallOutput { call_id: "c3".to_string(), output: None },
        ResponseItem::Other,
        call("apply", "{}", "c4"),
        ResponseItem::Message { id: None, role: "user".to_string(), content: vec![] },
        user_text("developer", "note"),
    ];
    let msgs = response_items_to_sdk_messages(&items).ok().expect("never fails");
    assert_eq!(msgs.len(), 6, "{msgs:?}");
    assert_eq!(msgs[0].role, MessageRole::User);
    assert_eq!(msgs[1].role, MessageRole::Assistant);
    assert_eq!(msgs[2].role, MessageRole::Assistant);
    assert_eq!(msgs[2].content.len(), 2);
    match &msgs[2].content[0] {
        MessageContent::ToolUse { id, name, input } => {
            assert_eq!(id, "c1");
            assert_eq!(name, "shell");
            assert_eq!(input, "{\"cmd\":\"ls\"}");
        }
        other => panic!("expected tool use, got {other:?}"),
    }
    assert!(matches!(&msgs[2].content[1], MessageContent::ToolUse { input, .. } if input == "{}"));
    assert_eq!(msgs[3].role, MessageRole::User);
    assert_eq!(msgs[3].content.len(), 3);
    assert!(matches!(&msgs[3].content[0], MessageContent::ToolResult { tool_use_id, content: Some(c), is_error: false } if tool_use_id == "c1" && c == "files"));
    assert!(matches!(&msgs[3].content[1], MessageContent::ToolResult { content: Some(c), .. } if c.is_empty()));
    assert!(matches!(&msgs[3].content[2], MessageContent::ToolResult { content: None, .. }));
    assert_eq!(msgs[4].role, MessageRole::Assistant);
    assert_eq!(msgs[4].content.len(), 1);
    assert_eq!(msgs[5].role, MessageRole::User);
}

#[test]
fn call_after_text_from_assistant_starts_new_message() {
    let items = vec![
        ResponseItem::Message { id: None, role: "assistant".to_string(), content: vec![ContentItem::OutputText { text: "thinking".to_string() }] },
        call("t", "{}", "c"),
    ];
    let msgs = response_items_to_sdk_messages(&items).ok().expect("never fails");
    assert_eq!(msgs.len(), 2);
    assert_eq!(msgs[1].role, MessageRole::Assistant);
}

#[test]
fn tool_input_keeps_parsing_arguments() {
    assert_eq!(tool_input_from_arguments(&"[1,2]".to_string(), true), "[1,2]");
    assert_eq!(tool_input_from_arguments(&"[1,".to_string(), false), "{}");
}

fn prompt(tools: Vec<ToolJson>, instructions: &str) -> Prompt {
    Prompt {
        input: vec![user_text("user", "hi")],
        tools,
        base_instructions: instructions.to_string(),
    }
}

#[test]
fn request_needs_an_api_key() {
    match prepare_stream_request("https://x", None, &prompt(vec![], ""), &"m".to_string()) {
        Err(WireError::InvalidRequest(m)) => assert!(m.starts_with("anthropic provider requires an API key")),
        _ => panic!("expected missing key error"),
    }
    match prepare_stream_request("https://x", Some(" \n".to_string()), &prompt(vec![], ""), &"m".to_string()) {
        Err(WireError::InvalidRequest(m)) => assert_eq!(m, "anthropic provider auth token is empty (check env_key or experimental_bearer_token)"),
        _ => panic!("expected empty key error"),
    }
}

#[test]
fn request_is_built_from_prompt() {
    let req = match prepare_stream_request(
        "https://proxy.example/anthropic/",
        Some("  sk-test  ".to_string()),
        &prompt(vec![function_tool("shell")], "Be brief."),
        &"sonnet-test".to_string(),
    ) {
        Ok(r) => r,
        Err(e) => panic!("unexpected error {e:?}"),
    };
    assert_eq!(req.base_url, "https://proxy.example/anthropic");
    assert_eq!(req.api_key, "sk-test");
    assert_eq!(req.model, "sonnet-test");
    assert_eq!(req.messages.len(), 1);
    assert_eq!(req.tools.len(), 1);
    assert_eq!(req.system.as_deref(), Some("Be brief."));
    assert_eq!(req.max_tokens, 4096);
    assert!(req.stream);
    assert_eq!(req.tool_name_map.get(&"shell".to_string()).map(String::as_str), Some("shell"));

    let req = prepare_stream_request("u", Some("k".to_string()), &prompt(vec![], ""), &"m".to_string())
        .ok()
        .expect("builds");
    assert!(req.system.is_none());
}

#[test]
fn request_with_bad_tool_fails() {
    let mut bad = function_tool("x");
    bad.is_object = false;
    match prepare_stream_request("u", Some("k".to_string()), &prompt(vec![bad], ""), &"m".to_string()) {
        Err(WireError::InvalidRequest(m)) => assert_eq!(m, "expected tool to be a JSON object"),
        _ => panic!("expected tool error"),
    }
}

#[test]
fn tool_called_by_sent_name_is_reported_under_codex_name() {
    let tools = vec![function_tool("mcp.fs/read"), function_tool("mcp.fs/read")];
    let (out, names) = tools_to_sdk_maps(&tools).ok().expect("tools convert");
    assert_eq!(out[1].name, "mcp_fs_read_2");
    let events = vec![
        Ok(MessagesStreamEvent::MessageStart { id: "m".to_string(), usage: None }),
        Ok(MessagesStreamEvent::ContentBlockStart {
            index: 0,
            content_block: MessageContent::ToolUse {
                id: "c".to_string(),
                name: out[1].name.clone(),
                input: "{}".to_string(),
            },
        }),
        Ok(MessagesStreamEvent::MessageStop),
    ];
    let collected = process_sdk_events(&events, &names);
    match &collected[1] {
        Ok(ResponseEvent::OutputItemDone(ResponseItem::FunctionCall { name, .. })) => {
            assert_eq!(name, "mcp.fs/read")
        }
        other => panic!("expected a tool call, got {other:?}"),
    }
}
