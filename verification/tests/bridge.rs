//! Requests and replies between the two APIs.

use responses_api_proxy::config::{ChatCompletionsBridgeConfig, UpstreamUrl};
use responses_api_proxy::error::BridgeError;
use responses_api_proxy::ids::IdSource;
use responses_api_proxy::json::Json;
use responses_api_proxy::names::NameSet;
use responses_api_proxy::render::{
    normalize_chat_completion_response, normalize_usage, render_responses_sse,
};
use responses_api_proxy::request::{
    append_response_item_as_chat_messages, build_chat_completion_request, chat_request_of,
    chat_role, BridgeRequestContext,
};
use responses_api_proxy::response::{ChatCompletionOutput, ChatToolCall};
use responses_api_proxy::sse::{looks_like_sse, sse_data_messages};

use reqwest::header::HeaderValue;
use serde_json::Value;

fn config() -> ChatCompletionsBridgeConfig {
    ChatCompletionsBridgeConfig {
        upstream_url: UpstreamUrl::parse("http://127.0.0.1:8000/v1/chat/completions").unwrap(),
        host_header: HeaderValue::from_static("summarizer-a.wbx2.com"),
        model: Some("deepseek-r1-32b".to_string()),
        tool_field: "toolCalls".to_string(),
        user_agent: None,
        thinking: false,
        max_tokens: 1000,
        temperature: serde_json::Number::from_f64(0.0),
        stream_upstream: false,
    }
}

fn context() -> BridgeRequestContext {
    BridgeRequestContext {
        custom_tool_names: Default::default(),
        requested_model: "deepseek-r1-32b".to_string(),
    }
}

fn value(text: &str) -> Value {
    serde_json::from_str(text).unwrap()
}

fn json(text: &str) -> Json {
    Json::from_text(text).unwrap()
}

fn value_of(json: &Json) -> Value {
    value(&json.to_text())
}

/// The data of all events of a rendered stream.
fn events(stream: &str) -> Vec<Value> {
    sse_data_messages(stream).iter().map(|data| value(data)).collect()
}

fn types(events: &[Value]) -> Vec<String> {
    events.iter().map(|event| event["type"].as_str().unwrap().to_string()).collect()
}

#[test]
fn builds_chat_completion_request_from_responses_payload() {
    let body = value(
        r#"{
            "model": "gpt-5",
            "instructions": "Be direct.",
            "input": [
                {
                    "type": "message",
                    "role": "user",
                    "content": [{"type": "input_text", "text": "hi"}]
                },
                {
                    "type": "function_call",
                    "call_id": "call_1",
                    "name": "calculator",
                    "arguments": "{\"expression\":\"1+2\"}"
                },
                {
                    "type": "function_call_output",
                    "call_id": "call_1",
                    "output": "3"
                }
            ],
            "tools": [
                {
                    "type": "function",
                    "name": "calculator",
                    "description": "Evaluate arithmetic.",
                    "parameters": {
                        "type": "object",
                        "properties": {
                            "expression": {"type": "string"}
                        },
                        "required": ["expression"]
                    }
                }
            ]
        }"#,
    );

    let (actual, context) = build_chat_completion_request(
        body.to_string().as_bytes(),
        &config(),
        &mut IdSource::new(),
    )
    .expect("build request");

    assert_eq!(context.requested_model, "deepseek-r1-32b");
    assert_eq!(
        value_of(&actual),
        value(
            r#"{
                "model": "deepseek-r1-32b",
                "temperature": 0.0,
                "max_tokens": 1000,
                "frequency_penalty": 0,
                "presence_penalty": 0,
                "stop": null,
                "stream": false,
                "thinking": false,
                "messages": [
                    {"role": "system", "content": "Be direct."},
                    {"role": "user", "content": "hi"},
                    {
                        "role": "assistant",
                        "content": null,
                        "tool_calls": [{
                            "id": "call_1",
                            "type": "function",
                            "function": {
                                "name": "calculator",
                                "arguments": "{\"expression\":\"1+2\"}"
                            }
                        }]
                    },
                    {"role": "tool", "tool_call_id": "call_1", "content": "3"}
                ],
                "toolCalls": [{
                    "type": "function",
                    "function": {
                        "name": "calculator",
                        "description": "Evaluate arithmetic.",
                        "parameters": {
                            "type": "object",
                            "properties": {
                                "expression": {"type": "string"}
                            },
                            "required": ["expression"]
                        }
                    }
                }]
            }"#
        )
    );
}

#[test]
fn normalizes_unary_chat_response_to_responses_sse() {
    let body = value(
        r#"{
            "id": "chatcmpl-1",
            "model": "deepseek-r1-32b",
            "choices": [{
                "message": {
                    "role": "assistant",
                    "content": "hello"
                },
                "finish_reason": "stop"
            }],
            "usage": {
                "prompt_tokens": 2,
                "completion_tokens": 3,
                "total_tokens": 5
            }
        }"#,
    );

    let actual = String::from_utf8(
        normalize_chat_completion_response(&body.to_string(), &context(), &mut IdSource::new())
            .expect("normalize response"),
    )
    .expect("utf8");

    assert!(actual.contains("event: response.created"));
    assert!(actual.contains("event: response.output_item.added"));
    assert!(actual.contains("event: response.output_text.delta"));
    assert!(actual.contains("event: response.output_item.done"));
    assert!(actual.contains("event: response.completed"));
    assert!(actual.contains("\"delta\":\"hello\""));
    assert!(actual.contains("\"input_tokens\":2"));
}

#[test]
fn renders_function_call_item_from_chat_tool_call() {
    let output = ChatCompletionOutput {
        id: Some("chatcmpl-tool".to_string()),
        model: Some("deepseek-r1-32b".to_string()),
        content: String::new(),
        tool_calls: vec![ChatToolCall {
            id: Some("call_1".to_string()),
            name: "calculator".to_string(),
            arguments: "{\"expression\":\"1+2\"}".to_string(),
        }],
        usage: None,
    };

    let actual = render_responses_sse(&output, &context(), &mut IdSource::new());

    assert!(actual.contains("\"type\":\"function_call\""));
    assert!(actual.contains("\"call_id\":\"call_1\""));
    assert!(actual.contains("\"name\":\"calculator\""));
    assert!(actual.contains("\"end_turn\":false"));
}

#[test]
fn renders_a_reply_exactly() {
    let output = ChatCompletionOutput {
        id: Some("r1".to_string()),
        model: None,
        content: String::new(),
        tool_calls: vec![],
        usage: Some(json(r#"{"prompt_tokens": 2, "completion_tokens": 3}"#)),
    };
    let actual = render_responses_sse(&output, &context(), &mut IdSource::new());
    let created = concat_lines(
        "response.created",
        r#"{"response":{"id":"r1","model":"deepseek-r1-32b","status":"in_progress"},"type":"response.created"}"#,
    );
    let completed = concat_lines(
        "response.completed",
        r#"{"response":{"end_turn":true,"id":"r1","model":"deepseek-r1-32b","status":"completed","usage":{"input_tokens":2,"input_tokens_details":{"cached_tokens":0},"output_tokens":3,"output_tokens_details":{"reasoning_tokens":0},"total_tokens":5}},"type":"response.completed"}"#,
    );
    assert_eq!(actual, format!("{created}{completed}"));
}

fn concat_lines(name: &str, data: &str) -> String {
    format!("event: {name}\ndata: {data}\n\n")
}

#[test]
fn a_rendered_stream_reads_back_event_by_event() {
    let output = ChatCompletionOutput {
        id: None,
        model: Some("m".to_string()),
        content: "line one\nline two\r\n\n".to_string(),
        tool_calls: vec![
            ChatToolCall { id: None, name: "f".to_string(), arguments: "{}".to_string() },
            ChatToolCall {
                id: Some("c2".to_string()),
                name: "g".to_string(),
                arguments: "{\"a\":1}".to_string(),
            },
        ],
        usage: None,
    };
    let stream = render_responses_sse(&output, &context(), &mut IdSource::new());
    assert!(looks_like_sse(&stream));
    let messages = sse_data_messages(&stream);
    assert_eq!(messages.len(), 7);
    assert!(messages.iter().all(|data| data.starts_with('{') && !data.contains(['\n', '\r'])));
    let events = events(&stream);
    assert_eq!(
        types(&events),
        vec![
            "response.created",
            "response.output_item.added",
            "response.output_text.delta",
            "response.output_item.done",
            "response.output_item.done",
            "response.output_item.done",
            "response.completed",
        ]
    );
    assert_eq!(events[1]["item"]["content"][0]["text"], "");
    assert_eq!(events[2]["delta"], "line one\nline two\r\n\n");
    assert_eq!(events[3]["item"]["content"][0]["text"], "line one\nline two\r\n\n");
    assert_eq!(events[1]["item"]["id"], events[2]["item_id"]);
    assert_eq!(events[1]["item"]["id"], events[3]["item"]["id"]);
    assert_eq!(events[4]["item"]["name"], "f");
    assert_eq!(events[5]["item"]["call_id"], "c2");
    assert_eq!(events[5]["item"]["arguments"], "{\"a\":1}");
    assert_eq!(events[0]["response"]["id"], events[6]["response"]["id"]);
    assert_eq!(events[6]["response"]["usage"], Value::Null);
    assert_eq!(events[6]["response"]["end_turn"], false);
    // A response, a message, a call and an item for it, and an item for the other call.
    let ids = [
        events[0]["response"]["id"].as_str().unwrap(),
        events[2]["item_id"].as_str().unwrap(),
        events[4]["item"]["call_id"].as_str().unwrap(),
        events[4]["item"]["id"].as_str().unwrap(),
        events[5]["item"]["id"].as_str().unwrap(),
    ];
    let prefixes = ["resp_", "msg_", "call_", "fc_", "fc_"];
    for (n, (id, prefix)) in ids.iter().zip(prefixes).enumerate() {
        assert!(id.starts_with(prefix));
        assert!(id.ends_with(&format!("_{}", n + 1)));
    }
}

#[test]
fn a_call_of_a_custom_tool_comes_back_as_one() {
    let request = json(
        r#"{"model":"m","input":"go","tools":[
            {"type":"custom","name":"shell","description":"Runs."},
            {"type":"function","name":"plain"}
        ]}"#,
    );
    let (chat, context) =
        chat_request_of(&request, &config(), &mut IdSource::new()).expect("request");
    assert!(context.custom_tool_names.contains("shell"));
    assert!(!context.custom_tool_names.contains("plain"));
    assert_eq!(
        value_of(&chat)["toolCalls"][0],
        value(
            r#"{"type":"function","function":{"name":"shell","description":"Runs.","parameters":{
                "type":"object",
                "properties":{"input":{"type":"string","description":"Raw input for the custom tool."}},
                "required":["input"],"additionalProperties":false}}}"#
        )
    );
    let reply = r#"{"choices":[{"message":{"tool_calls":[
        {"id":"a","function":{"name":"shell","arguments":"{\"input\":\"ls -l\"}"}},
        {"id":"b","function":{"name":"shell","arguments":"not json"}},
        {"id":"c","function":{"name":"plain","arguments":"{\"input\":\"x\"}"}}
    ]}}]}"#;
    let bytes =
        normalize_chat_completion_response(reply, &context, &mut IdSource::new()).expect("reply");
    let events = events(std::str::from_utf8(&bytes).unwrap());
    assert_eq!(events[1]["item"]["type"], "custom_tool_call");
    assert_eq!(events[1]["item"]["input"], "ls -l");
    assert_eq!(events[2]["item"]["type"], "custom_tool_call");
    assert_eq!(events[2]["item"]["input"], "not json");
    assert_eq!(events[3]["item"]["type"], "function_call");
    assert_eq!(events[3]["item"]["arguments"], "{\"input\":\"x\"}");
}

#[test]
fn the_input_of_a_custom_call_is_carried_in_arguments() {
    let item = json(r#"{"type":"custom_tool_call","name":"sh","call_id":"c","input":"say \"hi\""}"#);
    let mut messages = Vec::new();
    append_response_item_as_chat_messages(&item, &mut messages, &mut IdSource::new());
    assert_eq!(messages.len(), 1);
    assert_eq!(
        value_of(&messages[0])["tool_calls"][0]["function"]["arguments"],
        "{\"input\":\"say \\\"hi\\\"\"}"
    );
}

#[test]
fn calls_without_identifiers_get_different_ones() {
    let mut ids = IdSource::new();
    let item = json(r#"{"type":"function_call","name":"f"}"#);
    let mut messages = Vec::new();
    append_response_item_as_chat_messages(&item, &mut messages, &mut ids);
    append_response_item_as_chat_messages(&item, &mut messages, &mut ids);
    let first = value_of(&messages[0]);
    let second = value_of(&messages[1]);
    assert_eq!(first["tool_calls"][0]["function"]["arguments"], "{}");
    let first = first["tool_calls"][0]["id"].as_str().unwrap();
    let second = second["tool_calls"][0]["id"].as_str().unwrap();
    assert!(first.starts_with("call_") && first.ends_with("_1"));
    assert!(second.starts_with("call_") && second.ends_with("_2"));
}

#[test]
fn items_that_are_no_messages_are_left_out() {
    let mut ids = IdSource::new();
    let mut messages = Vec::new();
    for item in [
        r#"{"type":"reasoning"}"#,
        r#"{"type":"web_search_call"}"#,
        r#"{"type":"something"}"#,
        r#"{"role":"user","content":"no type"}"#,
        r#"{"type":"message","role":"user","content":"  \n\t "}"#,
        r#"{"type":"message","role":"user"}"#,
        r#"{"type":"function_call","call_id":"c"}"#,
        r#"{"type":"custom_tool_call","call_id":"c"}"#,
        r#"{"type":"function_call_output","output":"x"}"#,
        r#"{"type":"tool_search_output"}"#,
        r#"7"#,
    ] {
        append_response_item_as_chat_messages(&json(item), &mut messages, &mut ids);
    }
    assert!(messages.is_empty());
}

#[test]
fn items_become_messages() {
    let mut ids = IdSource::new();
    let mut messages = Vec::new();
    for item in [
        r#"{"type":"message","role":"developer","content":[{"text":"a"},{"content":"b"},{"x":1},"c"]}"#,
        r#"{"type":"message","role":"critic","content":{"text":"d"}}"#,
        r#"{"type":"message","content":{"other":1}}"#,
        r#"{"type":"function_call","name":"f","call_id":"c","arguments":{"k":[1,2]}}"#,
        r#"{"type":"function_call_output","call_id":"c","output":[{"text":"x"},{"text":"y"}]}"#,
        r#"{"type":"custom_tool_call_output","call_id":"d","output":{"text":"z"}}"#,
        r#"{"type":"custom_tool_call_output","call_id":"e"}"#,
        r#"{"type":"tool_search_output","call_id":"s","found":true}"#,
    ] {
        append_response_item_as_chat_messages(&json(item), &mut messages, &mut ids);
    }
    let expected = [
        r#"{"role":"system","content":"a\nb"}"#,
        r#"{"role":"user","content":"d"}"#,
        r#"{"role":"user","content":"{\"other\":1}"}"#,
        r#"{"role":"assistant","content":null,"tool_calls":[{"id":"c","type":"function","function":{"name":"f","arguments":"{\"k\":[1,2]}"}}]}"#,
        r#"{"role":"tool","tool_call_id":"c","content":"x\ny"}"#,
        r#"{"role":"tool","tool_call_id":"d","content":"{\"text\":\"z\"}"}"#,
        r#"{"role":"tool","tool_call_id":"e","content":""}"#,
        r#"{"role":"tool","tool_call_id":"s","content":"{\"call_id\":\"s\",\"found\":true,\"type\":\"tool_search_output\"}"}"#,
    ];
    assert_eq!(messages.len(), expected.len());
    for (message, text) in messages.iter().zip(expected) {
        assert_eq!(value_of(message), value(text));
    }
}

#[test]
fn roles_are_known_and_stay() {
    for (role, expected) in [
        ("developer", "system"),
        ("assistant", "assistant"),
        ("system", "system"),
        ("tool", "tool"),
        ("user", "user"),
        ("critic", "user"),
        ("", "user"),
    ] {
        assert_eq!(chat_role(role), expected);
        assert_eq!(chat_role(chat_role(role)), expected);
    }
}

#[test]
fn input_that_is_no_list_is_one_message_of_the_user() {
    for (input, content) in
        [("\"hi\"", "hi"), ("null", ""), ("7", "7"), ("{\"a\":true}", "{\"a\":true}")]
    {
        let request = json(&format!("{{\"model\":\"m\",\"input\":{input}}}"));
        let (chat, _) = chat_request_of(&request, &config(), &mut IdSource::new()).unwrap();
        let messages = &value_of(&chat)["messages"];
        assert_eq!(messages.as_array().unwrap().len(), 1);
        assert_eq!(messages[0]["role"], "user");
        assert_eq!(messages[0]["content"], content);
    }
}

#[test]
fn requests_that_cannot_be_carried_over_are_refused() {
    let mut ids = IdSource::new();
    let refused = build_chat_completion_request(b"{", &config(), &mut ids);
    assert!(matches!(refused, Err(BridgeError::RequestNotJson)));
    let mut no_model = config();
    no_model.model = None;
    let refused = build_chat_completion_request(b"{\"input\":\"x\"}", &no_model, &mut ids);
    assert!(matches!(refused, Err(BridgeError::MissingModel)));
    let refused =
        build_chat_completion_request(b"{\"instructions\":\" \",\"input\":[]}", &config(), &mut ids);
    assert!(matches!(refused, Err(BridgeError::NoMessages)));
    let (chat, context) =
        build_chat_completion_request(b"{\"model\":\"own\",\"input\":\"x\"}", &no_model, &mut ids)
            .unwrap();
    assert_eq!(value_of(&chat)["model"], "own");
    assert_eq!(context.requested_model, "own");
}

#[test]
fn tools_go_under_the_configured_field() {
    let request = json(r#"{"input":"x","tools":[{"type":"function","name":"f"}]}"#);
    let mut other = config();
    other.tool_field = "tools".to_string();
    let (chat, _) = chat_request_of(&request, &other, &mut IdSource::new()).unwrap();
    assert_eq!(value_of(&chat)["tools"][0]["function"]["name"], "f");
    assert!(value_of(&chat).get("toolCalls").is_none());
    other.tool_field = "messages".to_string();
    let (chat, _) = chat_request_of(&request, &other, &mut IdSource::new()).unwrap();
    assert_eq!(value_of(&chat)["messages"][0]["type"], "function");
    let bare = json(r#"{"input":"x","tools":[{"type":"web_search"}]}"#);
    let (chat, _) = chat_request_of(&bare, &config(), &mut IdSource::new()).unwrap();
    assert!(value_of(&chat).get("toolCalls").is_none());
}

#[test]
fn a_temperature_without_a_number_is_null() {
    let mut other = config();
    other.temperature = serde_json::Number::from_f64(f64::NAN);
    other.stream_upstream = true;
    other.thinking = true;
    other.max_tokens = u32::MAX;
    let request = json(r#"{"input":"x"}"#);
    let (chat, _) = chat_request_of(&request, &other, &mut IdSource::new()).unwrap();
    let chat = value_of(&chat);
    assert_eq!(chat["temperature"], Value::Null);
    assert_eq!(chat["stream"], true);
    assert_eq!(chat["thinking"], true);
    assert_eq!(chat["max_tokens"], 4294967295u64);
    other.temperature = serde_json::Number::from_f64(0.25);
    let (chat, _) = chat_request_of(&request, &other, &mut IdSource::new()).unwrap();
    assert_eq!(value_of(&chat)["temperature"], 0.25);
}

#[test]
fn usage_is_put_into_the_other_form() {
    let usage = json(
        r#"{"prompt_tokens":10,"input_tokens":1,"completion_tokens":4,"prompt_cache_hit_tokens":6,
            "completion_tokens_details":{"reasoning_tokens":2},"total_tokens":99}"#,
    );
    let normalized = normalize_usage(&usage);
    assert_eq!(
        value_of(&normalized),
        value(
            r#"{"input_tokens":10,"input_tokens_details":{"cached_tokens":6},"output_tokens":4,
                "output_tokens_details":{"reasoning_tokens":2},"total_tokens":99}"#
        )
    );
    let again = value_of(&normalize_usage(&normalized));
    assert_eq!(again["input_tokens"], 10);
    assert_eq!(again["output_tokens"], 4);
    assert_eq!(again["total_tokens"], 99);
    assert_eq!(again["input_tokens_details"]["cached_tokens"], 0);
}

#[test]
fn a_missing_total_is_the_sum() {
    let usage = json(r#"{"input_tokens":3,"output_tokens":4,"cached_tokens":1}"#);
    let normalized = value_of(&normalize_usage(&usage));
    assert_eq!(normalized["total_tokens"], 7);
    assert_eq!(normalized["input_tokens_details"]["cached_tokens"], 1);
    let wide = json(r#"{"input_tokens":9223372036854775807,"output_tokens":1}"#);
    assert_eq!(value_of(&normalize_usage(&wide))["total_tokens"], i64::MIN);
    let odd = json(r#"{"prompt_tokens":"x","input_tokens":5,"completion_tokens":1.5}"#);
    assert_eq!(value_of(&normalize_usage(&odd))["total_tokens"], 0);
    assert_eq!(value_of(&normalize_usage(&json("null")))["total_tokens"], 0);
}

#[test]
fn names_are_held_once() {
    let mut names = NameSet::new();
    names.insert("a");
    names.insert("b");
    names.insert("a");
    assert!(names.contains("a") && names.contains("b"));
    assert!(!names.contains("ab") && !names.contains(""));
}
