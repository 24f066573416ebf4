//! Reading replies, whole and in chunks.

use responses_api_proxy::error::BridgeError;
use responses_api_proxy::ids::IdSource;
use responses_api_proxy::json::Json;
use responses_api_proxy::render::normalize_chat_completion_response;
use responses_api_proxy::request::BridgeRequestContext;
use responses_api_proxy::response::{
    extract_tool_calls, output_of_reply, parse_streaming_chat_completion,
    parse_unary_chat_completion, ChatCompletionOutput, ChatStream, ChatToolCall,
};

fn json(text: &str) -> Json {
    Json::from_text(text).unwrap()
}

fn call(id: Option<&str>, name: &str, arguments: &str) -> ChatToolCall {
    ChatToolCall {
        id: id.map(|id| id.to_string()),
        name: name.to_string(),
        arguments: arguments.to_string(),
    }
}

#[test]
fn a_whole_reply_is_read() {
    let output = parse_unary_chat_completion(
        r#"{"id":"i","model":"m","usage":{"total_tokens":1},"choices":[
            {"message":{"content":[{"text":"a"},{"text":"b"}],"toolCalls":[
                {"id":"x","function":{"name":"f","arguments":{"k":1}}},
                {"function":{"name":"g"}},
                {"id":"y"},
                {"id":"z","function":{"arguments":"{}"}}
            ]}},
            {"message":{"content":"other"}}
        ]}"#,
    )
    .unwrap();
    assert_eq!(output.id.as_deref(), Some("i"));
    assert_eq!(output.model.as_deref(), Some("m"));
    assert_eq!(output.content, "a\nb");
    assert_eq!(
        output.tool_calls,
        vec![call(Some("x"), "f", "{\"k\":1}"), call(None, "g", "{}")]
    );
    assert_eq!(output.usage.unwrap().to_text(), "{\"total_tokens\":1}");
}

#[test]
fn replies_without_a_message_are_refused() {
    assert!(matches!(parse_unary_chat_completion("hm"), Err(BridgeError::ReplyNotJson)));
    for body in [r#"{}"#, r#"{"choices":[]}"#, r#"{"choices":{}}"#, r#"[]"#] {
        let read = parse_unary_chat_completion(body);
        assert!(matches!(read, Err(BridgeError::MissingChoice)));
    }
    let read = output_of_reply(&json(r#"{"choices":[{"text":"x"}]}"#));
    assert!(matches!(read, Err(BridgeError::MissingMessage)));
    let read = output_of_reply(&json(r#"{"choices":[{"delta":{"content":"x"}}]}"#));
    assert_eq!(read.unwrap().content, "x");
}

#[test]
fn errors_tell_what_went_wrong() {
    let sentences = [
        (BridgeError::RequestNotJson, "parsing Responses request body"),
        (BridgeError::MissingModel, "Responses request is missing `model`"),
        (BridgeError::NoMessages, "Responses request did not contain any chat messages"),
        (BridgeError::ReplyNotJson, "parsing chat completions response"),
        (BridgeError::MissingChoice, "chat completions response did not contain choices[0]"),
        (BridgeError::MissingMessage, "chat completions choice did not contain message"),
        (
            BridgeError::ChunkNotJson("{oops".to_string()),
            "parsing chat completions stream chunk: {oops",
        ),
    ];
    for (error, sentence) in sentences {
        assert_eq!(error.message(), sentence);
    }
}

#[test]
fn a_list_under_the_first_key_counts_even_where_it_is_none() {
    let message = json(
        r#"{"tool_calls":null,"toolCalls":[{"function":{"name":"f"}}]}"#,
    );
    assert!(extract_tool_calls(&message).is_empty());
    let message = json(r#"{"toolCalls":[{"function":{"name":"f"}}]}"#);
    assert_eq!(extract_tool_calls(&message), vec![call(None, "f", "{}")]);
}

#[test]
fn chunks_are_put_together() {
    let body = concat_events(&[
        r#"{"id":"first","choices":[{"delta":{"content":"Hel"}}]}"#,
        r#"{"id":"second","model":"m","choices":[{"delta":{"content":"lo"}},{"message":{"content":"!"}}]}"#,
        r#"{"choices":[{"delta":{"content":["not text"],"tool_calls":[{"index":1,"id":"b","function":{"name":"g","arguments":"{\"x\""}}]}}]}"#,
        r#"{"choices":[{"delta":{"tool_calls":[{"index":0,"function":{"name":"f"}},{"index":1,"function":{"arguments":":1}"}}]}}]}"#,
        r#"{"choices":[{"delta":{"tool_calls":[{"index":7,"function":{"arguments":"nameless"}}]}}]}"#,
        r#"{"usage":{"total_tokens":1}}"#,
        r#"{"usage":{"total_tokens":2},"choices":7}"#,
        "[DONE]",
    ]);
    let output = parse_streaming_chat_completion(&body).unwrap();
    assert_eq!(output.id.as_deref(), Some("first"));
    assert_eq!(output.model.as_deref(), Some("m"));
    assert_eq!(output.content, "Hello!");
    assert_eq!(
        output.tool_calls,
        vec![call(None, "f", "{}"), call(Some("b"), "g", "{\"x\":1}")]
    );
    assert_eq!(output.usage.unwrap().to_text(), "{\"total_tokens\":2}");
}

fn concat_events(data: &[&str]) -> String {
    data.iter().map(|data| format!("data: {data}\r\n\r\n")).collect()
}

#[test]
fn a_bad_chunk_is_named() {
    let body = concat_events(&["{\"id\":\"x\"}", "{bad", "{worse"]);
    match parse_streaming_chat_completion(&body) {
        Err(BridgeError::ChunkNotJson(data)) => assert_eq!(data, "{bad"),
        other => panic!("{other:?}"),
    }
}

#[test]
fn the_last_identifier_and_name_count_and_places_stand_in_for_indices() {
    let mut stream = ChatStream::new();
    stream.add_chunk(&json(
        r#"{"choices":[{"delta":{"toolCalls":[
            {"id":"a1","function":{"name":"one","arguments":"x"}},
            {"id":"b1","function":{"name":"two","arguments":"y"}}
        ]}}]}"#,
    ));
    stream.add_chunk(&json(
        r#"{"choices":[{"delta":{"toolCalls":[{"id":"a2","function":{"name":"uno","arguments":"z"}}]}}]}"#,
    ));
    let output = stream.finish();
    assert_eq!(
        output.tool_calls,
        vec![call(Some("a2"), "uno", "xz"), call(Some("b1"), "two", "y")]
    );
}

#[test]
fn chunk_boundaries_do_not_matter() {
    let deltas = ["a", "b", "c"];
    let mut apart = ChatStream::new();
    for text in deltas {
        apart.add_chunk(&json(&format!(
            "{{\"choices\":[{{\"delta\":{{\"content\":\"{text}\"}}}}]}}"
        )));
    }
    let mut together = ChatStream::new();
    together.add_chunk(&json(
        r#"{"choices":[{"delta":{"content":"a"}},{"delta":{"content":"b"}},{"delta":{"content":"c"}}]}"#,
    ));
    assert_eq!(apart.finish().content, "abc");
    assert_eq!(together.finish().content, "abc");
}

#[test]
fn one_chunk_means_what_a_whole_reply_means() {
    let reply = json(
        r#"{"id":"i","choices":[{"message":{"content":"t","tool_calls":[
            {"id":"a","function":{"name":"f","arguments":"{\"k\":1}"}},
            {"id":"skipped"},
            {"function":{"name":"g"}}
        ]}}],"usage":{"total_tokens":3}}"#,
    );
    let whole = output_of_reply(&reply).unwrap();
    let mut stream = ChatStream::new();
    stream.add_chunk(&reply);
    let chunk = stream.finish();
    assert_eq!(whole.id, chunk.id);
    assert_eq!(whole.model, chunk.model);
    assert_eq!(whole.content, chunk.content);
    assert_eq!(whole.tool_calls, chunk.tool_calls);
    assert_eq!(whole.tool_calls.len(), 2);
    assert_eq!(whole.usage.unwrap().to_text(), chunk.usage.unwrap().to_text());
}

#[test]
fn several_chunks_mean_what_a_whole_reply_means() {
    let whole = output_of_reply(&json(
        r#"{"id":"i","model":"m","choices":[{"message":{"content":"Hello!","tool_calls":[
            {"id":"a","function":{"name":"f","arguments":"{\"k\":1}"}},
            {"id":"b","function":{"name":"g","arguments":"{}"}}
        ]}}],"usage":{"total_tokens":3}}"#,
    ))
    .unwrap();
    let mut stream = ChatStream::new();
    for chunk in [
        r#"{"id":"i","model":"m","choices":[{"delta":{"content":"Hel"}}]}"#,
        r#"{"id":"i","choices":[{"delta":{"tool_calls":[{"index":1,"id":"b","function":{"name":"g"}},{"index":0,"id":"a","function":{"name":"f","arguments":"{\"k"}}]}}]}"#,
        r#"{"choices":[{"delta":{"content":"lo!"}}]}"#,
        r#"{"choices":[{"delta":{"tool_calls":[{"index":0,"function":{"arguments":"\":1}"}},{"index":1,"function":{"arguments":"{}"}}]}}],"usage":{"total_tokens":3}}"#,
    ] {
        stream.add_chunk(&json(chunk));
    }
    let output = stream.finish();
    assert_eq!(output.id, whole.id);
    assert_eq!(output.model, whole.model);
    assert_eq!(output.content, whole.content);
    assert_eq!(output.tool_calls, whole.tool_calls);
    assert_eq!(output.usage.unwrap().to_text(), whole.usage.unwrap().to_text());
}

#[test]
fn text_chunks_mean_what_a_whole_reply_means() {
    let whole = output_of_reply(&json(
        r#"{"id":"i","choices":[{"message":{"content":"abc"}}],"usage":{"total_tokens":2}}"#,
    ))
    .unwrap();
    let body = concat_events(&[
        r#"{"id":"i","choices":[{"delta":{"content":"a"}}]}"#,
        r#"{"id":"i","choices":[{"delta":{"content":"b"}}]}"#,
        r#"{"id":"i","choices":[{"delta":{"content":"c"}}],"usage":{"total_tokens":2}}"#,
        "[DONE]",
    ]);
    let output = parse_streaming_chat_completion(&body).unwrap();
    assert_eq!(output.id, whole.id);
    assert_eq!(output.model, whole.model);
    assert_eq!(output.content, "abc");
    assert_eq!(output.content, whole.content);
    assert!(output.tool_calls.is_empty() && whole.tool_calls.is_empty());
    assert_eq!(output.usage.unwrap().to_text(), whole.usage.unwrap().to_text());
}

#[test]
fn a_stream_is_told_from_a_whole_reply() {
    let context = BridgeRequestContext {
        custom_tool_names: Default::default(),
        requested_model: "asked".to_string(),
    };
    let stream = "\n  data: {\"choices\":[{\"delta\":{\"content\":\"hi\"}}]}\n\ndata: [DONE]\n\n";
    let bytes =
        normalize_chat_completion_response(stream, &context, &mut IdSource::new()).unwrap();
    let text = String::from_utf8(bytes).unwrap();
    // The white space in front of the first line keeps it from being a line of data.
    assert!(!text.contains("\"delta\":\"hi\""));
    assert!(text.contains("\"model\":\"asked\""));
    let stream = "event: x\ndata: {\"choices\":[{\"delta\":{\"content\":\"hi\"}}]}\n\ndata: [DONE]\n\n";
    let bytes =
        normalize_chat_completion_response(stream, &context, &mut IdSource::new()).unwrap();
    assert!(String::from_utf8(bytes).unwrap().contains("\"delta\":\"hi\""));
    let refused = normalize_chat_completion_response("{}", &context, &mut IdSource::new());
    assert!(matches!(refused, Err(BridgeError::MissingChoice)));
}

#[test]
fn an_end_mark_does_not_matter() {
    let a = "data: {\"choices\":[{\"delta\":{\"content\":\"a\"}}]}\n\n";
    let b = "data: {\"choices\":[{\"delta\":{\"content\":\"b\"}}]}";
    let mark = "data: [DONE]\n\n";
    for (before, after, content) in [
        (a.to_string(), b.to_string(), "ab"),
        (String::new(), format!("{a}{b}"), "ab"),
        (format!("{a}\n"), format!("\n{b}"), "ab"),
        (a.replace("\n\n", "\r\n\r\n"), b.to_string(), "ab"),
        (a.to_string(), String::new(), "a"),
    ] {
        let marked = parse_streaming_chat_completion(&format!("{before}{mark}{after}")).unwrap();
        let plain = parse_streaming_chat_completion(&format!("{before}{after}")).unwrap();
        assert_eq!(marked.content, content);
        assert_eq!(plain.content, content);
    }
    for body in [format!("{a}{mark}data: bad"), format!("{a}data: bad")] {
        let read = parse_streaming_chat_completion(&body);
        assert!(matches!(read, Err(BridgeError::ChunkNotJson(data)) if data == "bad"));
    }
}

#[test]
fn streamed_text_is_carried_over_like_whole_text() {
    let context = BridgeRequestContext {
        custom_tool_names: Default::default(),
        requested_model: "asked".to_string(),
    };
    let whole = r#"{"id":"i","model":"m","choices":[{"message":{"content":"abc"}}],"usage":{"prompt_tokens":2}}"#;
    let streamed = format!(
        "{}data: [DONE]",
        concat_events(&[
            r#"{"id":"i","model":"m","choices":[{"delta":{"content":"a"}}]}"#,
            r#"{"id":"i","model":"m","choices":[{"delta":{"content":"bc"}}],"usage":{"prompt_tokens":2}}"#,
        ])
        .replace("\r\n", "\n")
    );
    let carried = |body: &str| {
        let bytes =
            normalize_chat_completion_response(body, &context, &mut IdSource::new()).unwrap();
        let text = String::from_utf8(bytes).unwrap();
        let start = text.find("msg_").unwrap();
        let end = start + text[start..].find('"').unwrap();
        let message_id = text[start..end].to_string();
        text.replace(&message_id, "ID")
    };
    let (one, other) = (carried(whole), carried(&streamed));
    assert_eq!(one, other);
    assert!(one.contains("\"delta\":\"abc\""));
    assert!(one.contains("\"end_turn\":true"));
    assert!(one.contains("\"input_tokens\":2"));
}

#[test]
fn a_copy_of_a_call_is_the_same_call() {
    let one = call(Some("i"), "n", "a");
    assert_eq!(one.clone(), one);
    let empty = ChatCompletionOutput::default();
    assert!(empty.id.is_none() && empty.model.is_none() && empty.usage.is_none());
    assert!(empty.content.is_empty() && empty.tool_calls.is_empty());
}
