//! Configuration, headers, routes and answers.

use responses_api_proxy::config::{
    forward_mode, forward_mode_for_url, host_header_for_url, Args, ChatCompletionsBridgeConfig,
    ConfigError, ForwardMode, ResponsesForwardConfig, UpstreamUrl,
};
use responses_api_proxy::headers::{
    event_stream_headers, headers_for_chat, headers_for_responses, is_visible_text,
    json_content_type, relay_headers, relay_listed, upstream_headers,
};
use responses_api_proxy::ids::IdSource;
use responses_api_proxy::proxy::{
    begin_bridge, error_reply, finish_bridge, forwarded_request, length_in_memory, route,
    status_of_route, BridgeEnd, BridgeStart, RequestMethod, Route,
};
use responses_api_proxy::request::BridgeRequestContext;

use reqwest::header::{HeaderMap, HeaderValue};

fn args() -> Args {
    Args {
        upstream_url: "https://api.openai.com/v1/responses".to_string(),
        chat_completions_upstream_url: None,
        chat_completions_host_header: None,
        chat_completions_model: None,
        chat_completions_tool_field: "toolCalls".to_string(),
        chat_completions_user_agent: None,
        chat_completions_thinking: false,
        chat_completions_max_tokens: 1000,
        chat_completions_temperature: serde_json::Number::from_f64(0.0),
        chat_completions_stream_upstream: false,
    }
}

fn bridge_config() -> ChatCompletionsBridgeConfig {
    ChatCompletionsBridgeConfig {
        upstream_url: UpstreamUrl::parse("http://127.0.0.1:8000/v1/chat").unwrap(),
        host_header: HeaderValue::from_static("host.example"),
        model: Some("m".to_string()),
        tool_field: "toolCalls".to_string(),
        user_agent: Some(HeaderValue::from_static("agent/1")),
        thinking: false,
        max_tokens: 1000,
        temperature: serde_json::Number::from_f64(0.0),
        stream_upstream: false,
    }
}

fn header(name: &str, value: &[u8]) -> (String, Vec<u8>) {
    (name.to_string(), value.to_vec())
}

fn context() -> BridgeRequestContext {
    BridgeRequestContext {
        custom_tool_names: Default::default(),
        requested_model: "m".to_string(),
    }
}

fn shown(headers: &[tiny_http::Header]) -> Vec<(String, String)> {
    let mut shown: Vec<(String, String)> = headers
        .iter()
        .map(|header| {
            (header.field.as_str().as_str().to_string(), header.value.as_str().to_string())
        })
        .collect();
    shown.sort();
    shown
}

#[test]
fn urls_are_read() {
    let url = UpstreamUrl::parse("HTTP://Example.COM:80/a b").unwrap();
    assert_eq!(url.href, "http://example.com/a%20b");
    assert_eq!(url.host.as_deref(), Some("example.com"));
    assert_eq!(url.port, None);
    let url = UpstreamUrl::parse("http://127.0.0.1:8000/x").unwrap();
    assert_eq!(url.port, Some(8000));
    let url = UpstreamUrl::parse("mailto:someone").unwrap();
    assert_eq!(url.host, None);
    assert_eq!(UpstreamUrl::parse("no url").unwrap_err(), "relative URL without a base");
}

#[test]
fn the_host_header_names_host_and_port() {
    let url = UpstreamUrl::parse("http://127.0.0.1:8000/x").unwrap();
    assert_eq!(host_header_for_url(&url, None).unwrap(), "127.0.0.1:8000");
    assert_eq!(host_header_for_url(&url, Some("other.example")).unwrap(), "other.example");
    assert_eq!(host_header_for_url(&url, Some("\u{e4}")).unwrap().as_bytes(), b"\xc3\xa4");
    let url = UpstreamUrl::parse("https://api.example:443/x").unwrap();
    assert_eq!(host_header_for_url(&url, None).unwrap(), "api.example");
    let url = UpstreamUrl::parse("data:text/plain,x").unwrap();
    assert!(matches!(host_header_for_url(&url, None), Err(ConfigError::NoHost)));
    assert!(matches!(
        host_header_for_url(&url, Some("bad\nhost")),
        Err(ConfigError::BadHostHeader)
    ));
}

#[test]
fn requests_go_to_the_responses_upstream_by_default() {
    match forward_mode(args()).unwrap() {
        ForwardMode::Responses(config) => {
            assert_eq!(config.upstream_url.href, "https://api.openai.com/v1/responses");
            assert_eq!(config.host_header, "api.openai.com");
        }
        other => panic!("{other:?}"),
    }
}

#[test]
fn requests_go_to_the_chat_upstream_where_one_is_given() {
    let mut args = args();
    args.chat_completions_upstream_url = Some("http://h.example:81/chat".to_string());
    args.chat_completions_host_header = Some("x.example".to_string());
    args.chat_completions_model = Some("m".to_string());
    args.chat_completions_tool_field = "tools".to_string();
    args.chat_completions_user_agent = Some("agent/2".to_string());
    args.chat_completions_thinking = true;
    args.chat_completions_max_tokens = 5;
    args.chat_completions_temperature = serde_json::Number::from_f64(0.5);
    args.chat_completions_stream_upstream = true;
    match forward_mode(args).unwrap() {
        ForwardMode::ChatCompletions(config) => {
            assert_eq!(config.upstream_url.href, "http://h.example:81/chat");
            assert_eq!(config.host_header, "x.example");
            assert_eq!(config.model.as_deref(), Some("m"));
            assert_eq!(config.tool_field, "tools");
            assert_eq!(config.user_agent.unwrap(), "agent/2");
            assert!(config.thinking && config.stream_upstream);
            assert_eq!(config.max_tokens, 5);
            assert_eq!(config.temperature, serde_json::Number::from_f64(0.5));
        }
        other => panic!("{other:?}"),
    }
}

#[test]
fn bad_configurations_are_refused() {
    let mut bad = args();
    bad.upstream_url = "nope".to_string();
    let error = forward_mode(bad).unwrap_err();
    assert!(matches!(&error, ConfigError::BadUrl(reason) if reason == "relative URL without a base"));
    assert_eq!(error.message(), "parsing --upstream-url");
    let mut bad = args();
    bad.chat_completions_upstream_url = Some("nope".to_string());
    let error = forward_mode(bad).unwrap_err();
    assert!(matches!(&error, ConfigError::BadChatUrl(_)));
    assert_eq!(error.message(), "parsing --chat-completions-upstream-url");
    let mut bad = args();
    bad.upstream_url = "mailto:a".to_string();
    let error = forward_mode(bad).unwrap_err();
    assert_eq!(error.message(), "upstream URL must include a host");
    let mut bad = args();
    bad.chat_completions_upstream_url = Some("http://h/".to_string());
    bad.chat_completions_host_header = Some("b\u{7f}d".to_string());
    let error = forward_mode(bad).unwrap_err();
    assert_eq!(error.message(), "constructing Host header from upstream URL");
    let mut bad = args();
    bad.chat_completions_upstream_url = Some("http://h/".to_string());
    bad.chat_completions_user_agent = Some("a\nb".to_string());
    let error = forward_mode(bad).unwrap_err();
    assert_eq!(
        error.message(),
        "constructing User-Agent header from --chat-completions-user-agent"
    );
    let error = forward_mode_for_url(args(), Err("why".to_string())).unwrap_err();
    assert!(matches!(error, ConfigError::BadUrl(reason) if reason == "why"));
}

#[test]
fn the_clients_credentials_stay_behind() {
    let incoming = vec![
        header("Authorization", b"Bearer client"),
        header("HOST", b"localhost"),
        header("X-One", b"1"),
        header("x-one", b"2"),
        header("Content-Length", b"3"),
        header("bad name", b"x"),
        header("X-Bad", b"a\nb"),
        header("X-Latin", b"\xe4"),
    ];
    let headers = upstream_headers(&incoming, "Bearer secret").unwrap();
    let authorization: Vec<&HeaderValue> = headers.get_all("authorization").iter().collect();
    assert_eq!(authorization, vec!["Bearer secret"]);
    assert!(authorization[0].is_sensitive());
    assert!(headers.get("host").is_none());
    let ones: Vec<&HeaderValue> = headers.get_all("x-one").iter().collect();
    assert_eq!(ones, vec!["1", "2"]);
    assert_eq!(headers.get("x-latin").unwrap().as_bytes(), b"\xe4");
    assert!(headers.get("x-bad").is_none());
    assert_eq!(headers.get("content-length").unwrap(), "3");
    assert_eq!(headers.keys_len(), 4);
}

#[test]
fn visible_texts_are_told_from_others() {
    assert!(is_visible_text("Bearer a-b_c~\t") && is_visible_text(""));
    assert!(!is_visible_text("a\nb") && !is_visible_text("\u{7f}") && !is_visible_text("\u{e4}"));
}

#[test]
fn no_more_headers_are_collected_than_fit() {
    let incoming: Vec<(String, Vec<u8>)> =
        (0..40000).map(|n| header(&format!("x-{n}"), b"v")).collect();
    assert!(upstream_headers(&incoming, "Bearer secret").is_none());
    let incoming: Vec<(String, Vec<u8>)> =
        (0..6000).map(|n| header(&format!("x-{n}"), b"v")).collect();
    assert!(upstream_headers(&incoming, "Bearer secret").is_some());
}

#[test]
fn upstream_headers_are_completed() {
    let incoming = vec![
        header("Content-Type", b"text/plain"),
        header("Accept", b"*/*"),
        header("Accept", b"a/b"),
        header("Content-Length", b"3"),
        header("User-Agent", b"client"),
    ];
    let config = bridge_config();
    let headers = upstream_headers(&incoming, "Bearer s").unwrap();
    let chat = headers_for_chat(headers, &config.host_header, &config.user_agent).unwrap();
    assert_eq!(chat.get("host").unwrap(), "host.example");
    assert_eq!(chat.get("content-type").unwrap(), "application/json");
    let accept: Vec<&HeaderValue> = chat.get_all("accept").iter().collect();
    assert_eq!(accept, vec!["text/event-stream"]);
    assert!(chat.get("content-length").is_none());
    assert_eq!(chat.get("user-agent").unwrap(), "agent/1");
    let headers = upstream_headers(&incoming, "Bearer s").unwrap();
    let chat = headers_for_chat(headers, &config.host_header, &None).unwrap();
    assert_eq!(chat.get("user-agent").unwrap(), "client");
    let headers = upstream_headers(&incoming, "Bearer s").unwrap();
    let plain = headers_for_responses(headers, &config.host_header).unwrap();
    assert_eq!(plain.get("host").unwrap(), "host.example");
    assert_eq!(plain.get("content-length").unwrap(), "3");
    assert_eq!(plain.get("content-type").unwrap(), "text/plain");
}

#[test]
fn headers_of_one_connection_are_not_relayed() {
    let mut headers = HeaderMap::new();
    for name in ["content-length", "transfer-encoding", "connection", "trailer", "upgrade"] {
        headers.insert(name, HeaderValue::from_static("x"));
    }
    headers.append("x-a", HeaderValue::from_static("1"));
    headers.append("x-a", HeaderValue::from_static("2"));
    headers.append("x-b", HeaderValue::from_bytes(b"\xe4").unwrap());
    let relayed = shown(&relay_headers(&headers));
    let expected: Vec<(String, String)> = [("x-a", "1"), ("x-a", "2")]
        .iter()
        .map(|(name, value)| (name.to_string(), value.to_string()))
        .collect();
    assert_eq!(relayed, expected);
    let listed = vec![header("x-c", b"3"), header("upgrade", b"h2")];
    assert_eq!(shown(&relay_listed(&listed)), vec![("x-c".to_string(), "3".to_string())]);
}

#[test]
fn event_streams_are_announced() {
    let relayed = shown(&relay_headers(&event_stream_headers()));
    assert_eq!(
        relayed,
        vec![
            ("cache-control".to_string(), "no-cache".to_string()),
            ("content-type".to_string(), "text/event-stream".to_string()),
        ]
    );
    let header = json_content_type().unwrap();
    assert_eq!(header.field.as_str().as_str(), "content-type");
    assert_eq!(header.value.as_str(), "application/json");
}

#[test]
fn only_responses_requests_go_upstream() {
    assert_eq!(route(false, RequestMethod::Post, "/v1/responses"), Route::Forward);
    assert_eq!(route(true, RequestMethod::Post, "/v1/responses"), Route::Forward);
    assert_eq!(route(true, RequestMethod::Get, "/shutdown"), Route::Shutdown);
    for (method, url) in [
        (RequestMethod::Get, "/shutdown"),
        (RequestMethod::Get, "/v1/responses"),
        (RequestMethod::Post, "/v1/responses?x=1"),
        (RequestMethod::Post, "/v1/responses/"),
        (RequestMethod::Other, "/v1/responses"),
        (RequestMethod::Post, "/shutdown"),
    ] {
        assert_eq!(route(false, method, url), Route::Forbidden);
    }
    assert_eq!(status_of_route(Route::Forbidden), Some(403));
    assert_eq!(status_of_route(Route::Shutdown), Some(200));
    assert_eq!(status_of_route(Route::Forward), None);
}

#[test]
fn errors_are_told_as_json() {
    let reply = error_reply(400, "say \"why\"");
    assert_eq!(reply.status, 400);
    assert_eq!(
        reply.body,
        r#"{"error":{"message":"say \"why\"","type":"invalid_request_error"}}"#
    );
    assert_eq!(reply.content_type.unwrap().value.as_str(), "application/json");
}

#[test]
fn lengths_fit_into_memory_or_are_unknown() {
    assert_eq!(length_in_memory(None), None);
    assert_eq!(length_in_memory(Some(7)), Some(7));
    assert_eq!(length_in_memory(Some(u64::MAX)), usize::try_from(u64::MAX).ok());
}

#[test]
fn plain_requests_are_forwarded_as_they_are() {
    let config = ResponsesForwardConfig {
        upstream_url: UpstreamUrl::parse("https://api.example/v1/responses").unwrap(),
        host_header: HeaderValue::from_static("api.example"),
    };
    let headers = upstream_headers(&vec![header("X", b"1")], "Bearer s").unwrap();
    let made = forwarded_request(&config, headers, b"not json".to_vec()).unwrap();
    assert_eq!(made.url, "https://api.example/v1/responses");
    assert_eq!(made.body, b"not json");
    assert_eq!(made.headers.get("host").unwrap(), "api.example");
    assert_eq!(made.headers.get("x").unwrap(), "1");
}

#[test]
fn a_request_is_carried_over_or_refused() {
    let config = bridge_config();
    let mut ids = IdSource::new();
    let headers = upstream_headers(&vec![], "Bearer s").unwrap();
    match begin_bridge(&config, headers, b"{\"input\":\"hi\"}", &mut ids) {
        BridgeStart::Send(made, context) => {
            assert_eq!(made.url, "http://127.0.0.1:8000/v1/chat");
            assert_eq!(
                String::from_utf8(made.body).unwrap(),
                r#"{"frequency_penalty":0,"max_tokens":1000,"messages":[{"content":"hi","role":"user"}],"model":"m","presence_penalty":0,"stop":null,"stream":false,"temperature":0.0,"thinking":false}"#
            );
            assert_eq!(made.headers.get("authorization").unwrap(), "Bearer s");
            assert_eq!(made.headers.get("user-agent").unwrap(), "agent/1");
            assert_eq!(context.requested_model, "m");
        }
        other => panic!("{other:?}"),
    }
    let headers = upstream_headers(&vec![], "Bearer s").unwrap();
    match begin_bridge(&config, headers, b"{}", &mut ids) {
        BridgeStart::Answer(reply) => {
            assert_eq!(reply.status, 400);
            assert_eq!(
                reply.body,
                r#"{"error":{"message":"Responses request did not contain any chat messages","type":"invalid_request_error"}}"#
            );
        }
        other => panic!("{other:?}"),
    }
}

#[test]
fn a_reply_is_carried_back() {
    let mut ids = IdSource::new();
    let mut headers = HeaderMap::new();
    headers.insert("x-upstream", HeaderValue::from_static("1"));
    match finish_bridge(429, headers.clone(), "slow down", &context(), &mut ids) {
        BridgeEnd::Answer(reply) => {
            assert_eq!(reply.status, 429);
            assert_eq!(reply.body, b"slow down");
            assert_eq!(reply.headers.get("x-upstream").unwrap(), "1");
        }
        other => panic!("{other:?}"),
    }
    for status in [199, 300] {
        let end = finish_bridge(status, headers.clone(), "{}", &context(), &mut ids);
        assert!(matches!(end, BridgeEnd::Answer(reply) if reply.status == status));
    }
    let body = r#"{"choices":[{"message":{"content":"hi"}}]}"#;
    for status in [200, 299] {
        match finish_bridge(status, headers.clone(), body, &context(), &mut ids) {
            BridgeEnd::Answer(reply) => {
                assert_eq!(reply.status, 200);
                assert!(reply.headers.get("x-upstream").is_none());
                assert_eq!(reply.headers.get("content-type").unwrap(), "text/event-stream");
                assert!(reply.body.starts_with(b"event: response.created\ndata: {"));
            }
            other => panic!("{other:?}"),
        }
    }
    match finish_bridge(200, headers, "oops", &context(), &mut ids) {
        BridgeEnd::Failure(reply) => {
            assert_eq!(reply.status, 502);
            assert_eq!(
                reply.body,
                r#"{"error":{"message":"parsing chat completions response","type":"invalid_request_error"}}"#
            );
        }
        other => panic!("{other:?}"),
    }
}
