//! Text, JSON values, identifiers and event streams.

use responses_api_proxy::content::{
    arguments_to_string, content_items_to_text, function_output_to_text, value_to_text,
};
use responses_api_proxy::custom::{custom_tool_arguments, custom_tool_input, input_of_arguments};
use responses_api_proxy::ids::{
    item_id, next_call_id, next_item_id, next_response_id, timestamp_millis, IdSource,
};
use responses_api_proxy::json::Json;
use responses_api_proxy::names::NameSet;
use responses_api_proxy::sse::{looks_like_sse, sse_data_messages, write_sse_event};
use responses_api_proxy::text::{
    begins_with, decimal_text, is_blank, is_white_space, join, same_text, to_lower_case,
};
use responses_api_proxy::tools::{
    chat_function_tool, convert_function_tool, convert_function_tool_with_namespace,
    convert_responses_tools,
};

use serde_json::Value;

fn json(text: &str) -> Json {
    Json::from_text(text).unwrap()
}

fn value_of(json: &Json) -> Value {
    serde_json::from_str(&json.to_text()).unwrap()
}

fn value(text: &str) -> Value {
    serde_json::from_str(text).unwrap()
}

#[test]
fn white_space_is_that_of_the_standard_library() {
    for code in 0..=0x10ffffu32 {
        if let Some(c) = char::from_u32(code) {
            assert_eq!(is_white_space(c), c.is_whitespace());
        }
    }
}

#[test]
fn texts_are_compared_and_cut() {
    assert!(same_text("é", "é") && !same_text("e", "é") && !same_text("", "a"));
    assert!(is_blank("") && is_blank(" \u{a0}\n") && !is_blank(" x "));
    assert!(begins_with("abc", "ab") && begins_with("abc", "") && !begins_with("ab", "abc"));
    assert_eq!(to_lower_case("X-ÀbZ9"), "x-Àbz9");
    assert_eq!(join(&vec!["a".to_string(), String::new(), "b".to_string()], ", "), "a, , b");
    assert_eq!(join(&vec![], ", "), "");
}

#[test]
fn numbers_are_written_in_decimal() {
    for n in [0u128, 9, 10, 1_700_000_000_000, u64::MAX as u128, u128::MAX] {
        assert_eq!(decimal_text(n), n.to_string());
    }
}

#[test]
fn identifiers_are_made_of_prefix_time_and_number() {
    assert_eq!(item_id("call", 1_700_000_000_000, 7), "call_1700000000000_7");
    let mut ids = IdSource::new();
    let before = std::time::SystemTime::now()
        .duration_since(std::time::UNIX_EPOCH)
        .unwrap()
        .as_millis();
    let all = [
        next_response_id(&mut ids),
        next_call_id(&mut ids),
        next_item_id("msg", &mut ids),
    ];
    let after = std::time::SystemTime::now()
        .duration_since(std::time::UNIX_EPOCH)
        .unwrap()
        .as_millis();
    for (n, (id, prefix)) in all.iter().zip(["resp", "call", "msg"]).enumerate() {
        let parts: Vec<&str> = id.split('_').collect();
        assert_eq!(parts.len(), 3);
        assert_eq!(parts[0], prefix);
        let time: u128 = parts[1].parse().unwrap();
        assert!(before <= time && time <= after);
        assert_eq!(parts[2], (n + 1).to_string());
    }
    assert!(next_item_id("x", &mut IdSource::default()).ends_with("_1"));
}

#[test]
fn times_are_counted_from_the_epoch() {
    let epoch = std::time::UNIX_EPOCH;
    let step = std::time::Duration::from_micros(1_234_567);
    assert_eq!(timestamp_millis(&epoch), 0);
    assert_eq!(timestamp_millis(&(epoch + step)), 1234);
    assert_eq!(timestamp_millis(&(epoch - step)), 0);
}

#[test]
fn parts_behind_a_blank_line_are_read_on_their_own() {
    let parts = ["data: a\n\n", "data: b\r\n\r\n", "event: e\n\n\n", "", "data: c\ndata: d\n\n"];
    for a in parts {
        for b in parts.iter().chain(["data: x", "\ndata: y\n", "\n\n"].iter()) {
            let mut messages = sse_data_messages(a);
            messages.extend(sse_data_messages(b));
            assert_eq!(sse_data_messages(&format!("{a}{b}")), messages);
        }
    }
}

#[test]
fn values_are_read_and_written() {
    let text = r#"{"b":[1,-2,null,true,"x\n\"y\u0001"],"a":{"n":18446744073709551615}}"#;
    let json = json(text);
    assert_eq!(
        json.to_text(),
        r#"{"a":{"n":18446744073709551615},"b":[1,-2,null,true,"x\n\"y\u0001"]}"#
    );
    assert_eq!(json.to_bytes(), json.to_text().into_bytes());
    assert_eq!(Json::from_bytes(text.as_bytes()).unwrap().to_text(), json.to_text());
    assert_eq!(json.clone().to_text(), json.to_text());
    assert!(Json::from_text("{").is_none());
    assert!(Json::from_text("").is_none());
    assert!(Json::from_bytes(&[0xff]).is_none());
}

#[test]
fn of_members_with_the_same_key_the_last_counts() {
    let json = json(r#"{"k":1,"k":2}"#);
    assert_eq!(json.get("k").unwrap().as_i64(), Some(2));
    let built = Json::object().with("k", Json::integer(1)).with("k", Json::integer(3));
    assert_eq!(built.get("k").unwrap().as_i64(), Some(3));
    assert_eq!(built.to_text(), r#"{"k":3}"#);
    assert_eq!(Json::Null.with("k", Json::Null).to_text(), "null");
}

#[test]
fn members_are_found_by_kind() {
    let json = json(r#"{"s":"t","a":[1],"n":-1,"f":1.5,"big":9223372036854775808}"#);
    assert_eq!(json.get_str("s"), Some("t"));
    assert_eq!(json.get_str("a"), None);
    assert_eq!(json.get_array("a").unwrap().len(), 1);
    assert!(json.get_array("s").is_none());
    assert!(json.get("missing").is_none());
    assert_eq!(json.get("n").unwrap().as_i64(), Some(-1));
    assert_eq!(json.get("n").unwrap().as_u64(), None);
    assert_eq!(json.get("f").unwrap().as_i64(), None);
    assert_eq!(json.get("big").unwrap().as_i64(), None);
    assert_eq!(json.get("big").unwrap().as_u64(), Some(9223372036854775808));
    assert!(Json::text("x").get("s").is_none());
}

#[test]
fn deep_values_are_read_back() {
    let mut text = String::new();
    for _ in 0..127 {
        text.push('[');
    }
    for _ in 0..127 {
        text.push(']');
    }
    assert_eq!(json(&text).to_text(), text);
    let deeper = format!("[{text}]");
    assert!(Json::from_text(&deeper).is_none());
}

#[test]
fn values_become_text() {
    assert_eq!(value_to_text(&json("\"a\"")), "a");
    assert_eq!(value_to_text(&Json::Null), "");
    assert_eq!(value_to_text(&json("[1, 2]")), "[1,2]");
    assert_eq!(arguments_to_string(&json("\"a\"")), "a");
    assert_eq!(arguments_to_string(&Json::Null), "null");
    assert_eq!(content_items_to_text(&json("\"a\"")), "a");
    assert_eq!(
        content_items_to_text(&json(
            r#"[{"text":"a","content":"no"},{"text":1,"content":"b"},{"x":1},"c",{"text":"d"}]"#
        )),
        "a\nb\nd"
    );
    assert_eq!(content_items_to_text(&json("[]")), "");
    assert_eq!(content_items_to_text(&json(r#"{"text":"a"}"#)), "a");
    assert_eq!(content_items_to_text(&json(r#"{"text":1}"#)), "{\"text\":1}");
    assert_eq!(content_items_to_text(&json("true")), "true");
    assert_eq!(content_items_to_text(&Json::Null), "");
    assert_eq!(function_output_to_text(&json(r#"[{"text":"a"}]"#)), "a");
    assert_eq!(function_output_to_text(&json(r#"{"text":"a"}"#)), "{\"text\":\"a\"}");
    assert_eq!(function_output_to_text(&json("7")), "7");
    assert_eq!(function_output_to_text(&Json::Null), "");
}

#[test]
fn the_input_of_a_custom_tool_survives() {
    for input in ["", "ls", "a \"quoted\"\nline\t\u{1}", "{\"input\":1}", "ünï"] {
        assert_eq!(custom_tool_input(&custom_tool_arguments(input)), input);
    }
    assert_eq!(custom_tool_input("plain"), "plain");
    assert_eq!(custom_tool_input("{\"other\":1}"), "{\"other\":1}");
    assert_eq!(custom_tool_input("{\"input\":1}"), "{\"input\":1}");
    assert_eq!(input_of_arguments("raw", &None), "raw");
    assert_eq!(input_of_arguments("raw", &Some(json("{\"input\":\"x\"}"))), "x");
}

#[test]
fn streams_are_recognised() {
    assert!(looks_like_sse("data: x"));
    assert!(looks_like_sse(" \n\tevent:x"));
    assert!(!looks_like_sse("{\"data:\":1}"));
    assert!(!looks_like_sse("dat"));
    assert!(!looks_like_sse(""));
    assert!(!looks_like_sse("DATA: x"));
    assert!(!looks_like_sse("id: 1"));
    assert!(!looks_like_sse(": note"));
    for body in ["data:x", "event: e", "{}", "", "x"] {
        let blanks = "\u{a0} \r\n\t\u{3000}";
        assert_eq!(looks_like_sse(&format!("{blanks}{body}")), looks_like_sse(body));
    }
    for body in [" null", "\n\ttrue", "false", "-1", "0.5", "\"data: x\"", "[]", "\r{}"] {
        assert!(Json::from_text(body).is_some());
        assert!(!looks_like_sse(body));
    }
    assert!(Json::from_text("\u{a0}1").is_none());
    assert!(Json::from_text("+1").is_none());
}

#[test]
fn data_lines_are_picked_out() {
    let body = "data: a\r\nid: 1\r\ndata:b\r\n\r\n: note\n\nevent: e\ndata:   c \n\n\n\ndata\n\ndata: d";
    assert_eq!(sse_data_messages(body), vec!["a\nb", "c ", "d"]);
    assert_eq!(sse_data_messages("data:\n\n"), vec![""]);
    assert!(sse_data_messages("").is_empty());
    assert_eq!(sse_data_messages("data: x\r\n"), vec!["x"]);
    assert_eq!(sse_data_messages("data: x\r\r\n"), vec!["x"]);
    assert_eq!(sse_data_messages("data: x\ry\n"), vec!["x\ry"]);
}

#[test]
fn events_are_written_and_read() {
    let mut out = String::new();
    write_sse_event(&mut out, "one", json(r#"{"a":"x\ny"}"#));
    write_sse_event(&mut out, "two", json(r#"{"b":2}"#));
    assert_eq!(
        out,
        "event: one\ndata: {\"a\":\"x\\ny\"}\n\nevent: two\ndata: {\"b\":2}\n\n"
    );
    let mut plain = String::new();
    write_sse_event(&mut plain, "three", Json::text("x\r\ny"));
    assert_eq!(sse_data_messages(&plain), vec!["\"x\\r\\ny\""]);
    for text in ["null", "true", "false", "-7", "1.5", "\" x\"", "[1,2]", "[]"] {
        let mut one = String::new();
        write_sse_event(&mut one, "e", json(text));
        assert_eq!(one, format!("event: e\ndata: {text}\n\n"));
        assert_eq!(sse_data_messages(&one), vec![text]);
    }
    assert_eq!(plain, "event: three\ndata: \"x\\r\\ny\"\n\n");
    assert!(looks_like_sse(&out));
    assert_eq!(sse_data_messages(&out), vec![r#"{"a":"x\ny"}"#, r#"{"b":2}"#]);
}

#[test]
fn tools_become_function_tools() {
    let declared = json(
        r#"[
            {"type":"function","name":"f","description":"F.","parameters":{"p":1}},
            {"type":"function","description":"nameless"},
            {"type":"namespace","name":"ns_","description":"NS.","tools":[
                {"name":"a","description":"A."},
                {"name":"ns_b"},
                {"description":"nameless"},
                {"name":"c","description":""}
            ]},
            {"type":"namespace","tools":[{"name":"d","description":"D."},{"name":"e"}]},
            {"type":"namespace","name":"empty"},
            {"type":"custom","name":"raw"},
            {"type":"custom"},
            {"type":"tool_search"},
            {"type":"tool_search","description":"Find.","parameters":{"q":2}},
            {"type":"web_search"},
            {"type":"image_generation"},
            {"type":"unknown"},
            {"name":"untyped"}
        ]"#,
    );
    let mut names = NameSet::new();
    names.insert("given");
    let tools = convert_responses_tools(declared.as_array().unwrap(), &mut names);
    let expected = [
        ("f", "F.", r#"{"p":1}"#),
        ("ns_a", "NS.\n\nA.", "{}"),
        ("ns_b", "NS.", "{}"),
        ("ns_c", "NS.", "{}"),
        ("d", "D.", "{}"),
        ("e", "", "{}"),
        (
            "raw",
            "",
            r#"{"type":"object","properties":{"input":{"type":"string","description":"Raw input for the custom tool."}},"required":["input"],"additionalProperties":false}"#,
        ),
        ("tool_search", "Search available tools.", "{}"),
        ("tool_search", "Find.", r#"{"q":2}"#),
    ];
    assert_eq!(tools.len(), expected.len());
    for (tool, (name, description, parameters)) in tools.iter().zip(expected) {
        let tool = value_of(tool);
        assert_eq!(tool["type"], "function");
        assert_eq!(tool["function"]["name"], name);
        assert_eq!(tool["function"]["description"], description);
        assert_eq!(tool["function"]["parameters"], value(parameters));
    }
    assert!(names.contains("given") && names.contains("raw"));
    assert!(!names.contains("f") && !names.contains("tool_search"));
}

#[test]
fn a_tool_can_get_another_name() {
    let tool = json(r#"{"name":"own"}"#);
    let plain = convert_function_tool(&tool, None).unwrap();
    assert_eq!(value_of(&plain)["function"]["name"], "own");
    let renamed = convert_function_tool(&tool, Some("other".to_string())).unwrap();
    assert_eq!(value_of(&renamed)["function"]["name"], "other");
    assert!(convert_function_tool(&json("{}"), None).is_none());
    let inside = convert_function_tool_with_namespace(&tool, "", None).unwrap();
    assert_eq!(value_of(&inside)["function"]["name"], "own");
    let inside = convert_function_tool_with_namespace(&tool, "own", Some("P")).unwrap();
    assert_eq!(value_of(&inside)["function"]["name"], "own");
    assert_eq!(value_of(&inside)["function"]["description"], "P");
    assert!(convert_function_tool_with_namespace(&json("{}"), "n", None).is_none());
    let made = chat_function_tool("n", "d", json("[1]"));
    assert_eq!(
        made.to_text(),
        r#"{"function":{"description":"d","name":"n","parameters":[1]},"type":"function"}"#
    );
}
