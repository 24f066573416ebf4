//! Requests: from the Responses API to the Chat Completions API.

use vstd::prelude::*;

use crate::config::ChatCompletionsBridgeConfig;
use crate::content;
use crate::custom;
use crate::error::{BridgeError, ErrorValue};
use crate::ids;
use crate::ids::{IdSource, Issue};
use crate::json;
use crate::json::{Json, JsonValue};
use crate::names::NameSet;
use crate::text;
use crate::tools;

verus! {

/// What is remembered of a request until its reply is carried over.
#[derive(Debug)]
pub struct BridgeRequestContext {
    /// The names of the tools that are custom tools for the client.
    pub custom_tool_names: NameSet,
    /// The model that the upstream was asked for.
    pub requested_model: String,
}

/// What is remembered of a request, in terms of what it means.
pub struct ContextValue {
    pub custom_tool_names: Set<Seq<char>>,
    pub requested_model: Seq<char>,
}

impl View for BridgeRequestContext {
    type V = ContextValue;

    open spec fn view(&self) -> ContextValue {
        ContextValue {
            custom_tool_names: self.custom_tool_names@,
            requested_model: self.requested_model@,
        }
    }
}

// ---------------------------------------------------------------------------------------------
// Messages
// ---------------------------------------------------------------------------------------------

/// The role that a message gets: the one it has, where it is known.
pub open spec fn role_for(role: Seq<char>) -> Seq<char> {
    if role == "developer"@ {
        "system"@
    } else if role == "assistant"@ || role == "system"@ || role == "tool"@ || role == "user"@ {
        role
    } else {
        "user"@
    }
}

/// A message with the given role and content.
pub open spec fn message(role: Seq<char>, content: Seq<char>) -> JsonValue {
    JsonValue::object().with("role"@, JsonValue::Str(role)).with(
        "content"@,
        JsonValue::Str(content),
    )
}

/// A message by which a model calls a function.
pub open spec fn call_message(
    call_id: Seq<char>,
    name: Seq<char>,
    arguments: Seq<char>,
) -> JsonValue {
    JsonValue::object().with("role"@, JsonValue::Str("assistant"@)).with(
        "content"@,
        JsonValue::Null,
    ).with(
        "tool_calls"@,
        JsonValue::Array(
            seq![
                JsonValue::object().with("id"@, JsonValue::Str(call_id)).with(
                    "type"@,
                    JsonValue::Str("function"@),
                ).with(
                    "function"@,
                    JsonValue::object().with("name"@, JsonValue::Str(name)).with(
                        "arguments"@,
                        JsonValue::Str(arguments),
                    ),
                ),
            ],
        ),
    )
}

/// A message with the output of a call.
pub open spec fn tool_message(call_id: Seq<char>, content: Seq<char>) -> JsonValue {
    JsonValue::object().with("role"@, JsonValue::Str("tool"@)).with(
        "tool_call_id"@,
        JsonValue::Str(call_id),
    ).with("content"@, JsonValue::Str(content))
}

/// Whether an item is a call, of a function or of a custom tool.
pub open spec fn is_call(item: JsonValue) -> bool {
    item.get_str("type"@) == Some("function_call"@) || item.get_str("type"@) == Some(
        "custom_tool_call"@,
    )
}

/// Whether a message is made of an item that needs an identifier and does not have it.
pub open spec fn needs_call_id(item: JsonValue) -> bool {
    is_call(item) && item.get_str("name"@) is Some && item.get_str("call_id"@) is None
}

/// The content of a message item.
pub open spec fn message_content(item: JsonValue) -> Seq<char> {
    match item.get("content"@) {
        Some(value) => content::content_text(value),
        None => Seq::empty(),
    }
}

/// The role of a message item.
pub open spec fn message_role(item: JsonValue) -> Seq<char> {
    match item.get_str("role"@) {
        Some(role) => role_for(role),
        None => "user"@,
    }
}

/// The arguments of a function call item.
pub open spec fn call_arguments(item: JsonValue) -> Seq<char> {
    match item.get("arguments"@) {
        Some(value) => content::arguments_text(value),
        None => "{}"@,
    }
}

/// The input of a custom tool call item.
pub open spec fn call_input(item: JsonValue) -> Seq<char> {
    match item.get("input"@) {
        Some(value) => content::value_text(value),
        None => Seq::empty(),
    }
}

/// The output of a call output item.
pub open spec fn call_output(item: JsonValue) -> Seq<char> {
    match item.get("output"@) {
        Some(value) => content::function_output_text(value),
        None => Seq::empty(),
    }
}

/// The messages that an item of the input becomes: one or none. A call without an identifier gets
/// the one given.
pub open spec fn item_messages(item: JsonValue, new_id: Seq<char>) -> Seq<JsonValue> {
    let kind = item.get_str("type"@);
    let call_id = item.get_str("call_id"@);
    if kind == Some("message"@) {
        if text::blank(message_content(item)) {
            Seq::empty()
        } else {
            seq![message(message_role(item), message_content(item))]
        }
    } else if kind == Some("function_call"@) {
        match item.get_str("name"@) {
            Some(name) => seq![
                call_message(tools::text_or(call_id, new_id), name, call_arguments(item)),
            ],
            None => Seq::empty(),
        }
    } else if kind == Some("custom_tool_call"@) {
        match item.get_str("name"@) {
            Some(name) => seq![
                call_message(
                    tools::text_or(call_id, new_id),
                    name,
                    json::json_text(custom::custom_arguments(call_input(item))),
                ),
            ],
            None => Seq::empty(),
        }
    } else if kind == Some("function_call_output"@) || kind == Some("custom_tool_call_output"@) {
        match call_id {
            Some(call_id) => seq![tool_message(call_id, call_output(item))],
            None => Seq::empty(),
        }
    } else if kind == Some("tool_search_output"@) {
        match call_id {
            Some(call_id) => seq![tool_message(call_id, json::json_text(item))],
            None => Seq::empty(),
        }
    } else {
        Seq::empty()
    }
}

/// How many identifiers the items of an input need.
pub open spec fn new_ids(items: Seq<JsonValue>) -> nat
    decreases items.len(),
{
    if items.len() == 0 {
        0
    } else {
        new_ids(items.drop_last()) + if needs_call_id(items.last()) {
            1nat
        } else {
            0nat
        }
    }
}

/// The messages that the items of an input become, with the identifiers that are issued for it.
pub open spec fn items_messages(items: Seq<JsonValue>, issue: Issue) -> Seq<JsonValue>
    decreases items.len(),
{
    if items.len() == 0 {
        Seq::empty()
    } else {
        items_messages(items.drop_last(), issue) + item_messages(
            items.last(),
            issue.id("call"@, new_ids(items.drop_last()) as int),
        )
    }
}

/// Gives the role that a message gets.
pub fn chat_role(role: &str) -> (given: &str)
    ensures
        given@ == role_for(role@),
{
    if text::same_text(role, "developer") {
        "system"
    } else if text::same_text(role, "assistant") || text::same_text(role, "system")
        || text::same_text(role, "tool") || text::same_text(role, "user") {
        role
    } else {
        "user"
    }
}

/// Makes a message.
fn make_message(role: &str, content: &str) -> (made: Json)
    ensures
        made@ == message(role@, content@),
{
    Json::object().with("role", Json::text(role)).with("content", Json::text(content))
}

/// Makes a message by which a model calls a function.
fn make_call_message(call_id: &str, name: &str, arguments: &str) -> (made: Json)
    ensures
        made@ == call_message(call_id@, name@, arguments@),
{
    Json::object().with("role", Json::text("assistant")).with("content", Json::Null).with(
        "tool_calls",
        Json::only(
            Json::object().with("id", Json::text(call_id)).with(
                "type",
                Json::text("function"),
            ).with(
                "function",
                Json::object().with("name", Json::text(name)).with(
                    "arguments",
                    Json::text(arguments),
                ),
            ),
        ),
    )
}

/// Makes a message with the output of a call.
fn make_tool_message(call_id: &str, content: &str) -> (made: Json)
    ensures
        made@ == tool_message(call_id@, content@),
{
    Json::object().with("role", Json::text("tool")).with("tool_call_id", Json::text(call_id)).with(
        "content",
        Json::text(content),
    )
}

/// Gives the identifier of a call item, and issues one where it has none.
fn call_id_of(item: &Json, ids: &mut IdSource) -> (id: String)
    ensures
        ids::advanced(
            *old(ids),
            *final(ids),
            if item@.get_str("call_id"@) is None {
                1
            } else {
                0
            },
        ),
        id@ == tools::text_or(
            item@.get_str("call_id"@),
            ids::issued(*old(ids), *final(ids)).id("call"@, 0),
        ),
{
    match item.get_str("call_id") {
        Some(id) => {
            proof {
                ids::lemma_advanced_none(*ids);
            }
            id.to_owned()
        },
        None => ids::next_call_id(ids),
    }
}

/// Makes a message of an item of the input, where it becomes one, and appends it to a list.
///
/// The input of a custom tool call is read back from the arguments that it is carried in.
pub fn append_response_item_as_chat_messages(
    item: &Json,
    messages: &mut Vec<Json>,
    ids: &mut IdSource,
)
    ensures
        ids::advanced(
            *old(ids),
            *final(ids),
            if needs_call_id(item@) {
                1
            } else {
                0
            },
        ),
        json::items_value(final(messages)@) == json::items_value(old(messages)@) + item_messages(
            item@,
            ids::issued(*old(ids), *final(ids)).id("call"@, 0),
        ),
        item@.get_str("type"@) == Some("custom_tool_call"@) && item@.get_str("name"@) is Some
            ==> custom::custom_input(
            json::json_text(custom::custom_arguments(call_input(item@))),
        ) == call_input(item@),
{
    let ghost before = json::items_value(messages@);
    proof {
        ids::lemma_advanced_none(*ids);
        reveal_strlit("message");
        reveal_strlit("function_call");
        reveal_strlit("custom_tool_call");
        reveal_strlit("function_call_output");
        reveal_strlit("custom_tool_call_output");
        reveal_strlit("tool_search_output");
        assert("message"@.len() == 7 && "function_call"@.len() == 13 && "custom_tool_call"@.len()
            == 16 && "function_call_output"@.len() == 20 && "custom_tool_call_output"@.len() == 23
            && "tool_search_output"@.len() == 18);
    }
    if let Some(kind) = item.get_str("type") {
        if text::same_text(kind, "message") {
            let role = match item.get_str("role") {
                Some(role) => chat_role(role),
                None => "user",
            };
            let content = match item.get("content") {
                Some(value) => content::content_items_to_text(value),
                None => String::new(),
            };
            if !text::is_blank(content.as_str()) {
                messages.push(make_message(role, content.as_str()));
            }
        } else if text::same_text(kind, "function_call") {
            if let Some(name) = item.get_str("name") {
                let call_id = call_id_of(item, ids);
                let arguments = match item.get("arguments") {
                    Some(value) => content::arguments_to_string(value),
                    None => "{}".to_owned(),
                };
                messages.push(make_call_message(call_id.as_str(), name, arguments.as_str()));
            }
        } else if text::same_text(kind, "custom_tool_call") {
            if let Some(name) = item.get_str("name") {
                let call_id = call_id_of(item, ids);
                let input = match item.get("input") {
                    Some(value) => content::value_to_text(value),
                    None => String::new(),
                };
                let arguments = custom::custom_tool_arguments(input.as_str());
                messages.push(make_call_message(call_id.as_str(), name, arguments.as_str()));
            }
        } else if text::same_text(kind, "function_call_output") || text::same_text(
            kind,
            "custom_tool_call_output",
        ) {
            if let Some(call_id) = item.get_str("call_id") {
                let output = match item.get("output") {
                    Some(value) => content::function_output_to_text(value),
                    None => String::new(),
                };
                messages.push(make_tool_message(call_id, output.as_str()));
            }
        } else if text::same_text(kind, "tool_search_output") {
            if let Some(call_id) = item.get_str("call_id") {
                messages.push(make_tool_message(call_id, item.to_text().as_str()));
            }
        }
    }
    assert(json::items_value(messages@) =~= before + item_messages(
        item@,
        ids::issued(*old(ids), *ids).id("call"@, 0),
    ));
}

/// The messages of items depend only on the identifiers that the items need.
proof fn lemma_items_messages_agree(items: Seq<JsonValue>, one: Issue, other: Issue)
    requires
        forall|prefix: Seq<char>, k: int|
            0 <= k < new_ids(items) ==> #[trigger] one.id(prefix, k) == other.id(prefix, k),
    ensures
        items_messages(items, one) == items_messages(items, other),
    decreases items.len(),
{
    if items.len() > 0 {
        lemma_items_messages_agree(items.drop_last(), one, other);
        let k = new_ids(items.drop_last()) as int;
        if needs_call_id(items.last()) {
            assert(one.id("call"@, k) == other.id("call"@, k));
        }
    }
}

/// Makes messages of the items of the input, and appends them to a list.
fn append_items(items: &Vec<Json>, messages: &mut Vec<Json>, ids: &mut IdSource)
    ensures
        ids::advanced(*old(ids), *final(ids), new_ids(json::items_value(items@))),
        json::items_value(final(messages)@) == json::items_value(old(messages)@) + items_messages(
            json::items_value(items@),
            ids::issued(*old(ids), *final(ids)),
        ),
{
    let ghost start = *ids;
    let ghost given = json::items_value(messages@);
    let ghost values = json::items_value(items@);
    proof {
        ids::lemma_advanced_none(*ids);
        assert(given + items_messages(values.take(0), ids::issued(start, *ids)) =~= given);
    }
    for i in 0..items.len()
        invariant
            values == json::items_value(items@),
            ids::advanced(start, *ids, new_ids(values.take(i as int))),
            json::items_value(messages@) == given + items_messages(
                values.take(i as int),
                ids::issued(start, *ids),
            ),
    {
        let ghost middle = *ids;
        let ghost before = json::items_value(messages@);
        let ghost seen = values.take(i as int);
        append_response_item_as_chat_messages(&items[i], messages, ids);
        proof {
            let item = values[i as int];
            let more: nat = if needs_call_id(item) {
                1
            } else {
                0
            };
            assert(values.take(i + 1).drop_last() =~= seen);
            ids::lemma_advanced_twice(start, middle, *ids, new_ids(seen), more);
            lemma_items_messages_agree(seen, ids::issued(start, *ids), ids::issued(start, middle));
            if needs_call_id(item) {
                assert(ids::issued(middle, *ids).id("call"@, 0) == ids::issued(start, *ids).id(
                    "call"@,
                    new_ids(seen) as int,
                ));
            }
            assert(json::items_value(messages@) =~= given + items_messages(
                values.take(i + 1),
                ids::issued(start, *ids),
            ));
        }
    }
    assert(values.take(items@.len() as int) =~= values);
}

// ---------------------------------------------------------------------------------------------
// Requests
// ---------------------------------------------------------------------------------------------

/// The model that the upstream is asked for: the configured one, else the one of the request.
pub open spec fn model_for(request: JsonValue, config: ChatCompletionsBridgeConfig) -> Option<
    Seq<char>,
> {
    match config.model {
        Some(model) => Some(model@),
        None => request.get_str("model"@),
    }
}

/// The message that the instructions of a request become, where they say anything.
pub open spec fn instruction_messages(request: JsonValue) -> Seq<JsonValue> {
    match request.get_str("instructions"@) {
        Some(instructions) => if text::blank(instructions) {
            Seq::empty()
        } else {
            seq![message("system"@, instructions)]
        },
        None => Seq::empty(),
    }
}

/// The messages that the input of a request becomes: those of its items, or one of the user.
pub open spec fn input_messages(request: JsonValue, issue: Issue) -> Seq<JsonValue> {
    match request.get("input"@) {
        Some(input) => match input {
            JsonValue::Array(items) => items_messages(items, issue),
            other => seq![message("user"@, content::value_text(other))],
        },
        None => Seq::empty(),
    }
}

/// The messages that a request becomes.
pub open spec fn request_messages(request: JsonValue, issue: Issue) -> Seq<JsonValue> {
    instruction_messages(request) + input_messages(request, issue)
}

/// How many identifiers a request needs.
pub open spec fn request_new_ids(request: JsonValue) -> nat {
    match request.get_array("input"@) {
        Some(items) => new_ids(items),
        None => 0,
    }
}

/// The tools that a request declares.
pub open spec fn declared_tools(request: JsonValue) -> Seq<JsonValue> {
    match request.get_array("tools"@) {
        Some(tools) => tools,
        None => Seq::empty(),
    }
}

/// The temperature that the upstream is told: null, where it has no number.
pub open spec fn temperature_value(config: ChatCompletionsBridgeConfig) -> JsonValue {
    match config.temperature {
        Some(number) => json::number_value(number),
        None => JsonValue::Null,
    }
}

/// A request with tools, where there are any.
pub open spec fn with_tools(
    request: JsonValue,
    tool_field: Seq<char>,
    tools: Seq<JsonValue>,
) -> JsonValue {
    if tools.len() == 0 {
        request
    } else {
        request.with(tool_field, JsonValue::Array(tools))
    }
}

/// The request that goes to the Chat Completions upstream.
pub open spec fn chat_request(
    model: Seq<char>,
    messages: Seq<JsonValue>,
    tools: Seq<JsonValue>,
    config: ChatCompletionsBridgeConfig,
) -> JsonValue {
    with_tools(
        JsonValue::object().with("model"@, JsonValue::Str(model)).with(
            "temperature"@,
            temperature_value(config),
        ).with("max_tokens"@, JsonValue::Int(config.max_tokens as int)).with(
            "frequency_penalty"@,
            JsonValue::Int(0),
        ).with("presence_penalty"@, JsonValue::Int(0)).with("stop"@, JsonValue::Null).with(
            "stream"@,
            JsonValue::Bool(config.stream_upstream),
        ).with("thinking"@, JsonValue::Bool(config.thinking)).with(
            "messages"@,
            JsonValue::Array(messages),
        ),
        config.tool_field@,
        tools,
    )
}

/// What a request becomes, with the identifiers that are issued for it: a request to the upstream
/// and what is to be remembered of it, or an error.
pub open spec fn request_outcome(
    request: JsonValue,
    config: ChatCompletionsBridgeConfig,
    issue: Issue,
) -> Result<(JsonValue, ContextValue), ErrorValue> {
    match model_for(request, config) {
        None => Err(ErrorValue::MissingModel),
        Some(model) => if request_messages(request, issue).len() == 0 {
            Err(ErrorValue::NoMessages)
        } else {
            Ok(
                (
                    chat_request(
                        model,
                        request_messages(request, issue),
                        tools::chat_tools(declared_tools(request)),
                        config,
                    ),
                    ContextValue {
                        custom_tool_names: tools::custom_names(declared_tools(request)),
                        requested_model: model,
                    },
                ),
            )
        },
    }
}

/// How many identifiers are issued for a request.
pub open spec fn request_issues(request: JsonValue, config: ChatCompletionsBridgeConfig) -> nat {
    if model_for(request, config) is Some {
        request_new_ids(request)
    } else {
        0
    }
}

/// What the body of a request becomes: as [`request_outcome`], or an error where it is no JSON.
pub open spec fn body_outcome(
    body: Seq<u8>,
    config: ChatCompletionsBridgeConfig,
    issue: Issue,
) -> Result<(JsonValue, ContextValue), ErrorValue> {
    match json::json_of_bytes(body) {
        Some(request) => request_outcome(request, config, issue),
        None => Err(ErrorValue::RequestNotJson),
    }
}

/// How many identifiers are issued for the body of a request.
pub open spec fn body_issues(body: Seq<u8>, config: ChatCompletionsBridgeConfig) -> nat {
    match json::json_of_bytes(body) {
        Some(request) => request_issues(request, config),
        None => 0,
    }
}

/// The meaning of what a request became.
pub open spec fn made_view(made: Result<(Json, BridgeRequestContext), BridgeError>) -> Result<
    (JsonValue, ContextValue),
    ErrorValue,
> {
    match made {
        Ok((chat, context)) => Ok((chat@, context@)),
        Err(error) => Err(error@),
    }
}

/// Makes the messages of a request.
fn make_messages(request: &Json, ids: &mut IdSource) -> (messages: Vec<Json>)
    ensures
        ids::advanced(*old(ids), *final(ids), request_new_ids(request@)),
        json::items_value(messages@) == request_messages(
            request@,
            ids::issued(*old(ids), *final(ids)),
        ),
{
    let mut messages: Vec<Json> = Vec::new();
    if let Some(instructions) = request.get_str("instructions") {
        if !text::is_blank(instructions) {
            messages.push(make_message("system", instructions));
        }
    }
    assert(json::items_value(messages@) =~= instruction_messages(request@));
    let ghost before = json::items_value(messages@);
    proof {
        ids::lemma_advanced_none(*ids);
    }
    if let Some(input) = request.get("input") {
        match input {
            Json::Array(items) => {
                append_items(items, &mut messages, ids);
            },
            other => {
                messages.push(make_message("user", content::value_to_text(other).as_str()));
            },
        }
    }
    assert(json::items_value(messages@) =~= before + input_messages(
        request@,
        ids::issued(*old(ids), *ids),
    ));
    messages
}

/// Makes the request that goes to the Chat Completions upstream.
fn make_chat_request(
    model: &str,
    messages: Vec<Json>,
    tools: Vec<Json>,
    config: &ChatCompletionsBridgeConfig,
) -> (made: Json)
    ensures
        made@ == chat_request(
            model@,
            json::items_value(messages@),
            json::items_value(tools@),
            *config,
        ),
{
    let temperature = match &config.temperature {
        Some(number) => Json::Number(number.clone()),
        None => Json::Null,
    };
    let request = Json::object().with("model", Json::text(model)).with(
        "temperature",
        temperature,
    ).with("max_tokens", Json::integer(config.max_tokens as i64)).with(
        "frequency_penalty",
        Json::integer(0),
    ).with("presence_penalty", Json::integer(0)).with("stop", Json::Null).with(
        "stream",
        Json::Bool(config.stream_upstream),
    ).with("thinking", Json::Bool(config.thinking)).with("messages", Json::Array(messages));
    if tools.is_empty() {
        request
    } else {
        request.with(config.tool_field.as_str(), Json::Array(tools))
    }
}

/// Makes a request to the Chat Completions upstream of a request to the Responses API, whose body
/// was read as the value given.
pub fn chat_request_of(
    responses_request: &Json,
    config: &ChatCompletionsBridgeConfig,
    ids: &mut IdSource,
) -> (made: Result<(Json, BridgeRequestContext), BridgeError>)
    ensures
        ids::advanced(*old(ids), *final(ids), request_issues(responses_request@, *config)),
        made_view(made) == request_outcome(
            responses_request@,
            *config,
            ids::issued(*old(ids), *final(ids)),
        ),
{
    proof {
        ids::lemma_advanced_none(*ids);
    }
    let model: String = match &config.model {
        Some(model) => model.clone(),
        None => match responses_request.get_str("model") {
            Some(model) => model.to_owned(),
            None => {
                return Err(BridgeError::MissingModel);
            },
        },
    };
    let messages = make_messages(responses_request, ids);
    assert(json::items_value(messages@).len() == messages@.len());
    if messages.is_empty() {
        return Err(BridgeError::NoMessages);
    }
    let mut custom_tool_names = NameSet::new();
    let tools = match responses_request.get_array("tools") {
        Some(tools) => tools::convert_responses_tools(tools, &mut custom_tool_names),
        None => Vec::new(),
    };
    proof {
        let declared = declared_tools(responses_request@);
        assert(Set::<Seq<char>>::empty().union(tools::custom_names(declared))
            =~= tools::custom_names(declared));
        assert(json::items_value(tools@) =~= tools::chat_tools(declared));
    }
    let chat = make_chat_request(model.as_str(), messages, tools, config);
    Ok((chat, BridgeRequestContext { custom_tool_names, requested_model: model }))
}

/// Makes a request to the Chat Completions upstream of the body of a request to the Responses
/// API.
pub fn build_chat_completion_request(
    body: &[u8],
    config: &ChatCompletionsBridgeConfig,
    ids: &mut IdSource,
) -> (made: Result<(Json, BridgeRequestContext), BridgeError>)
    ensures
        ids::advanced(*old(ids), *final(ids), body_issues(body@, *config)),
        made_view(made) == body_outcome(body@, *config, ids::issued(*old(ids), *final(ids))),
{
    proof {
        ids::lemma_advanced_none(*ids);
    }
    match Json::from_bytes(body) {
        Some(request) => chat_request_of(&request, config, ids),
        None => Err(BridgeError::RequestNotJson),
    }
}

// ---------------------------------------------------------------------------------------------
// Laws
// ---------------------------------------------------------------------------------------------

/// Whether a role is one that the Chat Completions API knows.
pub open spec fn known_role(role: Seq<char>) -> bool {
    role == "assistant"@ || role == "system"@ || role == "tool"@ || role == "user"@
}

/// Whatever role a message has, it gets one that the Chat Completions API knows, and a role that
/// was given once stays as it is.
pub proof fn law_roles_are_known(role: Seq<char>)
    ensures
        known_role(role_for(role)),
        role_for(role_for(role)) == role_for(role),
{
    reveal_strlit("developer");
    reveal_strlit("system");
    reveal_strlit("assistant");
    reveal_strlit("tool");
    reveal_strlit("user");
    assert("developer"@[0] == 'd' && "system"@[0] == 's' && "assistant"@[0] == 'a' && "tool"@[0]
        == 't' && "user"@[0] == 'u');
}

/// What a message or a call has under its keys.
proof fn lemma_message_members(role: Seq<char>, call_id: Seq<char>, name: Seq<char>, text: Seq<
    char,
>)
    ensures
        message(role, text).get_str("role"@) == Some(role),
        message(role, text).get_str("content"@) == Some(text),
        call_message(call_id, name, text).get_str("role"@) == Some("assistant"@),
        call_message(call_id, name, text).get_array("tool_calls"@) is Some,
        tool_message(call_id, text).get_str("role"@) == Some("tool"@),
        tool_message(call_id, text).get_str("tool_call_id"@) == Some(call_id),
        tool_message(call_id, text).get_str("content"@) == Some(text),
{
    reveal_strlit("role");
    reveal_strlit("content");
    reveal_strlit("tool_calls");
    reveal_strlit("tool_call_id");
    assert("role"@.len() == 4 && "content"@.len() == 7 && "tool_calls"@.len() == 10
        && "tool_call_id"@.len() == 12);
}

/// Every message that the items of an input become has a known role.
proof fn lemma_items_have_known_roles(items: Seq<JsonValue>, issue: Issue, i: int)
    requires
        0 <= i < items_messages(items, issue).len(),
    ensures
        items_messages(items, issue)[i].get_str("role"@) matches Some(role) && known_role(role),
    decreases items.len(),
{
    if items.len() > 0 {
        let before = items_messages(items.drop_last(), issue);
        if i < before.len() {
            lemma_items_have_known_roles(items.drop_last(), issue, i);
        } else {
            let item = items.last();
            let new_id = issue.id("call"@, new_ids(items.drop_last()) as int);
            let last = items_messages(items, issue)[i];
            assert(last == item_messages(item, new_id)[0]);
            let call_id = tools::text_or(item.get_str("call_id"@), new_id);
            let name = tools::text_or(item.get_str("name"@), Seq::empty());
            match item.get_str("role"@) {
                Some(role) => law_roles_are_known(role),
                None => {},
            }
            lemma_message_members(message_role(item), call_id, name, message_content(item));
            lemma_message_members(message_role(item), call_id, name, call_arguments(item));
            lemma_message_members(
                message_role(item),
                call_id,
                name,
                json::json_text(custom::custom_arguments(call_input(item))),
            );
            lemma_message_members(message_role(item), call_id, name, call_output(item));
            lemma_message_members(message_role(item), call_id, name, json::json_text(item));
        }
    }
}

/// Every message that a request becomes has a role that the Chat Completions API knows.
pub proof fn law_messages_have_known_roles(request: JsonValue, issue: Issue, i: int)
    requires
        0 <= i < request_messages(request, issue).len(),
    ensures
        request_messages(request, issue)[i].get_str("role"@) matches Some(role) && known_role(role),
{
    let first = instruction_messages(request);
    if i < first.len() {
        let instructions = request.get_str("instructions"@)->Some_0;
        lemma_message_members("system"@, Seq::empty(), Seq::empty(), instructions);
    } else {
        match request.get("input"@)->Some_0 {
            JsonValue::Array(items) => {
                lemma_items_have_known_roles(items, issue, i - first.len());
            },
            other => {
                lemma_message_members(
                    "user"@,
                    Seq::empty(),
                    Seq::empty(),
                    content::value_text(other),
                );
            },
        }
    }
}

/// Items become messages one after the other: those of a first part come before those of the
/// rest, and an item never becomes more than one.
pub proof fn law_messages_keep_their_order(items: Seq<JsonValue>, n: int, issue: Issue)
    requires
        0 <= n <= items.len(),
    ensures
        items_messages(items.take(n), issue).is_prefix_of(items_messages(items, issue)),
        items_messages(items, issue).len() <= items_messages(items.take(n), issue).len()
            + items.len() - n,
    decreases items.len(),
{
    if n == items.len() {
        assert(items.take(n) =~= items);
        let all = items_messages(items, issue);
        assert(all.subrange(0, all.len() as int) =~= all);
    } else {
        law_messages_keep_their_order(items.drop_last(), n, issue);
        assert(items.drop_last().take(n) =~= items.take(n));
        let before = items_messages(items.drop_last(), issue);
        let all = items_messages(items, issue);
        let first = items_messages(items.take(n), issue);
        assert(all.subrange(0, first.len() as int) =~= before.subrange(0, first.len() as int));
    }
}

/// A call keeps its identifier, and the output of a call the one of the call it answers. So an
/// output that answers a call in the input answers it in the messages.
pub proof fn law_outputs_answer_their_calls(
    call: JsonValue,
    output: JsonValue,
    call_id: Seq<char>,
    new_id: Seq<char>,
    other_id: Seq<char>,
)
    requires
        is_call(call),
        call.get_str("name"@) is Some,
        output.get_str("type"@) == Some("function_call_output"@) || output.get_str("type"@) == Some(
            "custom_tool_call_output"@,
        ) || output.get_str("type"@) == Some("tool_search_output"@),
        call.get_str("call_id"@) == Some(call_id),
        output.get_str("call_id"@) == Some(call_id),
    ensures
        item_messages(call, new_id).len() == 1,
        item_messages(call, new_id)[0].get_array("tool_calls"@) matches Some(calls)
            && calls.len() == 1 && calls[0].get_str("id"@) == Some(call_id),
        item_messages(output, other_id).len() == 1,
        item_messages(output, other_id)[0].get_str("tool_call_id"@) == Some(call_id),
{
    reveal_strlit("message");
    reveal_strlit("function_call");
    reveal_strlit("custom_tool_call");
    reveal_strlit("function_call_output");
    reveal_strlit("custom_tool_call_output");
    reveal_strlit("tool_search_output");
    assert("message"@.len() == 7 && "function_call"@.len() == 13 && "custom_tool_call"@.len() == 16
        && "function_call_output"@.len() == 20 && "custom_tool_call_output"@.len() == 23
        && "tool_search_output"@.len() == 18);
    reveal_strlit("id");
    reveal_strlit("type");
    reveal_strlit("function");
    assert("id"@.len() == 2 && "type"@.len() == 4 && "function"@.len() == 8);
    let name = tools::text_or(call.get_str("name"@), Seq::empty());
    lemma_message_members(Seq::empty(), call_id, name, call_arguments(call));
    lemma_message_members(
        Seq::empty(),
        call_id,
        name,
        json::json_text(custom::custom_arguments(call_input(call))),
    );
    lemma_message_members(Seq::empty(), call_id, name, call_output(output));
    lemma_message_members(Seq::empty(), call_id, name, json::json_text(output));
}

/// Whether a list is another with one message more at its end.
pub open spec fn one_more(before: Seq<JsonValue>, after: Seq<JsonValue>) -> bool {
    after.len() == before.len() + 1 && after.drop_last() == before
}

/// What a message has under its keys.
proof fn lemma_message_shapes(
    role: Seq<char>,
    call_id: Seq<char>,
    name: Seq<char>,
    text: Seq<char>,
)
    ensures
        ({
            let call = call_message(call_id, name, text);
            let listed = call.get_array("tool_calls"@)->Some_0;
            let function = listed[0].get("function"@)->Some_0;
            &&& call.get("content"@) == Some(JsonValue::Null)
            &&& call.get_array("tool_calls"@) is Some
            &&& listed.len() == 1
            &&& listed[0].get_str("id"@) == Some(call_id)
            &&& listed[0].get_str("type"@) == Some("function"@)
            &&& listed[0].get("function"@) is Some
            &&& function.get_str("name"@) == Some(name)
            &&& function.get_str("arguments"@) == Some(text)
            &&& call.has_keys(set!["role"@, "content"@, "tool_calls"@])
            &&& listed[0].has_keys(set!["id"@, "type"@, "function"@])
            &&& function.has_keys(set!["name"@, "arguments"@])
        }),
        message(role, text).has_keys(set!["role"@, "content"@]),
        tool_message(call_id, text).has_keys(set!["role"@, "tool_call_id"@, "content"@]),
{
    reveal_strlit("role");
    reveal_strlit("content");
    reveal_strlit("tool_calls");
    reveal_strlit("tool_call_id");
    reveal_strlit("id");
    reveal_strlit("type");
    reveal_strlit("function");
    reveal_strlit("name");
    reveal_strlit("arguments");
    assert("role"@.len() == 4 && "content"@.len() == 7 && "tool_calls"@.len() == 10
        && "tool_call_id"@.len() == 12 && "id"@.len() == 2 && "type"@.len() == 4
        && "function"@.len() == 8 && "name"@.len() == 4 && "arguments"@.len() == 9);
}

/// The kinds of items are different from each other.
proof fn lemma_item_kinds()
    ensures
        "message"@ != "function_call"@,
        "message"@ != "custom_tool_call"@,
        "message"@ != "function_call_output"@,
        "message"@ != "custom_tool_call_output"@,
        "message"@ != "tool_search_output"@,
        "function_call"@ != "custom_tool_call"@,
        "function_call"@ != "function_call_output"@,
        "function_call"@ != "custom_tool_call_output"@,
        "function_call"@ != "tool_search_output"@,
        "custom_tool_call"@ != "function_call_output"@,
        "custom_tool_call"@ != "custom_tool_call_output"@,
        "custom_tool_call"@ != "tool_search_output"@,
        "tool_search_output"@ != "function_call_output"@,
        "tool_search_output"@ != "custom_tool_call_output"@,
{
    reveal_strlit("message");
    reveal_strlit("function_call");
    reveal_strlit("custom_tool_call");
    reveal_strlit("function_call_output");
    reveal_strlit("custom_tool_call_output");
    reveal_strlit("tool_search_output");
    assert("message"@.len() == 7 && "function_call"@.len() == 13 && "custom_tool_call"@.len() == 16
        && "function_call_output"@.len() == 20 && "custom_tool_call_output"@.len() == 23
        && "tool_search_output"@.len() == 18);
}

/// The messages of items and one item more.
proof fn lemma_items_push(items: Seq<JsonValue>, item: JsonValue, issue: Issue)
    ensures
        items_messages(items.push(item), issue) == items_messages(items, issue) + item_messages(
            item,
            issue.id("call"@, new_ids(items) as int),
        ),
        new_ids(items.push(item)) == new_ids(items) + if needs_call_id(item) {
            1nat
        } else {
            0nat
        },
{
    assert(items.push(item).drop_last() =~= items);
}

/// A message item with something to say becomes one message behind those before it, with the text
/// of its content. A role that the Chat Completions API knows stays as it is; a developer speaks as
/// the system, and anyone else as the user.
pub proof fn law_message_items_become_messages(
    items: Seq<JsonValue>,
    item: JsonValue,
    content: JsonValue,
    issue: Issue,
)
    requires
        item.get_str("type"@) == Some("message"@),
        item.get("content"@) == Some(content),
        !text::blank(content::content_text(content)),
    ensures
        ({
            let after = items_messages(items.push(item), issue);
            let role = after.last().get_str("role"@);
            let given = item.get_str("role"@);
            &&& one_more(items_messages(items, issue), after)
            &&& after.last().get_str("content"@) == Some(content::content_text(content))
            &&& after.last().has_keys(set!["role"@, "content"@])
            &&& (given == Some("assistant"@) || given == Some("system"@) || given == Some("tool"@)
                || given == Some("user"@)) ==> role == given
            &&& given == Some("developer"@) ==> role == Some("system"@)
            &&& (given is None || (given != Some("assistant"@) && given != Some("system"@) && given
                != Some("tool"@) && given != Some("developer"@))) ==> role == Some("user"@)
            &&& new_ids(items.push(item)) == new_ids(items)
        }),
{
    lemma_item_kinds();
    lemma_items_push(items, item, issue);
    reveal_strlit("developer");
    reveal_strlit("system");
    reveal_strlit("assistant");
    reveal_strlit("tool");
    reveal_strlit("user");
    assert("developer"@[0] == 'd' && "system"@[0] == 's' && "assistant"@[0] == 'a' && "tool"@[0]
        == 't' && "user"@[0] == 'u');
    let text = content::content_text(content);
    lemma_message_members(message_role(item), Seq::empty(), Seq::empty(), text);
    lemma_message_shapes(message_role(item), Seq::empty(), Seq::empty(), text);
    let after = items_messages(items.push(item), issue);
    assert(after.drop_last() =~= items_messages(items, issue));
}

/// A function call item becomes one message of the assistant behind those before it: with nothing
/// to say, and with one call of the function that the item names. Arguments that are a text stay as
/// they are, others are written as JSON, and where there are none they are those of an empty
/// object. The call has the identifier of the item, where it has one, else one that is issued.
pub proof fn law_function_call_items_become_calls(
    items: Seq<JsonValue>,
    item: JsonValue,
    name: Seq<char>,
    issue: Issue,
)
    requires
        item.get_str("type"@) == Some("function_call"@),
        item.get_str("name"@) == Some(name),
    ensures
        ({
            let after = items_messages(items.push(item), issue);
            let listed = after.last().get_array("tool_calls"@)->Some_0;
            let function = listed[0].get("function"@)->Some_0;
            &&& one_more(items_messages(items, issue), after)
            &&& after.last().get_str("role"@) == Some("assistant"@)
            &&& after.last().get("content"@) == Some(JsonValue::Null)
            &&& after.last().get_array("tool_calls"@) is Some
            &&& listed.len() == 1
            &&& listed[0].get_str("type"@) == Some("function"@)
            &&& listed[0].get("function"@) is Some
            &&& function.get_str("name"@) == Some(name)
            &&& after.last().has_keys(set!["role"@, "content"@, "tool_calls"@])
            &&& listed[0].has_keys(set!["id"@, "type"@, "function"@])
            &&& function.has_keys(set!["name"@, "arguments"@])
            &&& match item.get("arguments"@) {
                Some(JsonValue::Str(given)) => function.get_str("arguments"@) == Some(given),
                Some(other) => function.get_str("arguments"@) == Some(json::json_text(other)),
                None => function.get_str("arguments"@) == Some("{}"@),
            }
            &&& match item.get_str("call_id"@) {
                Some(id) => {
                    &&& listed[0].get_str("id"@) == Some(id)
                    &&& new_ids(items.push(item)) == new_ids(items)
                },
                None => {
                    &&& listed[0].get_str("id"@) == Some(issue.id("call"@, new_ids(items) as int))
                    &&& new_ids(items.push(item)) == new_ids(items) + 1
                },
            }
        }),
{
    lemma_item_kinds();
    lemma_items_push(items, item, issue);
    let new_id = issue.id("call"@, new_ids(items) as int);
    let call_id = tools::text_or(item.get_str("call_id"@), new_id);
    lemma_message_members(Seq::empty(), call_id, name, call_arguments(item));
    lemma_message_shapes(Seq::empty(), call_id, name, call_arguments(item));
    let after = items_messages(items.push(item), issue);
    assert(after.drop_last() =~= items_messages(items, issue));
}

/// A custom tool call item becomes one message of the assistant behind those before it: with
/// nothing to say, and with one call of the function that the item names. The arguments are an
/// object whose only member is the input: a text as it is, nothing for null or where there is none,
/// anything else as JSON.
pub proof fn law_custom_call_items_become_calls(
    items: Seq<JsonValue>,
    item: JsonValue,
    name: Seq<char>,
    issue: Issue,
)
    requires
        item.get_str("type"@) == Some("custom_tool_call"@),
        item.get_str("name"@) == Some(name),
    ensures
        ({
            let after = items_messages(items.push(item), issue);
            let listed = after.last().get_array("tool_calls"@)->Some_0;
            let function = listed[0].get("function"@)->Some_0;
            let input = match item.get("input"@) {
                Some(JsonValue::Str(given)) => given,
                Some(JsonValue::Null) => Seq::empty(),
                Some(other) => json::json_text(other),
                None => Seq::empty(),
            };
            &&& one_more(items_messages(items, issue), after)
            &&& after.last().get_str("role"@) == Some("assistant"@)
            &&& after.last().get("content"@) == Some(JsonValue::Null)
            &&& after.last().get_array("tool_calls"@) is Some
            &&& listed.len() == 1
            &&& listed[0].get_str("type"@) == Some("function"@)
            &&& listed[0].get("function"@) is Some
            &&& function.get_str("name"@) == Some(name)
            &&& after.last().has_keys(set!["role"@, "content"@, "tool_calls"@])
            &&& listed[0].has_keys(set!["id"@, "type"@, "function"@])
            &&& function.has_keys(set!["name"@, "arguments"@])
            &&& function.get_str("arguments"@) == Some(
                json::json_text(JsonValue::Object(map!["input"@ => JsonValue::Str(input)])),
            )
            &&& match item.get_str("call_id"@) {
                Some(id) => {
                    &&& listed[0].get_str("id"@) == Some(id)
                    &&& new_ids(items.push(item)) == new_ids(items)
                },
                None => {
                    &&& listed[0].get_str("id"@) == Some(issue.id("call"@, new_ids(items) as int))
                    &&& new_ids(items.push(item)) == new_ids(items) + 1
                },
            }
        }),
{
    lemma_item_kinds();
    lemma_items_push(items, item, issue);
    let new_id = issue.id("call"@, new_ids(items) as int);
    let call_id = tools::text_or(item.get_str("call_id"@), new_id);
    let arguments = json::json_text(custom::custom_arguments(call_input(item)));
    assert(custom::custom_arguments(call_input(item)) == JsonValue::Object(
        map!["input"@ => JsonValue::Str(call_input(item))],
    ));
    lemma_message_members(Seq::empty(), call_id, name, arguments);
    lemma_message_shapes(Seq::empty(), call_id, name, arguments);
    let after = items_messages(items.push(item), issue);
    assert(after.drop_last() =~= items_messages(items, issue));
}

/// The output of a call becomes one message of the tool behind those before it, under the
/// identifier of the call. An output that is a text stays as it is, a list is the text of its
/// items, null is nothing, and anything else is written as JSON.
pub proof fn law_output_items_become_messages(
    items: Seq<JsonValue>,
    item: JsonValue,
    call_id: Seq<char>,
    issue: Issue,
)
    requires
        item.get_str("type"@) == Some("function_call_output"@) || item.get_str("type"@) == Some(
            "custom_tool_call_output"@,
        ),
        item.get_str("call_id"@) == Some(call_id),
    ensures
        ({
            let after = items_messages(items.push(item), issue);
            let content = match item.get("output"@) {
                Some(JsonValue::Str(given)) => given,
                Some(JsonValue::Array(list)) => content::content_text(JsonValue::Array(list)),
                Some(JsonValue::Null) => Seq::empty(),
                Some(other) => json::json_text(other),
                None => Seq::empty(),
            };
            &&& one_more(items_messages(items, issue), after)
            &&& after.last().get_str("role"@) == Some("tool"@)
            &&& after.last().get_str("tool_call_id"@) == Some(call_id)
            &&& after.last().get_str("content"@) == Some(content)
            &&& after.last().has_keys(set!["role"@, "tool_call_id"@, "content"@])
            &&& new_ids(items.push(item)) == new_ids(items)
        }),
{
    lemma_item_kinds();
    lemma_items_push(items, item, issue);
    lemma_message_members(Seq::empty(), call_id, Seq::empty(), call_output(item));
    lemma_message_shapes(Seq::empty(), call_id, Seq::empty(), call_output(item));
    let after = items_messages(items.push(item), issue);
    assert(after.drop_last() =~= items_messages(items, issue));
}

/// The output of a tool search becomes one message of the tool behind those before it, under the
/// identifier of the call: the whole item as JSON.
pub proof fn law_search_output_items_become_messages(
    items: Seq<JsonValue>,
    item: JsonValue,
    call_id: Seq<char>,
    issue: Issue,
)
    requires
        item.get_str("type"@) == Some("tool_search_output"@),
        item.get_str("call_id"@) == Some(call_id),
    ensures
        ({
            let after = items_messages(items.push(item), issue);
            &&& one_more(items_messages(items, issue), after)
            &&& after.last().get_str("role"@) == Some("tool"@)
            &&& after.last().get_str("tool_call_id"@) == Some(call_id)
            &&& after.last().get_str("content"@) == Some(json::json_text(item))
            &&& after.last().has_keys(set!["role"@, "tool_call_id"@, "content"@])
            &&& new_ids(items.push(item)) == new_ids(items)
        }),
{
    lemma_item_kinds();
    lemma_items_push(items, item, issue);
    lemma_message_members(Seq::empty(), call_id, Seq::empty(), json::json_text(item));
    lemma_message_shapes(Seq::empty(), call_id, Seq::empty(), json::json_text(item));
    let after = items_messages(items.push(item), issue);
    assert(after.drop_last() =~= items_messages(items, issue));
}

/// Items of any other kind, messages with nothing to say, calls without a name and outputs without
/// an identifier change nothing.
pub proof fn law_other_items_change_nothing(items: Seq<JsonValue>, item: JsonValue, issue: Issue)
    requires
        ({
            let kind = item.get_str("type"@);
            ||| kind is None
            ||| kind == Some("message"@) && match item.get("content"@) {
                Some(content) => text::blank(content::content_text(content)),
                None => true,
            }
            ||| (kind == Some("function_call"@) || kind == Some("custom_tool_call"@))
                && item.get_str("name"@) is None
            ||| (kind == Some("function_call_output"@) || kind == Some("custom_tool_call_output"@)
                || kind == Some("tool_search_output"@)) && item.get_str("call_id"@) is None
            ||| kind != Some("message"@) && kind != Some("function_call"@) && kind != Some(
                "custom_tool_call"@,
            ) && kind != Some("function_call_output"@) && kind != Some("custom_tool_call_output"@)
                && kind != Some("tool_search_output"@)
        }),
    ensures
        items_messages(items.push(item), issue) == items_messages(items, issue),
        new_ids(items.push(item)) == new_ids(items),
{
    lemma_item_kinds();
    lemma_items_push(items, item, issue);
    assert(items_messages(items.push(item), issue) =~= items_messages(items, issue));
}

/// No items become no messages.
pub proof fn law_no_items_no_messages(issue: Issue)
    ensures
        items_messages(Seq::empty(), issue) == Seq::<JsonValue>::empty(),
        new_ids(Seq::empty()) == 0,
{
}

/// Instructions with anything to say come first, as one message of the system and word for word.
/// The other messages are those of the same request without instructions.
pub proof fn law_instructions_come_first(
    request: JsonValue,
    without: JsonValue,
    instructions: Seq<char>,
    issue: Issue,
)
    requires
        request.get_str("instructions"@) == Some(instructions),
        without.get("instructions"@) is None,
        request.get("input"@) == without.get("input"@),
    ensures
        text::blank(instructions) ==> request_messages(request, issue) == request_messages(
            without,
            issue,
        ),
        !text::blank(instructions) ==> {
            let messages = request_messages(request, issue);
            &&& messages.len() > 0
            &&& messages[0].get_str("role"@) == Some("system"@)
            &&& messages[0].get_str("content"@) == Some(instructions)
            &&& messages[0].has_keys(set!["role"@, "content"@])
            &&& messages.skip(1) == request_messages(without, issue)
        },
{
    lemma_message_members("system"@, Seq::empty(), Seq::empty(), instructions);
    lemma_message_shapes("system"@, Seq::empty(), Seq::empty(), instructions);
    let messages = request_messages(request, issue);
    if text::blank(instructions) {
        assert(messages =~= request_messages(without, issue));
    } else {
        assert(messages.skip(1) =~= request_messages(without, issue));
    }
}

/// Input that is a text is the last message: the user says it, word for word, whatever the
/// instructions are. There is one message more than the instructions make.
pub proof fn law_text_input_is_said_by_the_user(request: JsonValue, input: Seq<char>, issue: Issue)
    requires
        request.get_str("input"@) == Some(input),
    ensures
        ({
            let messages = request_messages(request, issue);
            let instructed = request.get_str("instructions"@) matches Some(instructions)
                && !text::blank(instructions);
            &&& messages.len() == (if instructed {
                2int
            } else {
                1int
            })
            &&& messages.last().get_str("role"@) == Some("user"@)
            &&& messages.last().get_str("content"@) == Some(input)
            &&& messages.last().has_keys(set!["role"@, "content"@])
        }),
{
    lemma_message_members("user"@, Seq::empty(), Seq::empty(), input);
    lemma_message_shapes("user"@, Seq::empty(), Seq::empty(), input);
}

/// Input that is neither a text nor a list is the last message: the user says it as JSON, and
/// nothing where it is null. There is one message more than the instructions make.
pub proof fn law_other_input_is_said_by_the_user(request: JsonValue, input: JsonValue, issue: Issue)
    requires
        request.get("input"@) == Some(input),
        !(input is Str),
        !(input is Array),
    ensures
        ({
            let messages = request_messages(request, issue);
            let instructed = request.get_str("instructions"@) matches Some(instructions)
                && !text::blank(instructions);
            &&& messages.len() == (if instructed {
                2int
            } else {
                1int
            })
            &&& messages.last().get_str("role"@) == Some("user"@)
            &&& messages.last().get_str("content"@) == Some(
                if input is Null {
                    Seq::empty()
                } else {
                    json::json_text(input)
                },
            )
        }),
{
    lemma_message_members("user"@, Seq::empty(), Seq::empty(), content::value_text(input));
}

/// Without instructions the messages of a request are those of the items of its input, and none
/// where it has no input.
pub proof fn law_listed_input(request: JsonValue, issue: Issue)
    requires
        request.get_str("instructions"@) is None,
    ensures
        request.get("input"@) is None ==> request_messages(request, issue).len() == 0,
        request.get_array("input"@) matches Some(items) ==> request_messages(request, issue)
            == items_messages(items, issue),
{
    match request.get_array("input"@) {
        Some(items) => {
            assert(request_messages(request, issue) =~= items_messages(items, issue));
        },
        None => {},
    }
}

/// The keys of a request are different from each other.
proof fn lemma_request_keys()
    ensures
        "model"@.len() == 5,
        "temperature"@.len() == 11,
        "max_tokens"@.len() == 10,
        "frequency_penalty"@.len() == 17,
        "presence_penalty"@.len() == 16,
        "stop"@.len() == 4,
        "stream"@.len() == 6,
        "thinking"@.len() == 8,
        "messages"@.len() == 8,
        "thinking"@[0] == 't',
        "messages"@[0] == 'm',
{
    reveal_strlit("model");
    reveal_strlit("temperature");
    reveal_strlit("max_tokens");
    reveal_strlit("frequency_penalty");
    reveal_strlit("presence_penalty");
    reveal_strlit("stop");
    reveal_strlit("stream");
    reveal_strlit("thinking");
    reveal_strlit("messages");
}

/// A request to the upstream says what the configuration says: the model, the temperature, the
/// limit of tokens, whether to stream and whether to think. It sets no penalties and no stop text,
/// holds all messages, and holds the tools, where there are any, under the configured field. Apart
/// from what tools in that field replace, it says nothing else. The configured model comes before
/// that of the client's request; the model and the names of the custom tools are remembered.
pub proof fn law_request_says_what_is_configured(
    request: JsonValue,
    config: ChatCompletionsBridgeConfig,
    issue: Issue,
)
    ensures
        ({
            let outcome = request_outcome(request, config, issue);
            let messages = request_messages(request, issue);
            let declared = match request.get_array("tools"@) {
                Some(declared) => declared,
                None => Seq::empty(),
            };
            let given = tools::chat_tools(declared);
            let field = config.tool_field@;
            let (chat, context) = outcome->Ok_0;
            let model = match config.model {
                Some(model) => Some(model@),
                None => request.get_str("model"@),
            };
            &&& model is None ==> outcome == Err::<(JsonValue, ContextValue), ErrorValue>(
                ErrorValue::MissingModel,
            )
            &&& model is Some && messages.len() == 0 ==> outcome == Err::<
                (JsonValue, ContextValue),
                ErrorValue,
            >(ErrorValue::NoMessages)
            &&& model is Some && messages.len() > 0 ==> {
                let plain = given.len() == 0;
                &&& outcome is Ok
                &&& Some(context.requested_model) == model
                &&& context.custom_tool_names == tools::custom_names(declared)
                &&& !plain ==> chat.get_array(field) == Some(given)
                &&& plain || field != "model"@ ==> chat.get_str("model"@) == model
                &&& plain || field != "messages"@ ==> chat.get_array("messages"@) == Some(messages)
                &&& plain || field != "temperature"@ ==> match config.temperature {
                    Some(number) => chat.get("temperature"@) == Some(json::number_value(number)),
                    None => chat.get("temperature"@) == Some(JsonValue::Null),
                }
                &&& plain || field != "max_tokens"@ ==> chat.get("max_tokens"@) == Some(
                    JsonValue::Int(config.max_tokens as int),
                )
                &&& plain || field != "frequency_penalty"@ ==> chat.get("frequency_penalty"@)
                    == Some(JsonValue::Int(0))
                &&& plain || field != "presence_penalty"@ ==> chat.get("presence_penalty"@) == Some(
                    JsonValue::Int(0),
                )
                &&& plain || field != "stop"@ ==> chat.get("stop"@) == Some(JsonValue::Null)
                &&& plain || field != "stream"@ ==> chat.get("stream"@) == Some(
                    JsonValue::Bool(config.stream_upstream),
                )
                &&& plain || field != "thinking"@ ==> chat.get("thinking"@) == Some(
                    JsonValue::Bool(config.thinking),
                )
                &&& forall|key: Seq<char>|
                    key != "model"@ && key != "messages"@ && key != "temperature"@ && key
                        != "max_tokens"@ && key != "frequency_penalty"@ && key
                        != "presence_penalty"@ && key != "stop"@ && key != "stream"@ && key
                        != "thinking"@ && (plain || key != field) ==> #[trigger] chat.get(
                        key,
                    ) is None
            }
        }),
{
    lemma_request_keys();
}

/// A body that is no JSON is refused as such; any other is carried over as what it is read as.
pub proof fn law_bodies_are_read_as_json(
    body: Seq<u8>,
    config: ChatCompletionsBridgeConfig,
    issue: Issue,
)
    ensures
        json::json_of_bytes(body) is None <==> body_outcome(body, config, issue) == Err::<
            (JsonValue, ContextValue),
            ErrorValue,
        >(ErrorValue::RequestNotJson),
        json::json_of_bytes(body) matches Some(request) ==> body_outcome(body, config, issue)
            == request_outcome(request, config, issue),
{
}

} // verus!
