//! Replies: from the Chat Completions API to the event stream of the Responses API.

use vstd::prelude::*;

use crate::custom;
use crate::error::{BridgeError, ErrorValue};
use crate::ids;
use crate::ids::{IdSource, Issue};
use crate::json;
use crate::json::{Json, JsonValue};
use crate::names::NameSet;
use crate::request::{BridgeRequestContext, ContextValue};
use crate::response;
use crate::response::{CallValue, ChatCompletionOutput, ChatToolCall, OutputValue};
use crate::sse;
use crate::text;
use crate::tools;

verus! {

// ---------------------------------------------------------------------------------------------
// Usage
// ---------------------------------------------------------------------------------------------

/// The count that a value is, where it is one; else zero.
pub open spec fn count_or_zero(value: Option<JsonValue>) -> i64 {
    match value {
        Some(value) => match value.as_i64() {
            Some(count) => count,
            None => 0,
        },
        None => 0,
    }
}

/// The count of tokens that went in.
pub open spec fn input_tokens(usage: JsonValue) -> i64 {
    count_or_zero(response::get_either(usage, "prompt_tokens"@, "input_tokens"@))
}

/// The count of tokens that came out.
pub open spec fn output_tokens(usage: JsonValue) -> i64 {
    count_or_zero(response::get_either(usage, "completion_tokens"@, "output_tokens"@))
}

/// The count of tokens that went in and were known already.
pub open spec fn cached_tokens(usage: JsonValue) -> i64 {
    count_or_zero(response::get_either(usage, "prompt_cache_hit_tokens"@, "cached_tokens"@))
}

/// The count of tokens that came out and are not shown.
pub open spec fn reasoning_tokens(usage: JsonValue) -> i64 {
    match usage.get("completion_tokens_details"@) {
        Some(details) => count_or_zero(details.get("reasoning_tokens"@)),
        None => 0,
    }
}

/// A sum in 64 bits, which begins anew at the other end where it leaves their range.
pub open spec fn wrapped_sum(a: i64, b: i64) -> int {
    if a + b > i64::MAX {
        a + b - 0x1_0000_0000_0000_0000
    } else if a + b < i64::MIN {
        a + b + 0x1_0000_0000_0000_0000
    } else {
        a + b
    }
}

/// The count of all tokens: the one given, else the sum of both.
pub open spec fn total_tokens(usage: JsonValue) -> int {
    match usage.get("total_tokens"@) {
        Some(total) => match total.as_i64() {
            Some(total) => total as int,
            None => wrapped_sum(input_tokens(usage), output_tokens(usage)),
        },
        None => wrapped_sum(input_tokens(usage), output_tokens(usage)),
    }
}

/// The usage in the form of the Responses API.
pub open spec fn usage_value(usage: JsonValue) -> JsonValue {
    JsonValue::object().with("input_tokens"@, JsonValue::Int(input_tokens(usage) as int)).with(
        "input_tokens_details"@,
        JsonValue::object().with("cached_tokens"@, JsonValue::Int(cached_tokens(usage) as int)),
    ).with("output_tokens"@, JsonValue::Int(output_tokens(usage) as int)).with(
        "output_tokens_details"@,
        JsonValue::object().with(
            "reasoning_tokens"@,
            JsonValue::Int(reasoning_tokens(usage) as int),
        ),
    ).with("total_tokens"@, JsonValue::Int(total_tokens(usage)))
}

/// Gives the count that a value is, where it is one; else zero.
fn count_of(value: Option<&Json>) -> (count: i64)
    ensures
        count == count_or_zero(
            match value {
                Some(value) => Some(value@),
                None => None,
            },
        ),
{
    match value {
        Some(value) => match value.as_i64() {
            Some(count) => count,
            None => 0,
        },
        None => 0,
    }
}

/// Puts the usage into the form of the Responses API.
///
/// A sum that leaves the range of 64 bits begins anew at its other end.
pub fn normalize_usage(usage: &Json) -> (normalized: Json)
    ensures
        normalized@ == usage_value(usage@),
{
    let input_tokens: i64 = count_of(
        response::member_under(usage, "prompt_tokens", "input_tokens"),
    );
    let output_tokens: i64 = count_of(
        response::member_under(usage, "completion_tokens", "output_tokens"),
    );
    let cached_tokens: i64 = count_of(
        response::member_under(usage, "prompt_cache_hit_tokens", "cached_tokens"),
    );
    let reasoning_tokens: i64 = match usage.get("completion_tokens_details") {
        Some(details) => count_of(details.get("reasoning_tokens")),
        None => 0,
    };
    let given = match usage.get("total_tokens") {
        Some(total) => total.as_i64(),
        None => None,
    };
    let total_tokens: i64 = match given {
        Some(total) => total,
        None => input_tokens.wrapping_add(output_tokens),
    };
    Json::object().with("input_tokens", Json::integer(input_tokens)).with(
        "input_tokens_details",
        Json::object().with("cached_tokens", Json::integer(cached_tokens)),
    ).with("output_tokens", Json::integer(output_tokens)).with(
        "output_tokens_details",
        Json::object().with("reasoning_tokens", Json::integer(reasoning_tokens)),
    ).with("total_tokens", Json::integer(total_tokens))
}

// ---------------------------------------------------------------------------------------------
// Events
// ---------------------------------------------------------------------------------------------

/// An event of the Responses API, with its name and its data.
pub type Event = (Seq<char>, JsonValue);

/// The event that a response begins with.
pub open spec fn created_event(id: Seq<char>, model: Seq<char>) -> Event {
    (
        "response.created"@,
        JsonValue::object().with("type"@, JsonValue::Str("response.created"@)).with(
            "response"@,
            JsonValue::object().with("id"@, JsonValue::Str(id)).with(
                "model"@,
                JsonValue::Str(model),
            ).with("status"@, JsonValue::Str("in_progress"@)),
        ),
    )
}

/// A message of the model with the given text.
pub open spec fn message_item(id: Seq<char>, text: Seq<char>) -> JsonValue {
    JsonValue::object().with("type"@, JsonValue::Str("message"@)).with(
        "id"@,
        JsonValue::Str(id),
    ).with("role"@, JsonValue::Str("assistant"@)).with(
        "content"@,
        JsonValue::Array(
            seq![
                JsonValue::object().with("type"@, JsonValue::Str("output_text"@)).with(
                    "text"@,
                    JsonValue::Str(text),
                ),
            ],
        ),
    )
}

/// The event that an item of a response begins with.
pub open spec fn added_event(item: JsonValue) -> Event {
    (
        "response.output_item.added"@,
        JsonValue::object().with("type"@, JsonValue::Str("response.output_item.added"@)).with(
            "item"@,
            item,
        ),
    )
}

/// The event that adds text to an item of a response.
pub open spec fn delta_event(item_id: Seq<char>, delta: Seq<char>) -> Event {
    (
        "response.output_text.delta"@,
        JsonValue::object().with("type"@, JsonValue::Str("response.output_text.delta"@)).with(
            "item_id"@,
            JsonValue::Str(item_id),
        ).with("delta"@, JsonValue::Str(delta)),
    )
}

/// The event that an item of a response ends with.
pub open spec fn done_event(item: JsonValue) -> Event {
    (
        "response.output_item.done"@,
        JsonValue::object().with("type"@, JsonValue::Str("response.output_item.done"@)).with(
            "item"@,
            item,
        ),
    )
}

/// The event that a response ends with.
pub open spec fn completed_event(
    id: Seq<char>,
    model: Seq<char>,
    usage: Option<JsonValue>,
    end_turn: bool,
) -> Event {
    (
        "response.completed"@,
        JsonValue::object().with("type"@, JsonValue::Str("response.completed"@)).with(
            "response"@,
            JsonValue::object().with("id"@, JsonValue::Str(id)).with(
                "model"@,
                JsonValue::Str(model),
            ).with("status"@, JsonValue::Str("completed"@)).with(
                "usage"@,
                match usage {
                    Some(usage) => usage_value(usage),
                    None => JsonValue::Null,
                },
            ).with("end_turn"@, JsonValue::Bool(end_turn)),
        ),
    )
}

/// A call as an item of a response: of a custom tool where the name is that of one, else of a
/// function.
pub open spec fn call_item(
    call: CallValue,
    custom_tool_names: Set<Seq<char>>,
    item_id: Seq<char>,
    call_id: Seq<char>,
) -> JsonValue {
    if custom_tool_names.contains(call.name) {
        JsonValue::object().with("type"@, JsonValue::Str("custom_tool_call"@)).with(
            "id"@,
            JsonValue::Str(item_id),
        ).with("call_id"@, JsonValue::Str(call_id)).with("name"@, JsonValue::Str(call.name)).with(
            "input"@,
            JsonValue::Str(custom::custom_input(call.arguments)),
        )
    } else {
        JsonValue::object().with("type"@, JsonValue::Str("function_call"@)).with(
            "id"@,
            JsonValue::Str(item_id),
        ).with("call_id"@, JsonValue::Str(call_id)).with("name"@, JsonValue::Str(call.name)).with(
            "arguments"@,
            JsonValue::Str(call.arguments),
        )
    }
}

/// How many identifiers the calls of a reply need: one each, and one more where a call has none.
pub open spec fn call_issues(calls: Seq<CallValue>) -> nat
    decreases calls.len(),
{
    if calls.len() == 0 {
        0
    } else {
        call_issues(calls.drop_last()) + if calls.last().id is None {
            2nat
        } else {
            1nat
        }
    }
}

/// The events of one call, whose identifiers are issued from the given number on.
pub open spec fn call_event(
    call: CallValue,
    custom_tool_names: Set<Seq<char>>,
    issue: Issue,
    first: int,
) -> Event {
    done_event(
        call_item(
            call,
            custom_tool_names,
            issue.id(
                "fc"@,
                if call.id is None {
                    first + 1
                } else {
                    first
                },
            ),
            tools::text_or(call.id, issue.id("call"@, first)),
        ),
    )
}

/// The events of calls, whose identifiers are issued from the given number on.
pub open spec fn call_events(
    calls: Seq<CallValue>,
    custom_tool_names: Set<Seq<char>>,
    issue: Issue,
    first: nat,
) -> Seq<Event>
    decreases calls.len(),
{
    if calls.len() == 0 {
        Seq::empty()
    } else {
        call_events(calls.drop_last(), custom_tool_names, issue, first).push(
            call_event(
                calls.last(),
                custom_tool_names,
                issue,
                (first + call_issues(calls.drop_last())) as int,
            ),
        )
    }
}

/// How many identifiers are issued before that of the message.
pub open spec fn issues_before_message(output: OutputValue) -> nat {
    if output.id is None {
        1
    } else {
        0
    }
}

/// How many identifiers are issued before those of the calls.
pub open spec fn issues_before_calls(output: OutputValue) -> nat {
    issues_before_message(output) + if output.content.len() > 0 {
        1nat
    } else {
        0nat
    }
}

/// How many identifiers a reply needs.
pub open spec fn output_issues(output: OutputValue) -> nat {
    issues_before_calls(output) + call_issues(output.tool_calls)
}

/// The identifier of the response.
pub open spec fn response_id(output: OutputValue, issue: Issue) -> Seq<char> {
    tools::text_or(output.id, issue.id("resp"@, 0))
}

/// The model of the response: the one that replied, else the one that was asked.
pub open spec fn response_model(output: OutputValue, context: ContextValue) -> Seq<char> {
    tools::text_or(output.model, context.requested_model)
}

/// The events of the message of a reply: none, where it says nothing.
pub open spec fn message_events(content: Seq<char>, message_id: Seq<char>) -> Seq<Event> {
    if content.len() == 0 {
        Seq::empty()
    } else {
        seq![
            added_event(message_item(message_id, Seq::empty())),
            delta_event(message_id, content),
            done_event(message_item(message_id, content)),
        ]
    }
}

/// The events that a reply becomes, with the identifiers that are issued for it.
pub open spec fn output_events(output: OutputValue, context: ContextValue, issue: Issue) -> Seq<
    Event,
> {
    let id = response_id(output, issue);
    let model = response_model(output, context);
    seq![created_event(id, model)] + message_events(
        output.content,
        issue.id("msg"@, issues_before_message(output) as int),
    ) + call_events(
        output.tool_calls,
        context.custom_tool_names,
        issue,
        issues_before_calls(output),
    ) + seq![completed_event(id, model, output.usage, output.tool_calls.len() == 0)]
}

/// Events as they are written to a stream.
pub open spec fn written(events: Seq<Event>) -> Seq<(Seq<char>, Seq<char>)> {
    events.map_values(|event: Event| (event.0, json::json_text(event.1)))
}

/// The data of events, as it is written.
pub open spec fn texts_of(events: Seq<Event>) -> Seq<Seq<char>> {
    events.map_values(|event: Event| json::json_text(event.1))
}

/// The data of events.
pub open spec fn data_of(events: Seq<Event>) -> Seq<JsonValue> {
    events.map_values(|event: Event| event.1)
}

/// Whether an event can be written to a stream and read from it again.
pub open spec fn readable(event: Event) -> bool {
    &&& json::single_line(event.0)
    &&& sse::event_line(json::json_text(event.1))
    &&& json::json_text(event.1)[0] == '{'
    &&& json::json_of_text(json::json_text(event.1)) == Some(event.1)
}

/// Whether a stream holds the given events, all of which can be read again.
spec fn holds(stream: Seq<char>, events: Seq<Event>) -> bool {
    &&& stream == sse::stream_text(written(events))
    &&& forall|i: int| 0 <= i < events.len() ==> readable(#[trigger] events[i])
}

/// Writes an event behind those that a stream holds.
fn write_event(out: &mut String, event: &str, data: Json, events: Ghost<Seq<Event>>)
    requires
        holds(old(out)@, events@),
        json::single_line(event@),
        data@ is Object,
        json::exact(data@, 127),
    ensures
        holds(final(out)@, events@.push((event@, data@))),
{
    let ghost more = events@.push((event@, data@));
    let ghost value = data@;
    sse::write_sse_event(out, event, data);
    proof {
        assert(written(more).drop_last() =~= written(events@));
        assert(written(more).last() == (event@, json::json_text(value)));
        assert forall|i: int| 0 <= i < more.len() implies readable(#[trigger] more[i]) by {
            if i < events@.len() {
                assert(more[i] == events@[i]);
            }
        }
    }
}

/// Makes the data of the event that a response begins with.
fn make_created(id: &str, model: &str) -> (made: Json)
    ensures
        made@ == created_event(id@, model@).1,
        made@ is Object,
        json::exact(made@, 127),
{
    let made = Json::object().with("type", Json::text("response.created")).with(
        "response",
        Json::object().with("id", Json::text(id)).with("model", Json::text(model)).with(
            "status",
            Json::text("in_progress"),
        ),
    );
    proof {
        reveal_with_fuel(json::exact, 3);
    }
    made
}

/// Makes a message of the model with the given text.
fn make_message_item(id: &str, text: &str) -> (made: Json)
    ensures
        made@ == message_item(id@, text@),
        json::exact(made@, 3),
{
    let made = Json::object().with("type", Json::text("message")).with("id", Json::text(id)).with(
        "role",
        Json::text("assistant"),
    ).with(
        "content",
        Json::only(
            Json::object().with("type", Json::text("output_text")).with("text", Json::text(text)),
        ),
    );
    proof {
        reveal_with_fuel(json::exact, 4);
    }
    made
}

/// Makes the data of the event that an item of a response begins with.
fn make_added(item: Json) -> (made: Json)
    requires
        json::exact(item@, 3),
    ensures
        made@ == added_event(item@).1,
        made@ is Object,
        json::exact(made@, 127),
{
    let made = Json::object().with("type", Json::text("response.output_item.added")).with(
        "item",
        item,
    );
    proof {
        json::lemma_exact_deeper(item@, 3, 126);
        reveal_with_fuel(json::exact, 2);
    }
    made
}

/// Makes the data of the event that adds text to an item of a response.
fn make_delta(item_id: &str, delta: &str) -> (made: Json)
    ensures
        made@ == delta_event(item_id@, delta@).1,
        made@ is Object,
        json::exact(made@, 127),
{
    let made = Json::object().with("type", Json::text("response.output_text.delta")).with(
        "item_id",
        Json::text(item_id),
    ).with("delta", Json::text(delta));
    proof {
        reveal_with_fuel(json::exact, 2);
    }
    made
}

/// Makes the data of the event that an item of a response ends with.
fn make_done(item: Json) -> (made: Json)
    requires
        json::exact(item@, 3),
    ensures
        made@ == done_event(item@).1,
        made@ is Object,
        json::exact(made@, 127),
{
    let made = Json::object().with("type", Json::text("response.output_item.done")).with(
        "item",
        item,
    );
    proof {
        json::lemma_exact_deeper(item@, 3, 126);
        reveal_with_fuel(json::exact, 2);
    }
    made
}

/// Makes the data of the event that a response ends with.
fn make_completed(id: &str, model: &str, usage: &Option<Json>, end_turn: bool) -> (made: Json)
    ensures
        made@ == completed_event(id@, model@, response::some_json(*usage), end_turn).1,
        made@ is Object,
        json::exact(made@, 127),
{
    let usage = match usage {
        Some(usage) => normalize_usage(usage),
        None => Json::Null,
    };
    proof {
        reveal_with_fuel(json::exact, 3);
        assert(json::exact(usage@, 125));
    }
    let made = Json::object().with("type", Json::text("response.completed")).with(
        "response",
        Json::object().with("id", Json::text(id)).with("model", Json::text(model)).with(
            "status",
            Json::text("completed"),
        ).with("usage", usage).with("end_turn", Json::Bool(end_turn)),
    );
    made
}

/// Makes an item of a response of a call.
fn make_call_item(call: &ChatToolCall, custom_tool_names: &NameSet, item_id: &str, call_id: &str)
    -> (made: Json)
    ensures
        made@ == call_item(call@, custom_tool_names@, item_id@, call_id@),
        json::exact(made@, 3),
{
    let name = call.name.as_str();
    let arguments = call.arguments.as_str();
    let made = if custom_tool_names.contains(name) {
        Json::object().with("type", Json::text("custom_tool_call")).with(
            "id",
            Json::text(item_id),
        ).with("call_id", Json::text(call_id)).with("name", Json::text(name)).with(
            "input",
            Json::text(custom::custom_tool_input(arguments).as_str()),
        )
    } else {
        Json::object().with("type", Json::text("function_call")).with(
            "id",
            Json::text(item_id),
        ).with("call_id", Json::text(call_id)).with("name", Json::text(name)).with(
            "arguments",
            Json::text(arguments),
        )
    };
    proof {
        reveal_with_fuel(json::exact, 2);
    }
    made
}

/// Gives the identifier of a call and one for its item, and issues what is missing.
fn ids_for_call(call: &ChatToolCall, ids: &mut IdSource) -> (both: (String, String))
    ensures
        ids::advanced(*old(ids), *final(ids), call_issues(seq![call@])),
        both.0@ == tools::text_or(call@.id, ids::issued(*old(ids), *final(ids)).id("call"@, 0)),
        both.1@ == ids::issued(*old(ids), *final(ids)).id("fc"@, call_issues(seq![call@]) - 1),
{
    let ghost start = *ids;
    proof {
        reveal_with_fuel(call_issues, 2);
        assert(seq![call@].drop_last() =~= Seq::empty());
    }
    match &call.id {
        Some(call_id) => {
            let item_id = ids::next_item_id("fc", ids);
            (call_id.clone(), item_id)
        },
        None => {
            let call_id = ids::next_call_id(ids);
            let ghost middle = *ids;
            let item_id = ids::next_item_id("fc", ids);
            proof {
                ids::lemma_advanced_twice(start, middle, *ids, 1, 1);
                assert(ids::issued(middle, *ids).id("fc"@, 0) == ids::issued(start, *ids).id(
                    "fc"@,
                    1,
                ));
                assert(ids::issued(start, *ids).id("call"@, 0) == ids::issued(start, middle).id(
                    "call"@,
                    0,
                ));
            }
            (call_id, item_id)
        },
    }
}

/// The events of calls depend only on the identifiers that the calls need.
proof fn lemma_call_events_agree(
    calls: Seq<CallValue>,
    custom_tool_names: Set<Seq<char>>,
    one: Issue,
    other: Issue,
    first: nat,
)
    requires
        forall|prefix: Seq<char>, k: int|
            0 <= k < first + call_issues(calls) ==> #[trigger] one.id(prefix, k) == other.id(
                prefix,
                k,
            ),
    ensures
        call_events(calls, custom_tool_names, one, first) == call_events(
            calls,
            custom_tool_names,
            other,
            first,
        ),
    decreases calls.len(),
{
    if calls.len() > 0 {
        lemma_call_events_agree(calls.drop_last(), custom_tool_names, one, other, first);
        let k = (first + call_issues(calls.drop_last())) as int;
        assert(one.id("fc"@, k) == other.id("fc"@, k));
        if calls.last().id is None {
            assert(one.id("call"@, k) == other.id("call"@, k));
            assert(one.id("fc"@, k + 1) == other.id("fc"@, k + 1));
        }
    }
}

/// The identifiers that calls need add up.
proof fn lemma_call_issues_more(calls: Seq<CallValue>, n: int)
    requires
        0 <= n < calls.len(),
    ensures
        call_issues(calls.take(n + 1)) == call_issues(calls.take(n)) + call_issues(
            seq![calls[n]],
        ),
{
    reveal_with_fuel(call_issues, 2);
    assert(calls.take(n + 1).drop_last() =~= calls.take(n));
    assert(seq![calls[n]].drop_last() =~= Seq::empty());
}

/// The events of one call more, issued after those of the calls before it.
proof fn lemma_call_events_more(
    calls: Seq<CallValue>,
    n: int,
    custom_tool_names: Set<Seq<char>>,
    before: Issue,
    last: Issue,
    all: Issue,
    first: nat,
)
    requires
        0 <= n < calls.len(),
        forall|prefix: Seq<char>, k: int|
            0 <= k < first + call_issues(calls.take(n)) ==> #[trigger] all.id(prefix, k)
                == before.id(prefix, k),
        forall|prefix: Seq<char>, k: int|
            0 <= k < call_issues(seq![calls[n]]) ==> #[trigger] last.id(prefix, k) == all.id(
                prefix,
                first + call_issues(calls.take(n)) + k,
            ),
    ensures
        call_events(calls.take(n + 1), custom_tool_names, all, first) == call_events(
            calls.take(n),
            custom_tool_names,
            before,
            first,
        ).push(
            done_event(
                call_item(
                    calls[n],
                    custom_tool_names,
                    last.id("fc"@, call_issues(seq![calls[n]]) - 1),
                    tools::text_or(calls[n].id, last.id("call"@, 0)),
                ),
            ),
        ),
{
    reveal_with_fuel(call_issues, 2);
    assert(calls.take(n + 1).drop_last() =~= calls.take(n));
    assert(seq![calls[n]].drop_last() =~= Seq::empty());
    lemma_call_events_agree(calls.take(n), custom_tool_names, all, before, first);
    let k = call_issues(seq![calls[n]]) - 1;
    assert(last.id("fc"@, k) == all.id("fc"@, first + call_issues(calls.take(n)) + k));
    assert(last.id("call"@, 0) == all.id("call"@, first + call_issues(calls.take(n)) + 0int));
}

/// The names of the events are single lines.
proof fn lemma_event_names()
    ensures
        json::single_line("response.created"@),
        json::single_line("response.output_item.added"@),
        json::single_line("response.output_text.delta"@),
        json::single_line("response.output_item.done"@),
        json::single_line("response.completed"@),
{
    reveal_strlit("response.created");
    reveal_strlit("response.output_item.added");
    reveal_strlit("response.output_text.delta");
    reveal_strlit("response.output_item.done");
    reveal_strlit("response.completed");
}

/// Writes the events of the message of a reply behind those that a stream holds.
fn write_message(out: &mut String, content: &str, message_id: &str, events: Ghost<Seq<Event>>)
    requires
        holds(old(out)@, events@),
        content@.len() > 0,
    ensures
        holds(final(out)@, events@ + message_events(content@, message_id@)),
{
    proof {
        lemma_event_names();
        reveal_strlit("");
        assert(""@ =~= Seq::<char>::empty());
    }
    let ghost first = events@.push(added_event(message_item(message_id@, Seq::empty())));
    let ghost second = first.push(delta_event(message_id@, content@));
    write_event(
        out,
        "response.output_item.added",
        make_added(make_message_item(message_id, "")),
        events,
    );
    write_event(
        out,
        "response.output_text.delta",
        make_delta(message_id, content),
        Ghost(first),
    );
    write_event(
        out,
        "response.output_item.done",
        make_done(make_message_item(message_id, content)),
        Ghost(second),
    );
    assert(second.push(done_event(message_item(message_id@, content@))) =~= events@
        + message_events(content@, message_id@));
}

/// Writes the events of calls behind those that a stream holds. The identifiers are issued after
/// those that were issued since the given state.
fn write_calls(
    out: &mut String,
    calls: &Vec<ChatToolCall>,
    custom_tool_names: &NameSet,
    ids: &mut IdSource,
    events: Ghost<Seq<Event>>,
    start: Ghost<IdSource>,
    first: Ghost<nat>,
)
    requires
        holds(old(out)@, events@),
        ids::advanced(start@, *old(ids), first@),
    ensures
        ids::advanced(
            start@,
            *final(ids),
            first@ + call_issues(response::calls_view(calls@)),
        ),
        forall|prefix: Seq<char>, k: int|
            0 <= k < first@ ==> #[trigger] ids::issued(start@, *final(ids)).id(prefix, k)
                == ids::issued(start@, *old(ids)).id(prefix, k),
        holds(
            final(out)@,
            events@ + call_events(
                response::calls_view(calls@),
                custom_tool_names@,
                ids::issued(start@, *final(ids)),
                first@,
            ),
        ),
{
    let ghost views = response::calls_view(calls@);
    let ghost given = *ids;
    proof {
        lemma_event_names();
        assert(events@ + call_events(
            views.take(0),
            custom_tool_names@,
            ids::issued(start@, *ids),
            first@,
        ) =~= events@);
    }
    for i in 0..calls.len()
        invariant
            views == response::calls_view(calls@),
            json::single_line("response.output_item.done"@),
            ids::advanced(start@, *ids, first@ + call_issues(views.take(i as int))),
            forall|prefix: Seq<char>, k: int|
                0 <= k < first@ ==> #[trigger] ids::issued(start@, *ids).id(prefix, k)
                    == ids::issued(start@, given).id(prefix, k),
            holds(
                out@,
                events@ + call_events(
                    views.take(i as int),
                    custom_tool_names@,
                    ids::issued(start@, *ids),
                    first@,
                ),
            ),
    {
        let ghost middle = *ids;
        let ghost before = call_events(
            views.take(i as int),
            custom_tool_names@,
            ids::issued(start@, *ids),
            first@,
        );
        let ghost count = first@ + call_issues(views.take(i as int));
        let call = &calls[i];
        assert(views[i as int] == call@);
        let (call_id, item_id) = ids_for_call(call, ids);
        proof {
            ids::lemma_advanced_twice(start@, middle, *ids, count, call_issues(seq![call@]));
            lemma_call_issues_more(views, i as int);
            lemma_call_events_more(
                views,
                i as int,
                custom_tool_names@,
                ids::issued(start@, middle),
                ids::issued(middle, *ids),
                ids::issued(start@, *ids),
                first@,
            );
        }
        write_event(
            out,
            "response.output_item.done",
            make_done(
                make_call_item(call, custom_tool_names, item_id.as_str(), call_id.as_str()),
            ),
            Ghost(events@ + before),
        );
        assert(events@ + call_events(
            views.take(i + 1),
            custom_tool_names@,
            ids::issued(start@, *ids),
            first@,
        ) =~= (events@ + before).push(
            done_event(call_item(call@, custom_tool_names@, item_id@, call_id@)),
        ));
    }
    assert(views.take(calls@.len() as int) =~= views);
}

/// The chunks of a stream of readable events are their data.
proof fn lemma_chunks_of_events(events: Seq<Event>)
    requires
        forall|i: int| 0 <= i < events.len() ==> readable(#[trigger] events[i]),
    ensures
        response::chunks_of(written(events).map_values(|event: (Seq<char>, Seq<char>)| event.1))
            == Ok::<Seq<JsonValue>, Seq<char>>(data_of(events)),
    decreases events.len(),
{
    let texts = written(events).map_values(|event: (Seq<char>, Seq<char>)| event.1);
    if events.len() == 0 {
        assert(data_of(events) =~= Seq::empty());
    } else {
        let before = events.drop_last();
        assert forall|i: int| 0 <= i < before.len() implies readable(#[trigger] before[i]) by {
            assert(before[i] == events[i]);
        }
        lemma_chunks_of_events(before);
        assert(texts.drop_last() =~= written(before).map_values(
            |event: (Seq<char>, Seq<char>)| event.1,
        ));
        assert(readable(events[events.len() - 1]));
        reveal_strlit("[DONE]");
        assert("[DONE]"@[0] == '[');
        assert(data_of(events) =~= data_of(before).push(events.last().1));
    }
}

/// Whether a stream is made of the given events and is recognised as a stream; whether its
/// messages are the data of these events, each once, in order and on one line; and whether these
/// are read as the data again.
pub open spec fn streams(stream: Seq<char>, events: Seq<Event>) -> bool {
    &&& stream == sse::stream_text(written(events))
    &&& sse::sse_like(stream)
    &&& sse::data_messages(stream) == texts_of(events)
    &&& forall|i: int| 0 <= i < events.len() ==> readable(#[trigger] events[i])
    &&& response::chunks_of(sse::data_messages(stream)) == Ok::<Seq<JsonValue>, Seq<char>>(
        data_of(events),
    )
}

/// A stream that holds events is recognised as one, and is read as the data of these events.
proof fn lemma_stream_is_read(stream: Seq<char>, events: Seq<Event>)
    requires
        holds(stream, events),
        events.len() > 0,
    ensures
        streams(stream, events),
{
    let texts = written(events);
    sse::law_stream_is_recognised(texts);
    assert forall|i: int| 0 <= i < texts.len() implies sse::writable(#[trigger] texts[i]) by {
        assert(readable(events[i]));
    }
    sse::law_stream_reads_back(texts);
    lemma_chunks_of_events(events);
    assert(texts.map_values(|event: (Seq<char>, Seq<char>)| event.1) =~= texts_of(events));
}

/// Renders a reply as the event stream of the Responses API.
///
/// The stream is recognised as one, and a client that reads it gets the data of all events, each
/// once and in order.
pub fn render_responses_sse(
    output: &ChatCompletionOutput,
    request_context: &BridgeRequestContext,
    ids: &mut IdSource,
) -> (rendered: String)
    ensures
        ids::advanced(*old(ids), *final(ids), output_issues(output@)),
        streams(
            rendered@,
            output_events(output@, request_context@, ids::issued(*old(ids), *final(ids))),
        ),
{
    let ghost start = *ids;
    proof {
        ids::lemma_advanced_none(*ids);
        lemma_event_names();
    }
    let response_id: String = match &output.id {
        Some(id) => id.clone(),
        None => ids::next_response_id(ids),
    };
    let response_model = match &output.model {
        Some(model) => model.as_str(),
        None => request_context.requested_model.as_str(),
    };
    let ghost created = *ids;
    let mut rendered = String::new();
    assert(written(Seq::empty()) =~= Seq::empty());
    write_event(
        &mut rendered,
        "response.created",
        make_created(response_id.as_str(), response_model),
        Ghost(Seq::empty()),
    );
    let ghost head = seq![created_event(response_id@, response_model@)];
    assert(Seq::<Event>::empty().push(created_event(response_id@, response_model@)) =~= head);

    let ghost mut opened = head;
    if !output.content.as_str().is_empty() {
        let message_id = ids::next_item_id("msg", ids);
        write_message(
            &mut rendered,
            output.content.as_str(),
            message_id.as_str(),
            Ghost(head),
        );
        proof {
            opened = head + message_events(output.content@, message_id@);
            ids::lemma_advanced_twice(start, created, *ids, issues_before_message(output@), 1);
            assert(ids::issued(created, *ids).id("msg"@, 0) == ids::issued(start, *ids).id(
                "msg"@,
                issues_before_message(output@) + 0int,
            ));
        }
    }
    let ghost before_calls = *ids;
    proof {
        assert(opened =~= head + message_events(
            output.content@,
            ids::issued(start, *ids).id("msg"@, issues_before_message(output@) as int),
        ));
        if output@.id is None {
            assert(ids::issued(start, *ids).id("resp"@, 0) == ids::issued(start, created).id(
                "resp"@,
                0,
            ));
        }
    }

    write_calls(
        &mut rendered,
        &output.tool_calls,
        &request_context.custom_tool_names,
        ids,
        Ghost(opened),
        Ghost(start),
        Ghost(issues_before_calls(output@)),
    );
    let ghost called = opened + call_events(
        output@.tool_calls,
        request_context@.custom_tool_names,
        ids::issued(start, *ids),
        issues_before_calls(output@),
    );

    write_event(
        &mut rendered,
        "response.completed",
        make_completed(
            response_id.as_str(),
            response_model,
            &output.usage,
            output.tool_calls.is_empty(),
        ),
        Ghost(called),
    );
    proof {
        let issue = ids::issued(start, *ids);
        let events = output_events(output@, request_context@, issue);
        let completed = completed_event(
            response_id@,
            response_model@,
            output@.usage,
            output@.tool_calls.len() == 0,
        );
        if output@.id is None {
            assert(issue.id("resp"@, 0) == ids::issued(start, before_calls).id("resp"@, 0));
        }
        if output@.content.len() > 0 {
            let k = issues_before_message(output@) as int;
            assert(issue.id("msg"@, k) == ids::issued(start, before_calls).id("msg"@, k));
        }
        assert(events =~= called.push(completed));
        lemma_stream_is_read(rendered@, events);
    }
    rendered
}

/// Whether bytes are a stream of the given events in UTF-8.
pub open spec fn streams_in_utf8(bytes: Seq<u8>, events: Seq<Event>) -> bool {
    &&& bytes == vstd::utf8::encode_utf8(sse::stream_text(written(events)))
    &&& streams(sse::stream_text(written(events)), events)
}

/// What the body of a reply is read as: as a stream of chunks where it begins like one, else as a
/// whole.
pub open spec fn body_outcome(body: Seq<char>) -> Result<OutputValue, ErrorValue> {
    if sse::sse_like(body) {
        response::streaming_outcome(body)
    } else {
        response::unary_outcome(body)
    }
}

/// Makes the event stream of the Responses API of the body of a reply.
pub fn normalize_chat_completion_response(
    body: &str,
    request_context: &BridgeRequestContext,
    ids: &mut IdSource,
) -> (made: Result<Vec<u8>, BridgeError>)
    ensures
        match body_outcome(body@) {
            Ok(output) => {
                &&& ids::advanced(*old(ids), *final(ids), output_issues(output))
                &&& made matches Ok(bytes) && streams_in_utf8(
                    bytes@,
                    output_events(output, request_context@, ids::issued(*old(ids), *final(ids))),
                )
            },
            Err(error) => {
                &&& ids::advanced(*old(ids), *final(ids), 0)
                &&& made matches Err(given) && given@ == error
            },
        },
{
    proof {
        ids::lemma_advanced_none(*ids);
    }
    let read = if sse::looks_like_sse(body) {
        response::parse_streaming_chat_completion(body)
    } else {
        response::parse_unary_chat_completion(body)
    };
    match read {
        Ok(output) => {
            let rendered = render_responses_sse(&output, request_context, ids);
            Ok(vstd::slice::slice_to_vec(rendered.as_str().as_bytes()))
        },
        Err(error) => Err(error),
    }
}

// ---------------------------------------------------------------------------------------------
// Laws
// ---------------------------------------------------------------------------------------------

/// Calls become as many events as there are calls, one each and in order.
proof fn lemma_call_event_at(
    calls: Seq<CallValue>,
    custom_tool_names: Set<Seq<char>>,
    issue: Issue,
    first: nat,
    i: int,
)
    requires
        0 <= i < calls.len(),
    ensures
        call_events(calls, custom_tool_names, issue, first).len() == calls.len(),
        call_events(calls, custom_tool_names, issue, first)[i] == call_event(
            calls[i],
            custom_tool_names,
            issue,
            (first + call_issues(calls.take(i))) as int,
        ),
    decreases calls.len(),
{
    lemma_call_events_len(calls, custom_tool_names, issue, first);
    lemma_call_events_len(calls.drop_last(), custom_tool_names, issue, first);
    assert(calls.drop_last() =~= calls.take(calls.len() - 1));
    if i < calls.len() - 1 {
        lemma_call_event_at(calls.drop_last(), custom_tool_names, issue, first, i);
        assert(calls.drop_last().take(i) =~= calls.take(i));
    }
}

/// Calls become as many events as there are calls.
proof fn lemma_call_events_len(
    calls: Seq<CallValue>,
    custom_tool_names: Set<Seq<char>>,
    issue: Issue,
    first: nat,
)
    ensures
        call_events(calls, custom_tool_names, issue, first).len() == calls.len(),
    decreases calls.len(),
{
    if calls.len() > 0 {
        lemma_call_events_len(calls.drop_last(), custom_tool_names, issue, first);
    }
}

/// A response begins with its creation and ends with its completion, both under the same
/// identifier and model. In between come three events for the message, where it says anything,
/// and one for each call. The turn ends where there is no call.
pub proof fn law_response_begins_and_ends(output: OutputValue, context: ContextValue, issue: Issue)
    ensures
        ({
            let events = output_events(output, context, issue);
            let id = response_id(output, issue);
            let model = response_model(output, context);
            &&& events.len() == 2 + (if output.content.len() > 0 {
                3int
            } else {
                0int
            }) + output.tool_calls.len()
            &&& events[0] == created_event(id, model)
            &&& events.last() == completed_event(
                id,
                model,
                output.usage,
                output.tool_calls.len() == 0,
            )
        }),
{
    lemma_call_events_len(
        output.tool_calls,
        context.custom_tool_names,
        issue,
        issues_before_calls(output),
    );
}

/// The text of a reply reaches the client unchanged: the events of the message hold it, in one
/// piece and once more at the end.
pub proof fn law_text_is_unchanged(output: OutputValue, context: ContextValue, issue: Issue)
    requires
        output.content.len() > 0,
    ensures
        ({
            let events = output_events(output, context, issue);
            let id = issue.id("msg"@, issues_before_message(output) as int);
            &&& events.len() >= 4
            &&& events[1] == added_event(message_item(id, Seq::empty()))
            &&& events[2] == delta_event(id, output.content)
            &&& events[3] == done_event(message_item(id, output.content))
        }),
{
}

/// What the item of a call has under its keys.
proof fn lemma_call_item_members(
    call: CallValue,
    custom_tool_names: Set<Seq<char>>,
    item_id: Seq<char>,
    call_id: Seq<char>,
)
    ensures
        ({
            let item = call_item(call, custom_tool_names, item_id, call_id);
            &&& item.get_str("id"@) == Some(item_id)
            &&& item.get_str("call_id"@) == Some(call_id)
            &&& item.get_str("name"@) == Some(call.name)
            &&& if custom_tool_names.contains(call.name) {
                &&& item.get_str("type"@) == Some("custom_tool_call"@)
                &&& item.get_str("input"@) == Some(custom::custom_input(call.arguments))
            } else {
                &&& item.get_str("type"@) == Some("function_call"@)
                &&& item.get_str("arguments"@) == Some(call.arguments)
            }
        }),
{
    reveal_strlit("type");
    reveal_strlit("id");
    reveal_strlit("call_id");
    reveal_strlit("name");
    reveal_strlit("input");
    reveal_strlit("arguments");
    assert("type"@.len() == 4 && "id"@.len() == 2 && "call_id"@.len() == 7 && "name"@.len() == 4
        && "input"@.len() == 5 && "arguments"@.len() == 9);
    assert("type"@[0] == 't' && "name"@[0] == 'n');
}

/// Every call of a reply reaches the client as one item, in order: under its own identifier,
/// where it has one, and with its name. It is an item of a custom tool, with the input that its
/// arguments carry, exactly where the name is that of a custom tool; else it is one of a
/// function, with the arguments as they are.
pub proof fn law_calls_are_kept(output: OutputValue, context: ContextValue, issue: Issue, i: int)
    requires
        0 <= i < output.tool_calls.len(),
    ensures
        ({
            let events = output_events(output, context, issue);
            let call = output.tool_calls[i];
            let at = events.len() - 1 - output.tool_calls.len() + i;
            &&& 0 <= at < events.len()
            &&& events[at].0 == "response.output_item.done"@
            &&& events[at].1.get("item"@) matches Some(item) && {
                &&& item.get_str("name"@) == Some(call.name)
                &&& call.id is Some ==> item.get_str("call_id"@) == call.id
                &&& if context.custom_tool_names.contains(call.name) {
                    &&& item.get_str("type"@) == Some("custom_tool_call"@)
                    &&& item.get_str("input"@) == Some(custom::custom_input(call.arguments))
                } else {
                    &&& item.get_str("type"@) == Some("function_call"@)
                    &&& item.get_str("arguments"@) == Some(call.arguments)
                }
            }
        }),
{
    let events = output_events(output, context, issue);
    let names = context.custom_tool_names;
    let first = issues_before_calls(output);
    let calls = output.tool_calls;
    lemma_call_event_at(calls, names, issue, first, i);
    let k = (first + call_issues(calls.take(i))) as int;
    lemma_call_item_members(
        calls[i],
        names,
        issue.id(
            "fc"@,
            if calls[i].id is None {
                k + 1
            } else {
                k
            },
        ),
        tools::text_or(calls[i].id, issue.id("call"@, k)),
    );
    let at = events.len() - 1 - calls.len() + i;
    assert(events[at] == call_events(calls, names, issue, first)[i]);
    reveal_strlit("type");
    reveal_strlit("item");
    assert("type"@[0] == 't' && "item"@[0] == 'i');
}

/// A call comes back to the client as one of a custom tool exactly where the client's request
/// declares a custom tool of that name.
pub proof fn law_custom_tools_are_called_as_such(
    declared: Seq<JsonValue>,
    call: CallValue,
    item_id: Seq<char>,
    call_id: Seq<char>,
)
    ensures
        call_item(call, tools::custom_names(declared), item_id, call_id).get_str("type"@) == Some(
            "custom_tool_call"@,
        ) <==> exists|i: int|
            0 <= i < declared.len() && tools::custom_name(#[trigger] declared[i]) == Some(
                call.name,
            ),
{
    tools::law_custom_names_are_those_declared(declared, call.name);
    lemma_call_item_members(call, tools::custom_names(declared), item_id, call_id);
    reveal_strlit("custom_tool_call");
    reveal_strlit("function_call");
    assert("custom_tool_call"@.len() == 16 && "function_call"@.len() == 13);
}

/// What the usage has under its keys in the form of the Responses API.
proof fn lemma_usage_members(usage: JsonValue)
    ensures
        ({
            let value = usage_value(usage);
            &&& value.get("prompt_tokens"@) is None
            &&& value.get("completion_tokens"@) is None
            &&& value.get("input_tokens"@) == Some(JsonValue::Int(input_tokens(usage) as int))
            &&& value.get("output_tokens"@) == Some(JsonValue::Int(output_tokens(usage) as int))
            &&& value.get("total_tokens"@) == Some(JsonValue::Int(total_tokens(usage)))
        }),
{
    reveal_strlit("prompt_tokens");
    reveal_strlit("completion_tokens");
    reveal_strlit("input_tokens");
    reveal_strlit("input_tokens_details");
    reveal_strlit("output_tokens");
    reveal_strlit("output_tokens_details");
    reveal_strlit("total_tokens");
    assert("prompt_tokens"@.len() == 13 && "completion_tokens"@.len() == 17
        && "input_tokens"@.len() == 12 && "input_tokens_details"@.len() == 20
        && "output_tokens"@.len() == 13 && "output_tokens_details"@.len() == 21
        && "total_tokens"@.len() == 12);
    assert("prompt_tokens"@[0] == 'p' && "output_tokens"@[0] == 'o' && "input_tokens"@[0] == 'i'
        && "total_tokens"@[0] == 't');
}

/// Counts that are in the form of the Responses API already stay as they are: those of tokens in,
/// tokens out and all tokens.
pub proof fn law_counts_are_stable(usage: JsonValue)
    ensures
        input_tokens(usage_value(usage)) == input_tokens(usage),
        output_tokens(usage_value(usage)) == output_tokens(usage),
        total_tokens(usage_value(usage)) == total_tokens(usage),
{
    lemma_usage_members(usage);
}

/// A whole body and a streamed body of the same reply are read as the same, however many chunks the
/// streamed one has and wherever the text and the arguments of the calls are cut.
pub proof fn law_bodies_of_one_reply_are_read_alike(
    whole: Seq<char>,
    streamed: Seq<char>,
    reply: JsonValue,
    choice: JsonValue,
    message: JsonValue,
    chunks: Seq<JsonValue>,
)
    requires
        json::json_of_text(whole) == Some(reply),
        sse::sse_like(streamed),
        response::chunks_of(sse::data_messages(streamed)) == Ok::<Seq<JsonValue>, Seq<char>>(chunks),
        response::first_choice(reply) == Some(choice),
        response::choice_message(choice) == Some(message),
        response::same_heads(chunks, reply),
        response::cut_from(response::all_deltas(chunks), message),
    ensures
        body_outcome(whole) == Ok::<OutputValue, ErrorValue>(
            response::reply_output(reply, message),
        ),
        body_outcome(streamed) == body_outcome(whole),
{
    sse::law_json_is_no_stream(whole);
    response::law_chunks_are_a_whole_reply(chunks, reply, choice, message);
}

/// Whether a whole reply has the given identifier, model and usage, and says the given text without
/// calling anything.
pub open spec fn text_reply(
    reply: JsonValue,
    id: Seq<char>,
    model: Seq<char>,
    content: Seq<char>,
    usage: Option<JsonValue>,
) -> bool {
    &&& reply.get_str("id"@) == Some(id)
    &&& reply.get_str("model"@) == Some(model)
    &&& reply.get("usage"@) == usage
    &&& response::first_choice(reply) matches Some(choice) && {
        &&& choice.get("message"@) matches Some(message) && {
            &&& message.get_str("content"@) == Some(content)
            &&& response::listed_calls(message) is None
        }
    }
}

/// Whether a chunk has the given identifier, model and usage, and adds the given text and nothing
/// else.
pub open spec fn text_chunk(
    chunk: JsonValue,
    id: Seq<char>,
    model: Seq<char>,
    piece: Seq<char>,
    usage: Option<JsonValue>,
) -> bool {
    &&& chunk.get_str("id"@) == Some(id)
    &&& chunk.get_str("model"@) == Some(model)
    &&& chunk.get("usage"@) == usage
    &&& chunk.get_array("choices"@) matches Some(choices) && {
        &&& choices.len() == 1
        &&& choices[0].get("delta"@) matches Some(delta) && {
            &&& delta.get_str("content"@) == Some(piece)
            &&& response::listed_calls(delta) is None
        }
    }
}

/// Whether a text is an object on one line.
pub open spec fn object_line(text: Seq<char>) -> bool {
    json::single_line(text) && text.len() > 0 && text[0] == '{'
}

/// Whether a text is the end of a stream: an end mark, with or without line breaks behind it.
pub open spec fn end_of_stream(end: Seq<char>) -> bool {
    ||| end == "data: [DONE]"@
    ||| end == "data: [DONE]"@ + "\n"@
    ||| end == "data: [DONE]"@ + "\n\n"@
}

/// A reply that says a text and calls nothing.
pub open spec fn text_output(
    id: Seq<char>,
    model: Seq<char>,
    content: Seq<char>,
    usage: Option<JsonValue>,
) -> OutputValue {
    OutputValue {
        id: Some(id),
        model: Some(model),
        content,
        tool_calls: Seq::empty(),
        usage,
    }
}

/// The events of a reply that says a text and calls nothing.
pub open spec fn text_events(
    id: Seq<char>,
    model: Seq<char>,
    content: Seq<char>,
    usage: Option<JsonValue>,
    message_id: Seq<char>,
) -> Seq<Event> {
    seq![
        created_event(id, model),
        added_event(message_item(message_id, Seq::empty())),
        delta_event(message_id, content),
        done_event(message_item(message_id, content)),
        completed_event(id, model, usage, true),
    ]
}

/// A reply that says a text and calls nothing becomes five events: one delta holds all of the text,
/// and the turn ends. One identifier is issued, that of the message.
pub proof fn law_text_reply_events(
    id: Seq<char>,
    model: Seq<char>,
    content: Seq<char>,
    usage: Option<JsonValue>,
    context: ContextValue,
    issue: Issue,
)
    requires
        content.len() > 0,
    ensures
        output_issues(text_output(id, model, content, usage)) == 1,
        output_events(text_output(id, model, content, usage), context, issue) == text_events(
            id,
            model,
            content,
            usage,
            issue.id("msg"@, 0),
        ),
{
    let output = text_output(id, model, content, usage);
    assert(call_events(
        output.tool_calls,
        context.custom_tool_names,
        issue,
        issues_before_calls(output),
    ) =~= Seq::empty());
    assert(output_events(output, context, issue) =~= text_events(
        id,
        model,
        content,
        usage,
        issue.id("msg"@, 0),
    ));
}

/// A chunk that adds a text has one delta, with this text and no calls.
proof fn lemma_text_chunk(
    chunk: JsonValue,
    id: Seq<char>,
    model: Seq<char>,
    piece: Seq<char>,
    usage: Option<JsonValue>,
) -> (delta: JsonValue)
    requires
        text_chunk(chunk, id, model, piece, usage),
    ensures
        response::chunk_deltas(chunk) == seq![delta],
        response::delta_text(delta) == piece,
        response::listed_calls(delta) is None,
{
    let choices = chunk.get_array("choices"@)->Some_0;
    let pick = |choice: JsonValue| response::choice_delta(choice);
    let delta = choices[0].get("delta"@)->Some_0;
    text::lemma_kept_first(choices[0], Seq::empty(), pick);
    assert(choices =~= seq![choices[0]] + Seq::empty());
    assert(pick(choices[0]) == Some(delta));
    assert(response::chunk_deltas(chunk) =~= seq![delta]);
    delta
}

/// A stream of chunks and its end are read as these chunks.
proof fn lemma_chunk_stream(texts: Seq<Seq<char>>, chunks: Seq<JsonValue>, end: Seq<char>)
    requires
        0 < texts.len() == chunks.len(),
        forall|i: int|
            0 <= i < texts.len() ==> object_line(#[trigger] texts[i]) && json::json_of_text(
                texts[i],
            ) == Some(chunks[i]),
        end_of_stream(end),
    ensures
        sse::sse_like(sse::data_stream(texts) + end),
        response::chunks_of(sse::data_messages(sse::data_stream(texts) + end)) == Ok::<
            Seq<JsonValue>,
            Seq<char>,
        >(chunks),
{
    reveal_strlit("data: [DONE]");
    reveal_strlit("data: ");
    reveal_strlit("[DONE]");
    assert("[DONE]"@[0] == '[');
    assert forall|i: int| 0 <= i < texts.len() implies sse::event_line(#[trigger] texts[i])
        && texts[i] != "[DONE]"@ by {
        assert(object_line(texts[i]));
    }
    sse::law_data_stream_reads_back(texts);
    sse::law_data_stream_is_recognised(texts, end);
    sse::law_messages_of_parts(sse::data_stream(texts), end);
    response::lemma_end_mark_line();
    sse::law_data_is_read("[DONE]"@);
    assert("data: [DONE]"@ =~= "data: "@ + "[DONE]"@);
    response::lemma_chunks_read(texts, chunks);
}

/// A whole body and a streamed body of the same text are carried over alike: both are read as the
/// same reply, and so become the same events up to the identifier that is issued for the message.
/// The streamed body has one chunk for each piece of the text, the usage on the last one, and an
/// end mark.
pub proof fn law_streamed_text_is_carried_over_like_whole_text(
    whole: Seq<char>,
    reply: JsonValue,
    texts: Seq<Seq<char>>,
    chunks: Seq<JsonValue>,
    pieces: Seq<Seq<char>>,
    end: Seq<char>,
    id: Seq<char>,
    model: Seq<char>,
    usage: Option<JsonValue>,
)
    requires
        json::json_of_text(whole) == Some(reply),
        text_reply(reply, id, model, text::joined(pieces, Seq::empty()), usage),
        0 < texts.len() == chunks.len() == pieces.len(),
        forall|i: int|
            0 <= i < texts.len() ==> {
                &&& object_line(#[trigger] texts[i])
                &&& json::json_of_text(texts[i]) == Some(chunks[i])
                &&& text_chunk(
                    chunks[i],
                    id,
                    model,
                    pieces[i],
                    if i == texts.len() - 1 {
                        usage
                    } else {
                        None
                    },
                )
            },
        end_of_stream(end),
    ensures
        ({
            let content = text::joined(pieces, Seq::empty());
            let output = text_output(id, model, content, usage);
            let streamed = sse::data_stream(texts) + end;
            &&& body_outcome(whole) == Ok::<OutputValue, ErrorValue>(output)
            &&& body_outcome(streamed) == Ok::<OutputValue, ErrorValue>(output)
            &&& content.len() > 0 ==> output_issues(output) == 1
            &&& content.len() > 0 ==> forall|context: ContextValue, issue: Issue|
                #[trigger] output_events(output, context, issue) == text_events(
                    id,
                    model,
                    content,
                    usage,
                    issue.id("msg"@, 0),
                )
        }),
{
    let content = text::joined(pieces, Seq::empty());
    let output = text_output(id, model, content, usage);
    let streamed = sse::data_stream(texts) + end;
    let choice = response::first_choice(reply)->Some_0;
    let message = choice.get("message"@)->Some_0;
    lemma_chunk_stream(texts, chunks, end);
    let n = chunks.len();
    let usages = |i: int|
        if i == n - 1 {
            usage
        } else {
            None
        };
    assert forall|i: int| 0 <= i < n implies text_chunk(
        #[trigger] chunks[i],
        id,
        model,
        pieces[i],
        usages(i),
    ) by {
        assert(object_line(texts[i]));
    }
    let deltas = Seq::new(n, |i: int| response::chunk_deltas(chunks[i])[0]);
    assert forall|i: int| 0 <= i < n implies response::chunk_deltas(#[trigger] chunks[i])
        == seq![deltas[i]] && response::delta_text(deltas[i]) == pieces[i]
        && response::listed_calls(deltas[i]) is None by {
        lemma_text_chunk(chunks[i], id, model, pieces[i], usages(i));
    }
    assert forall|i: int| 0 <= i < deltas.len() implies response::listed_calls(
        #[trigger] deltas[i],
    ) is None by {
        assert(response::chunk_deltas(chunks[i]) == seq![deltas[i]]);
    }
    let texts_added = deltas.map_values(|delta: JsonValue| response::delta_text(delta));
    assert(texts_added =~= pieces) by {
        assert forall|i: int| 0 <= i < n implies #[trigger] texts_added[i] == pieces[i] by {
            assert(response::chunk_deltas(chunks[i]) == seq![deltas[i]]);
        }
    }
    assert(response::all_text(deltas) == content);
    assert(response::message_text(message) == content);
    assert(response::same_heads(chunks, reply)) by {
        assert(text_chunk(chunks[0], id, model, pieces[0], usages(0)));
        assert(text_chunk(chunks[n - 1], id, model, pieces[n - 1], usages(n - 1)));
    }
    response::law_text_chunks_are_a_whole_reply(chunks, deltas, reply, choice, message);
    sse::law_json_is_no_stream(whole);
    assert(response::reply_output(reply, message) == output);
    if content.len() > 0 {
        assert forall|context: ContextValue, issue: Issue| #[trigger]
            output_events(output, context, issue) == text_events(
                id,
                model,
                content,
                usage,
                issue.id("msg"@, 0),
            ) by {
            law_text_reply_events(id, model, content, usage, context, issue);
        }
        assert(output_issues(output) == 1);
    }
}

/// What the events of a response have under their keys.
proof fn lemma_event_shapes(
    id: Seq<char>,
    model: Seq<char>,
    text: Seq<char>,
    usage: Option<JsonValue>,
    end_turn: bool,
    item: JsonValue,
)
    ensures
        ({
            let (name, data) = created_event(id, model);
            let response = data.get("response"@)->Some_0;
            &&& name == "response.created"@
            &&& data.has_keys(set!["type"@, "response"@])
            &&& data.get_str("type"@) == Some("response.created"@)
            &&& response.has_keys(set!["id"@, "model"@, "status"@])
            &&& response.get_str("id"@) == Some(id)
            &&& response.get_str("model"@) == Some(model)
            &&& response.get_str("status"@) == Some("in_progress"@)
        }),
        ({
            let (name, data) = completed_event(id, model, usage, end_turn);
            let response = data.get("response"@)->Some_0;
            &&& name == "response.completed"@
            &&& data.has_keys(set!["type"@, "response"@])
            &&& data.get_str("type"@) == Some("response.completed"@)
            &&& response.has_keys(set!["id"@, "model"@, "status"@, "usage"@, "end_turn"@])
            &&& response.get_str("id"@) == Some(id)
            &&& response.get_str("model"@) == Some(model)
            &&& response.get_str("status"@) == Some("completed"@)
            &&& response.get("end_turn"@) == Some(JsonValue::Bool(end_turn))
            &&& response.get("usage"@) == Some(
                match usage {
                    Some(usage) => usage_value(usage),
                    None => JsonValue::Null,
                },
            )
        }),
        ({
            let (name, data) = added_event(item);
            &&& name == "response.output_item.added"@
            &&& data.has_keys(set!["type"@, "item"@])
            &&& data.get_str("type"@) == Some("response.output_item.added"@)
            &&& data.get("item"@) == Some(item)
        }),
        ({
            let (name, data) = done_event(item);
            &&& name == "response.output_item.done"@
            &&& data.has_keys(set!["type"@, "item"@])
            &&& data.get_str("type"@) == Some("response.output_item.done"@)
            &&& data.get("item"@) == Some(item)
        }),
        ({
            let (name, data) = delta_event(id, text);
            &&& name == "response.output_text.delta"@
            &&& data.has_keys(set!["type"@, "item_id"@, "delta"@])
            &&& data.get_str("type"@) == Some("response.output_text.delta"@)
            &&& data.get_str("item_id"@) == Some(id)
            &&& data.get_str("delta"@) == Some(text)
        }),
{
    reveal_strlit("type");
    reveal_strlit("response");
    reveal_strlit("id");
    reveal_strlit("model");
    reveal_strlit("status");
    reveal_strlit("usage");
    reveal_strlit("end_turn");
    reveal_strlit("item");
    reveal_strlit("item_id");
    reveal_strlit("delta");
    assert("type"@.len() == 4 && "response"@.len() == 8 && "id"@.len() == 2 && "model"@.len() == 5
        && "status"@.len() == 6 && "usage"@.len() == 5 && "end_turn"@.len() == 8 && "item"@.len()
        == 4 && "item_id"@.len() == 7 && "delta"@.len() == 5);
    assert("type"@[0] == 't' && "item"@[0] == 'i' && "model"@[0] == 'm' && "usage"@[0] == 'u'
        && "delta"@[0] == 'd');
}

/// What a message of the model has under its keys.
proof fn lemma_message_item_shape(id: Seq<char>, text: Seq<char>)
    ensures
        is_message_item(message_item(id, text), id, text),
{
    reveal_strlit("type");
    reveal_strlit("id");
    reveal_strlit("role");
    reveal_strlit("content");
    reveal_strlit("text");
    assert("type"@.len() == 4 && "id"@.len() == 2 && "role"@.len() == 4 && "content"@.len() == 7
        && "text"@.len() == 4);
    assert("type"@[1] == 'y' && "text"@[1] == 'e' && "role"@[1] == 'o');
}

/// Whether a value is a message of the assistant with the given identifier, whose content is one
/// output text.
pub open spec fn is_message_item(item: JsonValue, id: Seq<char>, text: Seq<char>) -> bool {
    &&& item.has_keys(set!["type"@, "id"@, "role"@, "content"@])
    &&& item.get_str("type"@) == Some("message"@)
    &&& item.get_str("id"@) == Some(id)
    &&& item.get_str("role"@) == Some("assistant"@)
    &&& item.get_array("content"@) matches Some(content) && {
        &&& content.len() == 1
        &&& content[0].has_keys(set!["type"@, "text"@])
        &&& content[0].get_str("type"@) == Some("output_text"@)
        &&& content[0].get_str("text"@) == Some(text)
    }
}

/// The first event says that a response was created and is in progress, the last one that it is
/// completed. Both give the identifier of the reply, else one that is issued, and the model that
/// replied, else the one that was asked. The last one gives the usage, and null where there is none,
/// and says that the turn ends exactly where there is no call.
pub proof fn law_first_and_last_event(output: OutputValue, context: ContextValue, issue: Issue)
    ensures
        ({
            let events = output_events(output, context, issue);
            let (first, last) = (events[0], events.last());
            let (created, completed) = (
                first.1.get("response"@)->Some_0,
                last.1.get("response"@)->Some_0,
            );
            let id = match output.id {
                Some(id) => id,
                None => issue.id("resp"@, 0),
            };
            let model = match output.model {
                Some(model) => model,
                None => context.requested_model,
            };
            &&& events.len() >= 2
            &&& first.0 == "response.created"@
            &&& first.1.get_str("type"@) == Some("response.created"@)
            &&& first.1.has_keys(set!["type"@, "response"@])
            &&& created.has_keys(set!["id"@, "model"@, "status"@])
            &&& created.get_str("id"@) == Some(id)
            &&& created.get_str("model"@) == Some(model)
            &&& created.get_str("status"@) == Some("in_progress"@)
            &&& last.0 == "response.completed"@
            &&& last.1.get_str("type"@) == Some("response.completed"@)
            &&& last.1.has_keys(set!["type"@, "response"@])
            &&& completed.has_keys(set!["id"@, "model"@, "status"@, "usage"@, "end_turn"@])
            &&& completed.get_str("id"@) == Some(id)
            &&& completed.get_str("model"@) == Some(model)
            &&& completed.get_str("status"@) == Some("completed"@)
            &&& completed.get("end_turn"@) == Some(JsonValue::Bool(output.tool_calls.len() == 0))
            &&& match output.usage {
                Some(usage) => completed.get("usage"@) == Some(usage_value(usage)),
                None => completed.get("usage"@) == Some(JsonValue::Null),
            }
        }),
{
    lemma_event_shapes(
        response_id(output, issue),
        response_model(output, context),
        output.content,
        output.usage,
        output.tool_calls.len() == 0,
        JsonValue::Null,
    );
}

/// What a model says comes as three events behind the first: an assistant message without text is
/// added, all of the text comes in one delta, and the assistant message with all of the text is
/// done. All three are about the same identifier, which is issued for it. Where the model says
/// nothing there are no such events.
pub proof fn law_messages_are_said_by_the_assistant(
    output: OutputValue,
    context: ContextValue,
    issue: Issue,
)
    ensures
        ({
            let events = output_events(output, context, issue);
            let id = issue.id(
                "msg"@,
                if output.id is Some {
                    0
                } else {
                    1
                },
            );
            &&& output.content.len() == 0 ==> events.len() == 2 + output.tool_calls.len()
            &&& output.content.len() > 0 ==> {
                &&& events.len() == 5 + output.tool_calls.len()
                &&& events[1].0 == "response.output_item.added"@
                &&& events[1].1.get_str("type"@) == Some("response.output_item.added"@)
                &&& events[1].1.has_keys(set!["type"@, "item"@])
                &&& events[1].1.get("item"@) matches Some(item) && is_message_item(
                    item,
                    id,
                    Seq::empty(),
                )
                &&& events[2].0 == "response.output_text.delta"@
                &&& events[2].1.get_str("type"@) == Some("response.output_text.delta"@)
                &&& events[2].1.has_keys(set!["type"@, "item_id"@, "delta"@])
                &&& events[2].1.get_str("item_id"@) == Some(id)
                &&& events[2].1.get_str("delta"@) == Some(output.content)
                &&& events[3].0 == "response.output_item.done"@
                &&& events[3].1.get_str("type"@) == Some("response.output_item.done"@)
                &&& events[3].1.has_keys(set!["type"@, "item"@])
                &&& events[3].1.get("item"@) matches Some(item) && is_message_item(
                    item,
                    id,
                    output.content,
                )
            }
        }),
{
    let id = issue.id("msg"@, issues_before_message(output) as int);
    lemma_call_events_len(
        output.tool_calls,
        context.custom_tool_names,
        issue,
        issues_before_calls(output),
    );
    let (first, last) = (message_item(id, Seq::empty()), message_item(id, output.content));
    lemma_event_shapes(id, Seq::empty(), output.content, None, true, first);
    lemma_event_shapes(id, Seq::empty(), output.content, None, true, last);
    lemma_message_item_shape(id, Seq::empty());
    lemma_message_item_shape(id, output.content);
}

/// How many identifiers are issued: one for the response, where it has none, one for the message,
/// where it says anything, one for each call, and one more for each call that has none. They are
/// issued in this order.
pub proof fn law_identifiers_that_are_issued(
    output: OutputValue,
    calls: Seq<CallValue>,
    call: CallValue,
)
    ensures
        output_issues(output) == (if output.id is None {
            1int
        } else {
            0int
        }) + (if output.content.len() > 0 {
            1int
        } else {
            0int
        }) + call_issues(output.tool_calls),
        call_issues(Seq::empty()) == 0,
        call_issues(calls.push(call)) == call_issues(calls) + (if call.id is None {
            2int
        } else {
            1int
        }),
{
    assert(calls.push(call).drop_last() =~= calls);
}

/// Every call comes as one event that its item is done, in order and before the last event. The item
/// has an identifier that is issued for it, the identifier of the call, else one that is issued just
/// before, and the name of the call. It is one of a custom tool, with its input, exactly where the
/// name is that of a custom tool: the text under `input` where the arguments are JSON that has one,
/// else the arguments as they are. Else it is one of a function, with the arguments as they are.
pub proof fn law_calls_come_as_items(
    output: OutputValue,
    context: ContextValue,
    issue: Issue,
    i: int,
)
    requires
        0 <= i < output.tool_calls.len(),
    ensures
        ({
            let events = output_events(output, context, issue);
            let call = output.tool_calls[i];
            let event = events[events.len() - 1 - output.tool_calls.len() + i];
            let item = event.1.get("item"@)->Some_0;
            let first = (if output.id is None {
                1int
            } else {
                0int
            }) + (if output.content.len() > 0 {
                1int
            } else {
                0int
            }) + call_issues(output.tool_calls.take(i));
            &&& event.0 == "response.output_item.done"@
            &&& event.1.get_str("type"@) == Some("response.output_item.done"@)
            &&& event.1.has_keys(set!["type"@, "item"@])
            &&& item.get_str("name"@) == Some(call.name)
            &&& match call.id {
                Some(id) => {
                    &&& item.get_str("call_id"@) == Some(id)
                    &&& item.get_str("id"@) == Some(issue.id("fc"@, first))
                },
                None => {
                    &&& item.get_str("call_id"@) == Some(issue.id("call"@, first))
                    &&& item.get_str("id"@) == Some(issue.id("fc"@, first + 1))
                },
            }
            &&& if context.custom_tool_names.contains(call.name) {
                &&& item.has_keys(set!["type"@, "id"@, "call_id"@, "name"@, "input"@])
                &&& item.get_str("type"@) == Some("custom_tool_call"@)
                &&& match json::json_of_text(call.arguments) {
                    Some(read) => match read.get("input"@) {
                        Some(JsonValue::Str(input)) => item.get_str("input"@) == Some(input),
                        _ => item.get_str("input"@) == Some(call.arguments),
                    },
                    None => item.get_str("input"@) == Some(call.arguments),
                }
            } else {
                &&& item.has_keys(set!["type"@, "id"@, "call_id"@, "name"@, "arguments"@])
                &&& item.get_str("type"@) == Some("function_call"@)
                &&& item.get_str("arguments"@) == Some(call.arguments)
            }
        }),
{
    let events = output_events(output, context, issue);
    let names = context.custom_tool_names;
    let first = issues_before_calls(output);
    let calls = output.tool_calls;
    let call = calls[i];
    lemma_call_event_at(calls, names, issue, first, i);
    let k = (first + call_issues(calls.take(i))) as int;
    let item_id = issue.id(
        "fc"@,
        if call.id is None {
            k + 1
        } else {
            k
        },
    );
    let call_id = tools::text_or(call.id, issue.id("call"@, k));
    lemma_call_item_members(call, names, item_id, call_id);
    lemma_call_item_keys(call, names, item_id, call_id);
    let item = call_item(call, names, item_id, call_id);
    lemma_event_shapes(Seq::empty(), Seq::empty(), Seq::empty(), None, true, item);
    let at = events.len() - 1 - calls.len() + i;
    assert(events[at] == call_events(calls, names, issue, first)[i]);
}

/// Which keys the item of a call has.
proof fn lemma_call_item_keys(
    call: CallValue,
    custom_tool_names: Set<Seq<char>>,
    item_id: Seq<char>,
    call_id: Seq<char>,
)
    ensures
        ({
            let item = call_item(call, custom_tool_names, item_id, call_id);
            if custom_tool_names.contains(call.name) {
                item.has_keys(set!["type"@, "id"@, "call_id"@, "name"@, "input"@])
            } else {
                item.has_keys(set!["type"@, "id"@, "call_id"@, "name"@, "arguments"@])
            }
        }),
{
}

/// The count that a member of the usage is: an integer in 64 bits, and zero for anything else.
pub open spec fn counted(member: Option<JsonValue>) -> int {
    match member {
        Some(JsonValue::Int(n)) => if i64::MIN <= n <= i64::MAX {
            n
        } else {
            0
        },
        _ => 0,
    }
}

/// The usage is given under the names of the Responses API, each count from the member that the
/// upstream has for it, else from the one that is named as here, and zero where it is no count. The
/// total is the one given, else the sum of tokens in and tokens out, which in 64 bits is the sum up
/// to a multiple of their range.
pub proof fn law_usage_is_counted(usage: JsonValue)
    ensures
        ({
            let value = usage_value(usage);
            let tokens_in = counted(
                if usage.get("prompt_tokens"@) is Some {
                    usage.get("prompt_tokens"@)
                } else {
                    usage.get("input_tokens"@)
                },
            );
            let tokens_out = counted(
                if usage.get("completion_tokens"@) is Some {
                    usage.get("completion_tokens"@)
                } else {
                    usage.get("output_tokens"@)
                },
            );
            let cached = counted(
                if usage.get("prompt_cache_hit_tokens"@) is Some {
                    usage.get("prompt_cache_hit_tokens"@)
                } else {
                    usage.get("cached_tokens"@)
                },
            );
            let reasoning = counted(
                match usage.get("completion_tokens_details"@) {
                    Some(details) => details.get("reasoning_tokens"@),
                    None => None,
                },
            );
            let sum = tokens_in + tokens_out;
            let range = 0x1_0000_0000_0000_0000int;
            &&& value.has_keys(
                set![
                    "input_tokens"@,
                    "input_tokens_details"@,
                    "output_tokens"@,
                    "output_tokens_details"@,
                    "total_tokens"@,
                ],
            )
            &&& value.get("input_tokens"@) == Some(JsonValue::Int(tokens_in))
            &&& value.get("output_tokens"@) == Some(JsonValue::Int(tokens_out))
            &&& value.get("input_tokens_details"@) matches Some(details) && {
                &&& details.has_keys(set!["cached_tokens"@])
                &&& details.get("cached_tokens"@) == Some(JsonValue::Int(cached))
            }
            &&& value.get("output_tokens_details"@) matches Some(details) && {
                &&& details.has_keys(set!["reasoning_tokens"@])
                &&& details.get("reasoning_tokens"@) == Some(JsonValue::Int(reasoning))
            }
            &&& value.get("total_tokens"@) matches Some(JsonValue::Int(total)) && {
                &&& i64::MIN <= total <= i64::MAX
                &&& match usage.get("total_tokens"@) {
                    Some(JsonValue::Int(given)) => if i64::MIN <= given <= i64::MAX {
                        total == given
                    } else {
                        total == sum || total == sum - range || total == sum + range
                    },
                    _ => total == sum || total == sum - range || total == sum + range,
                }
            }
        }),
{
    lemma_usage_members(usage);
    reveal_strlit("input_tokens");
    reveal_strlit("input_tokens_details");
    reveal_strlit("output_tokens");
    reveal_strlit("output_tokens_details");
    reveal_strlit("total_tokens");
    assert("input_tokens"@.len() == 12 && "input_tokens_details"@.len() == 20
        && "output_tokens"@.len() == 13 && "output_tokens_details"@.len() == 21
        && "total_tokens"@.len() == 12);
    assert("input_tokens"@[0] == 'i' && "total_tokens"@[0] == 't');
}

/// A body that begins like a stream is read as one, any other as a whole.
pub proof fn law_streams_are_read_as_streams(body: Seq<char>)
    ensures
        sse::sse_like(body) ==> body_outcome(body) == response::streaming_outcome(body),
        !sse::sse_like(body) ==> body_outcome(body) == response::unary_outcome(body),
{
}

/// Events are written under their names, each with its data as JSON, one behind the other.
pub proof fn law_events_are_written_as_json(events: Seq<Event>, name: Seq<char>, data: JsonValue)
    ensures
        written(Seq::empty()).len() == 0,
        written(events.push((name, data))) == written(events).push((name, json::json_text(data))),
        texts_of(events.push((name, data))) == texts_of(events).push(json::json_text(data)),
        data_of(events.push((name, data))) == data_of(events).push(data),
{
    assert(written(events.push((name, data))) =~= written(events).push(
        (name, json::json_text(data)),
    ));
    assert(texts_of(events.push((name, data))) =~= texts_of(events).push(json::json_text(data)));
    assert(data_of(events.push((name, data))) =~= data_of(events).push(data));
}

} // verus!
