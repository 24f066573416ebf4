//! Replies of the Chat Completions API: whole, or as a stream of chunks.

use std::collections::BTreeMap;

use vstd::prelude::*;

use crate::config;
use crate::content;
use crate::error::{BridgeError, ErrorValue};
use crate::json;
use crate::json::{Json, JsonValue};
use crate::sse;
use crate::text;
use crate::tools;

verus! {

/// A call of a function by a model.
#[derive(Debug, PartialEq, Eq)]
pub struct ChatToolCall {
    pub id: Option<String>,
    pub name: String,
    pub arguments: String,
}

/// What a model replied.
#[derive(Debug)]
pub struct ChatCompletionOutput {
    pub id: Option<String>,
    pub model: Option<String>,
    pub content: String,
    pub tool_calls: Vec<ChatToolCall>,
    pub usage: Option<Json>,
}

/// What is known so far of a call that comes in pieces.
#[derive(Debug)]
pub struct PartialToolCall {
    pub id: Option<String>,
    pub name: Option<String>,
    pub arguments: String,
}

/// What is known so far of a reply that comes in chunks.
#[derive(Debug)]
pub struct ChatStream {
    pub id: Option<String>,
    pub model: Option<String>,
    pub content: String,
    pub usage: Option<Json>,
    pub partial_tool_calls: BTreeMap<u64, PartialToolCall>,
}

// ---------------------------------------------------------------------------------------------
// Meaning
// ---------------------------------------------------------------------------------------------

/// What a call of a function means.
pub struct CallValue {
    pub id: Option<Seq<char>>,
    pub name: Seq<char>,
    pub arguments: Seq<char>,
}

/// What a reply means.
pub struct OutputValue {
    pub id: Option<Seq<char>>,
    pub model: Option<Seq<char>>,
    pub content: Seq<char>,
    pub tool_calls: Seq<CallValue>,
    pub usage: Option<JsonValue>,
}

/// What a call in pieces means.
pub struct PartialValue {
    pub id: Option<Seq<char>>,
    pub name: Option<Seq<char>>,
    pub arguments: Seq<char>,
}

/// What a reply in chunks means.
pub struct StreamValue {
    pub id: Option<Seq<char>>,
    pub model: Option<Seq<char>>,
    pub content: Seq<char>,
    pub usage: Option<JsonValue>,
    pub partials: Map<u64, PartialValue>,
}

/// A value, where there is one.
pub open spec fn some_json(given: Option<Json>) -> Option<JsonValue> {
    match given {
        Some(given) => Some(given@),
        None => None,
    }
}

/// The meaning of each call.
pub open spec fn calls_view(calls: Seq<ChatToolCall>) -> Seq<CallValue> {
    calls.map_values(|call: ChatToolCall| call@)
}

/// The meaning of each call in pieces.
pub open spec fn partials_view(partials: Map<u64, PartialToolCall>) -> Map<u64, PartialValue> {
    partials.map_values(|partial: PartialToolCall| partial@)
}

impl View for ChatToolCall {
    type V = CallValue;

    open spec fn view(&self) -> CallValue {
        CallValue {
            id: config::some_text(self.id),
            name: self.name@,
            arguments: self.arguments@,
        }
    }
}

impl View for ChatCompletionOutput {
    type V = OutputValue;

    open spec fn view(&self) -> OutputValue {
        OutputValue {
            id: config::some_text(self.id),
            model: config::some_text(self.model),
            content: self.content@,
            tool_calls: calls_view(self.tool_calls@),
            usage: some_json(self.usage),
        }
    }
}

impl View for PartialToolCall {
    type V = PartialValue;

    open spec fn view(&self) -> PartialValue {
        PartialValue {
            id: config::some_text(self.id),
            name: config::some_text(self.name),
            arguments: self.arguments@,
        }
    }
}

impl View for ChatStream {
    type V = StreamValue;

    open spec fn view(&self) -> StreamValue {
        StreamValue {
            id: config::some_text(self.id),
            model: config::some_text(self.model),
            content: self.content@,
            usage: some_json(self.usage),
            partials: partials_view(self.partial_tool_calls@),
        }
    }
}

/// A reply that says nothing.
pub open spec fn empty_output() -> OutputValue {
    OutputValue {
        id: None,
        model: None,
        content: Seq::empty(),
        tool_calls: Seq::empty(),
        usage: None,
    }
}

impl Clone for ChatToolCall {
    fn clone(&self) -> (copy: Self)
        ensures
            copy@ == self@,
    {
        let id = match &self.id {
            Some(id) => Some(id.clone()),
            None => None,
        };
        ChatToolCall { id, name: self.name.clone(), arguments: self.arguments.clone() }
    }
}

impl Default for ChatCompletionOutput {
    fn default() -> (output: Self)
        ensures
            output@ == empty_output(),
    {
        let output = ChatCompletionOutput {
            id: None,
            model: None,
            content: String::new(),
            tool_calls: Vec::new(),
            usage: None,
        };
        assert(calls_view(output.tool_calls@) =~= Seq::empty());
        output
    }
}

// ---------------------------------------------------------------------------------------------
// Whole replies
// ---------------------------------------------------------------------------------------------

/// A member of an object under one key, else the one under another.
pub open spec fn get_either(value: JsonValue, key: Seq<char>, other: Seq<char>) -> Option<
    JsonValue,
> {
    match value.get(key) {
        Some(member) => Some(member),
        None => value.get(other),
    }
}

/// The first choice of a reply.
pub open spec fn first_choice(reply: JsonValue) -> Option<JsonValue> {
    match reply.get_array("choices"@) {
        Some(choices) => if choices.len() > 0 {
            Some(choices[0])
        } else {
            None
        },
        None => None,
    }
}

/// The message of a choice.
pub open spec fn choice_message(choice: JsonValue) -> Option<JsonValue> {
    get_either(choice, "message"@, "delta"@)
}

/// The calls that a message lists, under either of two keys.
pub open spec fn listed_calls(message: JsonValue) -> Option<Seq<JsonValue>> {
    match get_either(message, "tool_calls"@, "toolCalls"@) {
        Some(calls) => calls.as_array(),
        None => None,
    }
}

/// The call that a listed call is. One without a function, or without a name, is none.
pub open spec fn whole_call(tool_call: JsonValue) -> Option<CallValue> {
    match tool_call.get("function"@) {
        Some(function) => match function.get_str("name"@) {
            Some(name) => Some(
                CallValue {
                    id: tool_call.get_str("id"@),
                    name,
                    arguments: match function.get("arguments"@) {
                        Some(arguments) => content::arguments_text(arguments),
                        None => "{}"@,
                    },
                },
            ),
            None => None,
        },
        None => None,
    }
}

/// The calls of a message.
pub open spec fn message_calls(message: JsonValue) -> Seq<CallValue> {
    match listed_calls(message) {
        Some(calls) => text::kept(calls, |call: JsonValue| whole_call(call)),
        None => Seq::empty(),
    }
}

/// The text of a message.
pub open spec fn message_text(message: JsonValue) -> Seq<char> {
    match message.get("content"@) {
        Some(content) => content::content_text(content),
        None => Seq::empty(),
    }
}

/// What a whole reply means, with the message of its first choice.
pub open spec fn reply_output(reply: JsonValue, message: JsonValue) -> OutputValue {
    OutputValue {
        id: reply.get_str("id"@),
        model: reply.get_str("model"@),
        content: message_text(message),
        tool_calls: message_calls(message),
        usage: reply.get("usage"@),
    }
}

/// What a whole reply is read as: what it means, or an error.
pub open spec fn reply_outcome(reply: JsonValue) -> Result<OutputValue, ErrorValue> {
    match first_choice(reply) {
        None => Err(ErrorValue::MissingChoice),
        Some(choice) => match choice_message(choice) {
            None => Err(ErrorValue::MissingMessage),
            Some(message) => Ok(reply_output(reply, message)),
        },
    }
}

/// What the body of a whole reply is read as.
pub open spec fn unary_outcome(body: Seq<char>) -> Result<OutputValue, ErrorValue> {
    match json::json_of_text(body) {
        Some(reply) => reply_outcome(reply),
        None => Err(ErrorValue::ReplyNotJson),
    }
}

/// The meaning of what a reply was read as.
pub open spec fn read_view(read: Result<ChatCompletionOutput, BridgeError>) -> Result<
    OutputValue,
    ErrorValue,
> {
    match read {
        Ok(output) => Ok(output@),
        Err(error) => Err(error@),
    }
}

/// Gives a copy of a text, where there is one.
fn owned_text(given: Option<&str>) -> (copy: Option<String>)
    ensures
        match given {
            Some(given) => copy matches Some(copy) && copy@ == given@,
            None => copy is None,
        },
{
    match given {
        Some(given) => Some(given.to_owned()),
        None => None,
    }
}

/// Gives a copy of a value, where there is one.
fn owned_json(given: Option<&Json>) -> (copy: Option<Json>)
    ensures
        match given {
            Some(given) => copy matches Some(copy) && copy@ == given@,
            None => copy is None,
        },
{
    match given {
        Some(given) => Some(given.clone()),
        None => None,
    }
}

/// Gives a member of an object under one key, else the one under another.
pub(crate) fn member_under<'a>(value: &'a Json, key: &str, other: &str) -> (member: Option<&'a Json>)
    ensures
        match member {
            Some(member) => get_either(value@, key@, other@) == Some(member@),
            None => get_either(value@, key@, other@) is None,
        },
{
    match value.get(key) {
        Some(member) => Some(member),
        None => value.get(other),
    }
}

/// Gives the calls that a message lists.
fn calls_listed_in<'a>(message: &'a Json) -> (calls: Option<&'a Vec<Json>>)
    ensures
        match calls {
            Some(calls) => listed_calls(message@) == Some(json::items_value(calls@)),
            None => listed_calls(message@) is None,
        },
{
    match member_under(message, "tool_calls", "toolCalls") {
        Some(calls) => calls.as_array(),
        None => None,
    }
}

/// Gives the call that a listed call is.
fn call_of(tool_call: &Json) -> (call: Option<ChatToolCall>)
    ensures
        match call {
            Some(call) => whole_call(tool_call@) == Some(call@),
            None => whole_call(tool_call@) is None,
        },
{
    let function = match tool_call.get("function") {
        Some(function) => function,
        None => {
            return None;
        },
    };
    let name = match function.get_str("name") {
        Some(name) => name,
        None => {
            return None;
        },
    };
    let arguments = match function.get("arguments") {
        Some(arguments) => content::arguments_to_string(arguments),
        None => "{}".to_owned(),
    };
    Some(
        ChatToolCall {
            id: owned_text(tool_call.get_str("id")),
            name: name.to_owned(),
            arguments,
        },
    )
}

/// Gives the calls of a message.
pub fn extract_tool_calls(message: &Json) -> (found: Vec<ChatToolCall>)
    ensures
        calls_view(found@) == message_calls(message@),
{
    let mut found: Vec<ChatToolCall> = Vec::new();
    assert(calls_view(found@) =~= Seq::empty());
    if let Some(calls) = calls_listed_in(message) {
        let ghost values = json::items_value(calls@);
        let ghost choice = |call: JsonValue| whole_call(call);
        for i in 0..calls.len()
            invariant
                values == json::items_value(calls@),
                choice == (|call: JsonValue| whole_call(call)),
                calls_view(found@) == text::kept(values.take(i as int), choice),
        {
            let ghost before = calls_view(found@);
            proof {
                text::lemma_kept_one_more(values, choice, i as int);
            }
            if let Some(call) = call_of(&calls[i]) {
                found.push(call);
                assert(calls_view(found@) =~= before.push(call@));
            }
        }
        assert(values.take(calls@.len() as int) =~= values);
    }
    found
}

/// Gives what a whole reply means, whose body was read as the value given.
pub fn output_of_reply(value: &Json) -> (read: Result<ChatCompletionOutput, BridgeError>)
    ensures
        read_view(read) == reply_outcome(value@),
{
    let choices = match value.get_array("choices") {
        Some(choices) => choices,
        None => {
            return Err(BridgeError::MissingChoice);
        },
    };
    assert(json::items_value(choices@).len() == choices@.len());
    if choices.is_empty() {
        return Err(BridgeError::MissingChoice);
    }
    let message = match member_under(&choices[0], "message", "delta") {
        Some(message) => message,
        None => {
            return Err(BridgeError::MissingMessage);
        },
    };
    let content = match message.get("content") {
        Some(content) => content::content_items_to_text(content),
        None => String::new(),
    };
    Ok(
        ChatCompletionOutput {
            id: owned_text(value.get_str("id")),
            model: owned_text(value.get_str("model")),
            content,
            tool_calls: extract_tool_calls(message),
            usage: owned_json(value.get("usage")),
        },
    )
}

/// Reads a whole reply.
pub fn parse_unary_chat_completion(body: &str) -> (read: Result<ChatCompletionOutput, BridgeError>)
    ensures
        read_view(read) == unary_outcome(body@),
{
    match Json::from_text(body) {
        Some(value) => output_of_reply(&value),
        None => Err(BridgeError::ReplyNotJson),
    }
}

// ---------------------------------------------------------------------------------------------
// Replies in chunks
// ---------------------------------------------------------------------------------------------

/// A call of which nothing is known yet.
pub open spec fn no_call() -> PartialValue {
    PartialValue { id: None, name: None, arguments: Seq::empty() }
}

/// What is known so far of the call with the given index.
pub open spec fn partial_at(partials: Map<u64, PartialValue>, index: u64) -> PartialValue {
    if partials.contains_key(index) {
        partials[index]
    } else {
        no_call()
    }
}

/// The index of the call that a piece belongs to: the one it names, else its place in the list.
pub open spec fn call_index(piece: JsonValue, place: int) -> u64 {
    match piece.get("index"@) {
        Some(index) => match index.as_u64() {
            Some(index) => index,
            None => place as u64,
        },
        None => place as u64,
    }
}

/// The name that a piece of a call gives.
pub open spec fn piece_name(piece: JsonValue) -> Option<Seq<char>> {
    match piece.get("function"@) {
        Some(function) => function.get_str("name"@),
        None => None,
    }
}

/// The arguments that a piece of a call gives.
pub open spec fn piece_arguments(piece: JsonValue) -> Seq<char> {
    match piece.get("function"@) {
        Some(function) => match function.get("arguments"@) {
            Some(arguments) => content::arguments_text(arguments),
            None => Seq::empty(),
        },
        None => Seq::empty(),
    }
}

/// The later of two texts, where there is one.
pub open spec fn later(first: Option<Seq<char>>, second: Option<Seq<char>>) -> Option<Seq<char>> {
    match second {
        Some(text) => Some(text),
        None => first,
    }
}

/// What is known of a call after one more piece of it: the last identifier and the last name that
/// were given, and all arguments one after the other.
pub open spec fn extended(partial: PartialValue, piece: JsonValue) -> PartialValue {
    PartialValue {
        id: later(partial.id, piece.get_str("id"@)),
        name: later(partial.name, piece_name(piece)),
        arguments: partial.arguments + piece_arguments(piece),
    }
}

/// What is known of all calls after a list of pieces.
pub open spec fn merge_pieces(partials: Map<u64, PartialValue>, pieces: Seq<JsonValue>) -> Map<
    u64,
    PartialValue,
>
    decreases pieces.len(),
{
    if pieces.len() == 0 {
        partials
    } else {
        let before = merge_pieces(partials, pieces.drop_last());
        let index = call_index(pieces.last(), pieces.len() - 1);
        before.insert(index, extended(partial_at(before, index), pieces.last()))
    }
}

/// What is known of all calls after the pieces that a delta lists.
pub open spec fn merge_delta(partials: Map<u64, PartialValue>, delta: JsonValue) -> Map<
    u64,
    PartialValue,
> {
    match listed_calls(delta) {
        Some(pieces) => merge_pieces(partials, pieces),
        None => partials,
    }
}

/// What a choice in a chunk adds to the reply.
pub open spec fn choice_delta(choice: JsonValue) -> Option<JsonValue> {
    get_either(choice, "delta"@, "message"@)
}

/// The deltas of a chunk.
pub open spec fn chunk_deltas(chunk: JsonValue) -> Seq<JsonValue> {
    match chunk.get_array("choices"@) {
        Some(choices) => text::kept(choices, |choice: JsonValue| choice_delta(choice)),
        None => Seq::empty(),
    }
}

/// The text that a delta adds. Content that is no string adds none.
pub open spec fn delta_text(delta: JsonValue) -> Seq<char> {
    tools::text_or(delta.get_str("content"@), Seq::empty())
}

/// A reply after one more delta.
pub open spec fn after_delta(stream: StreamValue, delta: JsonValue) -> StreamValue {
    StreamValue {
        content: stream.content + delta_text(delta),
        partials: merge_delta(stream.partials, delta),
        ..stream
    }
}

/// A reply after more deltas.
pub open spec fn after_deltas(stream: StreamValue, deltas: Seq<JsonValue>) -> StreamValue
    decreases deltas.len(),
{
    if deltas.len() == 0 {
        stream
    } else {
        after_delta(after_deltas(stream, deltas.drop_last()), deltas.last())
    }
}

/// The earlier of two texts, where there is one.
pub open spec fn earlier(first: Option<Seq<char>>, second: Option<Seq<char>>) -> Option<Seq<char>> {
    match first {
        Some(text) => Some(text),
        None => second,
    }
}

/// The later of two values, where there is one.
pub open spec fn later_value(first: Option<JsonValue>, second: Option<JsonValue>) -> Option<
    JsonValue,
> {
    match second {
        Some(value) => Some(value),
        None => first,
    }
}

/// A reply after one more chunk: the first identifier and model that were given, the last usage,
/// and what the deltas add.
pub open spec fn after_chunk(stream: StreamValue, chunk: JsonValue) -> StreamValue {
    after_deltas(
        StreamValue {
            id: earlier(stream.id, chunk.get_str("id"@)),
            model: earlier(stream.model, chunk.get_str("model"@)),
            usage: later_value(stream.usage, chunk.get("usage"@)),
            ..stream
        },
        chunk_deltas(chunk),
    )
}

/// A reply of which nothing came yet.
pub open spec fn no_stream() -> StreamValue {
    StreamValue {
        id: None,
        model: None,
        content: Seq::empty(),
        usage: None,
        partials: Map::empty(),
    }
}

/// A reply after all chunks.
pub open spec fn after_chunks(chunks: Seq<JsonValue>) -> StreamValue
    decreases chunks.len(),
{
    if chunks.len() == 0 {
        no_stream()
    } else {
        after_chunk(after_chunks(chunks.drop_last()), chunks.last())
    }
}

/// The members of a set that lie below a bound, in ascending order.
pub open spec fn ascending_below(keys: Set<u64>, bound: nat) -> Seq<u64>
    decreases bound,
{
    if bound == 0 {
        Seq::empty()
    } else {
        let before = ascending_below(keys, (bound - 1) as nat);
        if bound <= 0x1_0000_0000_0000_0000 && keys.contains((bound - 1) as u64) {
            before.push((bound - 1) as u64)
        } else {
            before
        }
    }
}

/// The members of a set in ascending order.
pub open spec fn ascending(keys: Set<u64>) -> Seq<u64> {
    ascending_below(keys, 0x1_0000_0000_0000_0000)
}

/// The call that a call in pieces is, once no more pieces come. One without a name is none; one
/// without arguments has empty ones.
pub open spec fn finished_call(partial: PartialValue) -> Option<CallValue> {
    match partial.name {
        Some(name) => Some(
            CallValue {
                id: partial.id,
                name,
                arguments: if partial.arguments.len() == 0 {
                    "{}"@
                } else {
                    partial.arguments
                },
            },
        ),
        None => None,
    }
}

/// The calls in the order of their indices.
pub open spec fn finished_calls(partials: Map<u64, PartialValue>) -> Seq<CallValue> {
    text::kept(ascending(partials.dom()), |index: u64| finished_call(partials[index]))
}

/// What a reply in chunks means, once no more chunks come.
pub open spec fn finished(stream: StreamValue) -> OutputValue {
    OutputValue {
        id: stream.id,
        model: stream.model,
        content: stream.content,
        tool_calls: finished_calls(stream.partials),
        usage: stream.usage,
    }
}

/// The chunks that the data of a stream's events are. An end mark is no chunk. An error is the
/// first data that is no JSON.
pub open spec fn chunks_of(messages: Seq<Seq<char>>) -> Result<Seq<JsonValue>, Seq<char>>
    decreases messages.len(),
{
    if messages.len() == 0 {
        Ok(Seq::empty())
    } else {
        match chunks_of(messages.drop_last()) {
            Err(data) => Err(data),
            Ok(before) => if messages.last() == "[DONE]"@ {
                Ok(before)
            } else {
                match json::json_of_text(messages.last()) {
                    Some(chunk) => Ok(before.push(chunk)),
                    None => Err(messages.last()),
                }
            },
        }
    }
}

/// What the body of a reply in chunks is read as.
pub open spec fn streaming_outcome(body: Seq<char>) -> Result<OutputValue, ErrorValue> {
    match chunks_of(sse::data_messages(body)) {
        Ok(chunks) => Ok(finished(after_chunks(chunks))),
        Err(data) => Err(ErrorValue::ChunkNotJson(data)),
    }
}

/// Adds a piece to a call.
fn extend_call(partial: &mut PartialToolCall, piece: &Json)
    ensures
        final(partial)@ == extended(old(partial)@, piece@),
{
    if let Some(id) = piece.get_str("id") {
        partial.id = Some(id.to_owned());
    }
    if let Some(function) = piece.get("function") {
        if let Some(name) = function.get_str("name") {
            partial.name = Some(name.to_owned());
        }
        if let Some(arguments) = function.get("arguments") {
            partial.arguments.push_str(content::arguments_to_string(arguments).as_str());
        }
    }
    assert(partial@.arguments =~= old(partial)@.arguments + piece_arguments(piece@));
}

/// Adds the pieces that a delta lists to the calls that they belong to.
pub fn merge_tool_call_deltas(
    delta: &Json,
    partial_tool_calls: &mut BTreeMap<u64, PartialToolCall>,
)
    ensures
        partials_view(final(partial_tool_calls)@) == merge_delta(
            partials_view(old(partial_tool_calls)@),
            delta@,
        ),
{
    broadcast use vstd::std_specs::btree::group_btree_axioms;

    let pieces = match calls_listed_in(delta) {
        Some(pieces) => pieces,
        None => {
            return;
        },
    };
    let ghost given = partials_view(partial_tool_calls@);
    let ghost values = json::items_value(pieces@);
    for i in 0..pieces.len()
        invariant
            values == json::items_value(pieces@),
            partials_view(partial_tool_calls@) == merge_pieces(given, values.take(i as int)),
    {
        let ghost before = partials_view(partial_tool_calls@);
        let ghost raw = partial_tool_calls@;
        assert(values.take(i + 1).drop_last() =~= values.take(i as int));
        let piece = &pieces[i];
        let named = match piece.get("index") {
            Some(index) => index.as_u64(),
            None => None,
        };
        let index: u64 = match named {
            Some(index) => index,
            None => i as u64,
        };
        let mut partial = match partial_tool_calls.remove(&index) {
            Some(partial) => partial,
            None => PartialToolCall { id: None, name: None, arguments: String::new() },
        };
        assert(partial@ == partial_at(before, index));
        extend_call(&mut partial, piece);
        partial_tool_calls.insert(index, partial);
        assert(partials_view(partial_tool_calls@) =~= before.insert(index, partial@));
    }
    assert(values.take(pieces@.len() as int) =~= values);
}

/// What comes in ascending order.
spec fn strictly_ascending(keys: Seq<u64>) -> bool {
    forall|i: int, j: int| 0 <= i < j < keys.len() ==> #[trigger] keys[i] < #[trigger] keys[j]
}

/// The members of a set in ascending order are in ascending order, and are all its members.
proof fn lemma_ascending_below(keys: Set<u64>, bound: nat)
    ensures
        strictly_ascending(ascending_below(keys, bound)),
        forall|key: u64| #[trigger]
            ascending_below(keys, bound).contains(key) <==> keys.contains(key) && key < bound,
    decreases bound,
{
    if bound > 0 {
        let before = ascending_below(keys, (bound - 1) as nat);
        let all = ascending_below(keys, bound);
        lemma_ascending_below(keys, (bound - 1) as nat);
        assert forall|i: int| 0 <= i < before.len() implies #[trigger] before[i] < bound - 1 by {
            assert(before.contains(before[i]));
        }
        assert forall|key: u64| #[trigger] all.contains(key) <==> keys.contains(key) && key
            < bound by {
            assert(before.contains(key) <==> keys.contains(key) && key < bound - 1);
            if keys.contains(key) && key < bound {
                if key == bound - 1 {
                    assert(all.last() == key);
                } else {
                    let i = choose|i: int| 0 <= i < before.len() && before[i] == key;
                    assert(all[i] == key);
                }
            }
            if all.contains(key) {
                let i = choose|i: int| 0 <= i < all.len() && all[i] == key;
                if i < before.len() {
                    assert(before[i] == key);
                }
            }
        }
    }
}

/// There is one ascending order of the same members.
proof fn lemma_one_ascending_order(a: Seq<u64>, b: Seq<u64>)
    requires
        strictly_ascending(a),
        strictly_ascending(b),
        forall|key: u64| #[trigger] a.contains(key) <==> b.contains(key),
    ensures
        a == b,
    decreases a.len(),
{
    if a.len() == 0 {
        if b.len() > 0 {
            assert(b.contains(b[0]));
            assert(a.contains(b[0]));
        }
        assert(a =~= b);
    } else {
        assert(a.contains(a.last()));
        assert(b.contains(a.last()));
        assert(b.contains(b.last()));
        assert(a.contains(b.last()));
        assert(a.last() == b.last());
        let (c, d) = (a.drop_last(), b.drop_last());
        assert forall|key: u64| #[trigger] c.contains(key) <==> d.contains(key) by {
            if c.contains(key) {
                let i = choose|i: int| 0 <= i < c.len() && c[i] == key;
                assert(a[i] == key && key < a.last());
                assert(a.contains(key));
                let j = choose|j: int| 0 <= j < b.len() && b[j] == key;
                assert(d[j] == key);
            }
            if d.contains(key) {
                let i = choose|i: int| 0 <= i < d.len() && d[i] == key;
                assert(b[i] == key && key < b.last());
                assert(b.contains(key));
                assert(a.contains(key));
                let j = choose|j: int| 0 <= j < a.len() && a[j] == key;
                assert(c[j] == key);
            }
        }
        lemma_one_ascending_order(c, d);
        assert(a =~= c.push(a.last()));
        assert(b =~= d.push(b.last()));
    }
}

/// Gives the call that a call in pieces is.
fn finish_call(partial: &PartialToolCall) -> (call: Option<ChatToolCall>)
    ensures
        match call {
            Some(call) => finished_call(partial@) == Some(call@),
            None => finished_call(partial@) is None,
        },
{
    let name = match &partial.name {
        Some(name) => name.clone(),
        None => {
            return None;
        },
    };
    let arguments = if partial.arguments.as_str().is_empty() {
        "{}".to_owned()
    } else {
        partial.arguments.clone()
    };
    let id = match &partial.id {
        Some(id) => Some(id.clone()),
        None => None,
    };
    Some(ChatToolCall { id, name, arguments })
}

/// Keys that increase in the sense of their type come in ascending order.
proof fn lemma_increasing_keys(keys: Seq<u64>)
    requires
        vstd::std_specs::btree::increasing_seq(keys),
    ensures
        strictly_ascending(keys),
{
    broadcast use vstd::std_specs::btree::group_btree_axioms;
    broadcast use vstd::laws_cmp::group_laws_cmp;

    assert forall|i: int, j: int| 0 <= i < j < keys.len() implies #[trigger] keys[i]
        < #[trigger] keys[j] by {
        assert(vstd::std_specs::cmp::OrdSpec::cmp_spec(&keys[i], &keys[j]) is Less);
    }
}

/// The keys of entries.
spec fn keys_of<'a>(entries: Seq<(&'a u64, &'a PartialToolCall)>) -> Seq<u64> {
    entries.map_values(|entry: (&'a u64, &'a PartialToolCall)| *entry.0)
}

/// Gives the calls in the order of their indices.
fn finish_calls(partial_tool_calls: &BTreeMap<u64, PartialToolCall>) -> (found: Vec<ChatToolCall>)
    ensures
        calls_view(found@) == finished_calls(partials_view(partial_tool_calls@)),
{
    broadcast use vstd::std_specs::btree::group_btree_axioms;

    let mut found: Vec<ChatToolCall> = Vec::new();
    let ghost partials = partials_view(partial_tool_calls@);
    let ghost choice = |index: u64| finished_call(partials[index]);
    let iter = partial_tool_calls.iter();
    let ghost entries = vstd::std_specs::iter::IteratorSpec::remaining(&iter);
    let ghost keys = keys_of(entries);
    proof {
        assert(keys =~= entries.map_values(|kv: (&u64, &PartialToolCall)| *kv.0));
        lemma_increasing_keys(keys);
        lemma_ascending_below(partials.dom(), 0x1_0000_0000_0000_0000);
        assert forall|key: u64| #[trigger] keys.contains(key) <==> ascending(
            partials.dom(),
        ).contains(key) by {
            if keys.contains(key) {
                let i = choose|i: int| 0 <= i < keys.len() && keys[i] == key;
                assert(partial_tool_calls@.contains_key(*entries[i].0));
            }
            if partials.dom().contains(key) {
                assert(partial_tool_calls@.contains_key(key));
                let i = choose|i: int|
                    0 <= i < entries.len() && entries[i] == (&key, &partial_tool_calls@[key]);
                assert(keys[i] == key);
            }
        }
        lemma_one_ascending_order(keys, ascending(partials.dom()));
        assert(calls_view(found@) =~= text::kept(keys.take(0), choice));
    }
    for entry in it: iter
        invariant
            it.seq() == entries,
            keys == keys_of(entries),
            partials == partials_view(partial_tool_calls@),
            choice == (|index: u64| finished_call(partials[index])),
            forall|i: int|
                0 <= i < entries.len() ==> partial_tool_calls@.contains_key(
                    *(#[trigger] entries[i]).0,
                ) && partial_tool_calls@[*entries[i].0] == *entries[i].1,
            calls_view(found@) == text::kept(keys.take(it.index() as int), choice),
    {
        let ghost before = calls_view(found@);
        proof {
            text::lemma_kept_one_more(keys, choice, it.index() as int);
            assert(entries[it.index() as int] == entry);
            assert(partials[keys[it.index() as int]] == entry.1@);
        }
        if let Some(call) = finish_call(entry.1) {
            found.push(call);
            assert(calls_view(found@) =~= before.push(call@));
        }
    }
    assert(keys.take(entries.len() as int) =~= keys);
    found
}

impl ChatStream {
    /// A reply of which nothing came yet.
    pub fn new() -> (stream: ChatStream)
        ensures
            stream@ == no_stream(),
    {
        let stream = ChatStream {
            id: None,
            model: None,
            content: String::new(),
            usage: None,
            partial_tool_calls: BTreeMap::new(),
        };
        assert(stream@.partials =~= Map::empty());
        stream
    }

    /// Adds a chunk, whose data was read as the value given.
    pub fn add_chunk(&mut self, value: &Json)
        ensures
            final(self)@ == after_chunk(old(self)@, value@),
    {
        if self.id.is_none() {
            self.id = owned_text(value.get_str("id"));
        }
        if self.model.is_none() {
            self.model = owned_text(value.get_str("model"));
        }
        if let Some(usage) = value.get("usage") {
            self.usage = Some(usage.clone());
        }
        let ghost start = self@;
        if let Some(choices) = value.get_array("choices") {
            let ghost values = json::items_value(choices@);
            let ghost choice = |choice: JsonValue| choice_delta(choice);
            for i in 0..choices.len()
                invariant
                    values == json::items_value(choices@),
                    choice == (|choice: JsonValue| choice_delta(choice)),
                    self@ == after_deltas(start, text::kept(values.take(i as int), choice)),
            {
                let ghost before = self@;
                let ghost deltas = text::kept(values.take(i as int), choice);
                proof {
                    text::lemma_kept_one_more(values, choice, i as int);
                }
                if let Some(delta) = member_under(&choices[i], "delta", "message") {
                    if let Some(content) = delta.get_str("content") {
                        self.content.push_str(content);
                    }
                    assert(self.content@ =~= before.content + delta_text(delta@));
                    merge_tool_call_deltas(delta, &mut self.partial_tool_calls);
                    assert(deltas.push(delta@).drop_last() =~= deltas);
                }
            }
            assert(values.take(choices@.len() as int) =~= values);
        }
    }

    /// Gives what the reply means, once no more chunks come.
    pub fn finish(self) -> (output: ChatCompletionOutput)
        ensures
            output@ == finished(self@),
    {
        let tool_calls = finish_calls(&self.partial_tool_calls);
        ChatCompletionOutput {
            id: self.id,
            model: self.model,
            content: self.content,
            tool_calls,
            usage: self.usage,
        }
    }
}

/// An error stays an error, whatever data comes after it.
proof fn lemma_first_error_counts(messages: Seq<Seq<char>>, n: int)
    requires
        0 <= n <= messages.len(),
        chunks_of(messages.take(n)) is Err,
    ensures
        chunks_of(messages) == chunks_of(messages.take(n)),
    decreases messages.len(),
{
    if n < messages.len() {
        assert(messages.drop_last().take(n) =~= messages.take(n));
        lemma_first_error_counts(messages.drop_last(), n);
    } else {
        assert(messages.take(n) =~= messages);
    }
}

/// Reads a reply in chunks.
pub fn parse_streaming_chat_completion(body: &str) -> (read: Result<
    ChatCompletionOutput,
    BridgeError,
>)
    ensures
        read_view(read) == streaming_outcome(body@),
{
    let messages = sse::sse_data_messages(body);
    let ghost views = text::texts_view(messages@);
    let mut stream = ChatStream::new();
    for i in 0..messages.len()
        invariant
            views == text::texts_view(messages@),
            views == sse::data_messages(body@),
            chunks_of(views.take(i as int)) matches Ok(chunks) && stream@ == after_chunks(chunks),
    {
        let ghost before = chunks_of(views.take(i as int))->Ok_0;
        proof {
            assert(views.take(i + 1).drop_last() =~= views.take(i as int));
            assert(views[i as int] == messages@[i as int]@);
        }
        let data = messages[i].as_str();
        if !text::same_text(data, "[DONE]") {
            match Json::from_text(data) {
                Some(value) => {
                    stream.add_chunk(&value);
                    assert(before.push(value@).drop_last() =~= before);
                },
                None => {
                    proof {
                        lemma_first_error_counts(views, i + 1);
                    }
                    return Err(BridgeError::ChunkNotJson(data.to_owned()));
                },
            }
        }
    }
    assert(views.take(messages@.len() as int) =~= views);
    Ok(stream.finish())
}

// ---------------------------------------------------------------------------------------------
// Laws
// ---------------------------------------------------------------------------------------------

/// The deltas of all chunks, in order.
pub open spec fn all_deltas(chunks: Seq<JsonValue>) -> Seq<JsonValue>
    decreases chunks.len(),
{
    if chunks.len() == 0 {
        Seq::empty()
    } else {
        all_deltas(chunks.drop_last()) + chunk_deltas(chunks.last())
    }
}

/// The text of all deltas, one after the other.
pub open spec fn all_text(deltas: Seq<JsonValue>) -> Seq<char> {
    text::joined(deltas.map_values(|delta: JsonValue| delta_text(delta)), Seq::empty())
}

/// What is known of all calls after all deltas.
pub open spec fn all_partials(deltas: Seq<JsonValue>) -> Map<u64, PartialValue>
    decreases deltas.len(),
{
    if deltas.len() == 0 {
        Map::empty()
    } else {
        merge_delta(all_partials(deltas.drop_last()), deltas.last())
    }
}

/// One more delta adds its text.
proof fn lemma_all_text_more(deltas: Seq<JsonValue>, delta: JsonValue)
    ensures
        all_text(deltas.push(delta)) == all_text(deltas) + delta_text(delta),
{
    let texts = deltas.map_values(|delta: JsonValue| delta_text(delta));
    let more = deltas.push(delta).map_values(|delta: JsonValue| delta_text(delta));
    assert(more =~= texts.push(delta_text(delta)));
    assert(more.drop_last() =~= texts);
    assert(all_text(deltas.push(delta)) =~= all_text(deltas) + delta_text(delta));
}

/// Deltas change nothing but the text and the calls, and change these by what they add.
proof fn lemma_after_deltas(stream: StreamValue, before: Seq<JsonValue>, deltas: Seq<JsonValue>)
    requires
        stream.content == all_text(before),
        stream.partials == all_partials(before),
    ensures
        after_deltas(stream, deltas).id == stream.id,
        after_deltas(stream, deltas).model == stream.model,
        after_deltas(stream, deltas).usage == stream.usage,
        after_deltas(stream, deltas).content == all_text(before + deltas),
        after_deltas(stream, deltas).partials == all_partials(before + deltas),
    decreases deltas.len(),
{
    if deltas.len() == 0 {
        assert(before + deltas =~= before);
    } else {
        lemma_after_deltas(stream, before, deltas.drop_last());
        let so_far = before + deltas.drop_last();
        assert(before + deltas =~= so_far.push(deltas.last()));
        assert((before + deltas).drop_last() =~= so_far);
        lemma_all_text_more(so_far, deltas.last());
    }
}

/// The content of a reply in chunks is the text of all deltas, one after the other, and its calls
/// are what all deltas say of them. Where one chunk ends and the next one begins, and in which
/// chunk a delta stands, does not matter.
pub proof fn law_chunk_boundaries_do_not_matter(chunks: Seq<JsonValue>)
    ensures
        finished(after_chunks(chunks)).content == all_text(all_deltas(chunks)),
        finished(after_chunks(chunks)).tool_calls == finished_calls(
            all_partials(all_deltas(chunks)),
        ),
{
    lemma_chunks(chunks);
}

/// The content and the calls of a reply in chunks come from its deltas alone.
proof fn lemma_chunks(chunks: Seq<JsonValue>)
    ensures
        after_chunks(chunks).content == all_text(all_deltas(chunks)),
        after_chunks(chunks).partials == all_partials(all_deltas(chunks)),
    decreases chunks.len(),
{
    if chunks.len() == 0 {
        assert(Seq::<JsonValue>::empty().map_values(|delta: JsonValue| delta_text(delta))
            =~= Seq::empty());
    } else {
        lemma_chunks(chunks.drop_last());
        let before = after_chunks(chunks.drop_last());
        let chunk = chunks.last();
        lemma_after_deltas(
            StreamValue {
                id: earlier(before.id, chunk.get_str("id"@)),
                model: earlier(before.model, chunk.get_str("model"@)),
                usage: later_value(before.usage, chunk.get("usage"@)),
                ..before
            },
            all_deltas(chunks.drop_last()),
            chunk_deltas(chunk),
        );
    }
}

/// Pieces add calls, and add to the arguments of calls; they take nothing away.
proof fn lemma_pieces_only_add(
    partials: Map<u64, PartialValue>,
    pieces: Seq<JsonValue>,
    index: u64,
)
    requires
        partials.contains_key(index),
    ensures
        merge_pieces(partials, pieces).contains_key(index),
        partials[index].arguments.is_prefix_of(merge_pieces(partials, pieces)[index].arguments),
        partials[index].name is Some ==> merge_pieces(partials, pieces)[index].name is Some,
    decreases pieces.len(),
{
    let given = partials[index].arguments;
    if pieces.len() == 0 {
        assert(given.subrange(0, given.len() as int) =~= given);
    } else {
        lemma_pieces_only_add(partials, pieces.drop_last(), index);
        let before = merge_pieces(partials, pieces.drop_last())[index].arguments;
        let after = merge_pieces(partials, pieces)[index].arguments;
        assert(after.subrange(0, given.len() as int) =~= before.subrange(0, given.len() as int));
    }
}

/// Deltas add to the text and to the calls, and leave the rest as it is.
proof fn lemma_deltas_only_add(stream: StreamValue, deltas: Seq<JsonValue>)
    ensures
        after_deltas(stream, deltas).id == stream.id,
        after_deltas(stream, deltas).model == stream.model,
        after_deltas(stream, deltas).usage == stream.usage,
        stream.content.is_prefix_of(after_deltas(stream, deltas).content),
        forall|index: u64| #[trigger]
            stream.partials.contains_key(index) ==> {
                let now = after_deltas(stream, deltas).partials;
                &&& now.contains_key(index)
                &&& stream.partials[index].arguments.is_prefix_of(now[index].arguments)
                &&& stream.partials[index].name is Some ==> now[index].name is Some
            },
    decreases deltas.len(),
{
    let given = stream.content;
    if deltas.len() == 0 {
        assert(given.subrange(0, given.len() as int) =~= given);
        assert forall|index: u64| #[trigger] stream.partials.contains_key(index) implies ({
            let now = stream.partials;
            stream.partials[index].arguments.is_prefix_of(now[index].arguments)
        }) by {
            let arguments = stream.partials[index].arguments;
            assert(arguments.subrange(0, arguments.len() as int) =~= arguments);
        }
    } else {
        lemma_deltas_only_add(stream, deltas.drop_last());
        let before = after_deltas(stream, deltas.drop_last());
        let after = after_deltas(stream, deltas);
        assert(after.content.subrange(0, given.len() as int) =~= before.content.subrange(
            0,
            given.len() as int,
        ));
        assert forall|index: u64| #[trigger] stream.partials.contains_key(index) implies {
            &&& after.partials.contains_key(index)
            &&& stream.partials[index].arguments.is_prefix_of(after.partials[index].arguments)
            &&& stream.partials[index].name is Some ==> after.partials[index].name is Some
        } by {
            let first = stream.partials[index].arguments;
            let middle = before.partials[index].arguments;
            match listed_calls(deltas.last()) {
                Some(pieces) => lemma_pieces_only_add(before.partials, pieces, index),
                None => {
                    assert(middle.subrange(0, middle.len() as int) =~= middle);
                },
            }
            let last = after.partials[index].arguments;
            assert(last.subrange(0, first.len() as int) =~= last.subrange(
                0,
                middle.len() as int,
            ).subrange(0, first.len() as int));
        }
    }
}

/// A reply in chunks only grows: the identifier and the model stay once they were given, later
/// text comes behind earlier text, no call goes away or loses its name, and later arguments of a
/// call come behind earlier ones.
pub proof fn law_reply_only_grows(chunks: Seq<JsonValue>, chunk: JsonValue)
    ensures
        ({
            let before = after_chunks(chunks);
            let after = after_chunks(chunks.push(chunk));
            &&& before.id is Some ==> after.id == before.id
            &&& before.model is Some ==> after.model == before.model
            &&& before.usage is Some ==> after.usage is Some
            &&& before.content.is_prefix_of(after.content)
            &&& forall|index: u64| #[trigger]
                before.partials.contains_key(index) ==> {
                    &&& after.partials.contains_key(index)
                    &&& before.partials[index].arguments.is_prefix_of(
                        after.partials[index].arguments,
                    )
                    &&& before.partials[index].name is Some ==> after.partials[index].name is Some
                }
        }),
{
    assert(chunks.push(chunk).drop_last() =~= chunks);
    let before = after_chunks(chunks);
    let start = StreamValue {
        id: earlier(before.id, chunk.get_str("id"@)),
        model: earlier(before.model, chunk.get_str("model"@)),
        usage: later_value(before.usage, chunk.get("usage"@)),
        ..before
    };
    lemma_deltas_only_add(start, chunk_deltas(chunk));
}

/// No call of a reply in chunks has empty arguments.
pub proof fn law_streamed_calls_have_arguments(partials: Map<u64, PartialValue>, i: int)
    requires
        0 <= i < finished_calls(partials).len(),
    ensures
        finished_calls(partials)[i].arguments.len() > 0,
{
    lemma_kept_calls_have_arguments(ascending(partials.dom()), partials, i);
}

/// No call that is kept of some indices has empty arguments.
proof fn lemma_kept_calls_have_arguments(
    indices: Seq<u64>,
    partials: Map<u64, PartialValue>,
    i: int,
)
    requires
        0 <= i < text::kept(indices, |index: u64| finished_call(partials[index])).len(),
    ensures
        text::kept(indices, |index: u64| finished_call(partials[index]))[i].arguments.len() > 0,
    decreases indices.len(),
{
    reveal_strlit("{}");
    let choice = |index: u64| finished_call(partials[index]);
    let before = text::kept(indices.drop_last(), choice);
    if i < before.len() {
        lemma_kept_calls_have_arguments(indices.drop_last(), partials, i);
    } else {
        assert(choice(indices.last()) == finished_call(partials[indices.last()]));
    }
}

/// Whether a call does not say that its arguments are empty.
pub open spec fn no_empty_arguments(call: JsonValue) -> bool {
    call.get("function"@) matches Some(function) ==> (function.get("arguments"@) matches Some(
        arguments,
    ) ==> content::arguments_text(arguments).len() > 0)
}

/// Whether calls are listed one by one and whole: none says which index it has, and none says
/// that its arguments are empty.
pub open spec fn listed_whole(calls: Seq<JsonValue>) -> bool {
    &&& calls.len() <= 0x1_0000_0000_0000_0000
    &&& forall|i: int|
        0 <= i < calls.len() ==> (#[trigger] calls[i]).get("index"@) is None && no_empty_arguments(
            calls[i],
        )
}

/// Calls that are listed whole keep the places at which they are listed.
proof fn lemma_merge_whole_calls(calls: Seq<JsonValue>)
    requires
        listed_whole(calls),
    ensures
        forall|index: u64| #[trigger]
            merge_pieces(Map::empty(), calls).contains_key(index) <==> index < calls.len(),
        forall|i: int|
            0 <= i < calls.len() ==> merge_pieces(Map::empty(), calls)[i as u64] == extended(
                no_call(),
                #[trigger] calls[i],
            ),
    decreases calls.len(),
{
    if calls.len() > 0 {
        let before = calls.drop_last();
        assert forall|i: int| 0 <= i < before.len() implies (#[trigger] before[i]).get("index"@)
            is None && no_empty_arguments(before[i]) by {
            assert(before[i] == calls[i]);
        }
        lemma_merge_whole_calls(before);
        let last = calls.len() - 1;
        assert(calls[last].get("index"@) is None);
        assert(call_index(calls.last(), last) == last as u64);
        assert forall|i: int| 0 <= i < calls.len() implies merge_pieces(Map::empty(), calls)[i
            as u64] == extended(no_call(), #[trigger] calls[i]) by {
            if i < last {
                assert(before[i] == calls[i]);
            }
        }
    }
}

/// The places below a bound are in ascending order.
proof fn lemma_ascending_places(keys: Set<u64>, n: nat, bound: nat)
    requires
        n <= bound <= 0x1_0000_0000_0000_0000,
        forall|key: u64| #[trigger] keys.contains(key) <==> key < n,
    ensures
        ascending_below(keys, bound) == Seq::new(n, |i: int| i as u64),
    decreases bound,
{
    if bound > n {
        lemma_ascending_places(keys, n, (bound - 1) as nat);
        assert(!keys.contains((bound - 1) as u64));
    } else if n > 0 {
        let fewer = keys.remove((n - 1) as u64);
        lemma_ascending_places(fewer, (n - 1) as nat, (n - 1) as nat);
        lemma_same_below(keys, fewer, (n - 1) as nat);
        assert(keys.contains((n - 1) as u64));
        assert(ascending_below(keys, bound) =~= Seq::new(n, |i: int| i as u64));
    } else {
        assert(ascending_below(keys, bound) =~= Seq::new(n, |i: int| i as u64));
    }
}

/// Sets with the same members below a bound have the same ascending order there.
proof fn lemma_same_below(keys: Set<u64>, others: Set<u64>, bound: nat)
    requires
        bound <= 0x1_0000_0000_0000_0000,
        forall|key: u64| key < bound ==> (#[trigger] keys.contains(key) <==> others.contains(key)),
    ensures
        ascending_below(keys, bound) == ascending_below(others, bound),
    decreases bound,
{
    if bound > 0 {
        lemma_same_below(keys, others, (bound - 1) as nat);
        assert(keys.contains((bound - 1) as u64) <==> others.contains((bound - 1) as u64));
    }
}

/// Whether what is known of a call in pieces is what a whole call says.
pub open spec fn makes_up(partial: PartialValue, call: JsonValue) -> bool {
    &&& partial.id == call.get_str("id"@)
    &&& partial.name == piece_name(call)
    &&& partial.arguments == piece_arguments(call)
}

/// Calls whose pieces make up whole calls are these calls, in the order of their places.
proof fn lemma_made_up_calls(calls: Seq<JsonValue>, partials: Map<u64, PartialValue>)
    requires
        calls.len() <= 0x1_0000_0000_0000_0000,
        forall|index: u64| #[trigger] partials.contains_key(index) <==> index < calls.len(),
        forall|i: int|
            0 <= i < calls.len() ==> no_empty_arguments(#[trigger] calls[i]) && makes_up(
                partials[i as u64],
                calls[i],
            ),
    ensures
        finished_calls(partials) == text::kept(calls, |call: JsonValue| whole_call(call)),
{
    lemma_ascending_places(partials.dom(), calls.len(), 0x1_0000_0000_0000_0000);
    lemma_kept_places(calls, partials, calls.len() as int);
    assert(calls.take(calls.len() as int) =~= calls);
}

/// What is kept of places is what is kept of what stands there.
proof fn lemma_kept_places(calls: Seq<JsonValue>, partials: Map<u64, PartialValue>, n: int)
    requires
        calls.len() <= 0x1_0000_0000_0000_0000,
        0 <= n <= calls.len(),
        forall|i: int|
            0 <= i < calls.len() ==> no_empty_arguments(#[trigger] calls[i]) && makes_up(
                partials[i as u64],
                calls[i],
            ),
    ensures
        text::kept(
            Seq::new(n as nat, |i: int| i as u64),
            |index: u64| finished_call(partials[index]),
        ) == text::kept(calls.take(n), |call: JsonValue| whole_call(call)),
    decreases n,
{
    let places = Seq::new(n as nat, |i: int| i as u64);
    let choice = |index: u64| finished_call(partials[index]);
    let other = |call: JsonValue| whole_call(call);
    if n > 0 {
        lemma_kept_places(calls, partials, n - 1);
        assert(places.drop_last() =~= Seq::new((n - 1) as nat, |i: int| i as u64));
        assert(calls.take(n).drop_last() =~= calls.take(n - 1));
        let call = calls[n - 1];
        assert(makes_up(partials[(n - 1) as u64], call));
        assert(finished_call(partials[(n - 1) as u64]) == whole_call(call));
        assert(choice(places.last()) == other(calls.take(n).last()));
    }
}

/// All pieces that a delta lists, each with the index of the call that it belongs to.
pub open spec fn delta_pieces(delta: JsonValue) -> Seq<(u64, JsonValue)> {
    match listed_calls(delta) {
        Some(pieces) => indexed(pieces),
        None => Seq::empty(),
    }
}

/// Pieces, each with the index of the call that it belongs to.
pub open spec fn indexed(pieces: Seq<JsonValue>) -> Seq<(u64, JsonValue)> {
    Seq::new(pieces.len(), |i: int| (call_index(pieces[i], i), pieces[i]))
}

/// The pieces that all deltas list, in order.
pub open spec fn all_pieces(deltas: Seq<JsonValue>) -> Seq<(u64, JsonValue)>
    decreases deltas.len(),
{
    if deltas.len() == 0 {
        Seq::empty()
    } else {
        all_pieces(deltas.drop_last()) + delta_pieces(deltas.last())
    }
}

/// Whether a piece belongs to the call with the given index.
pub open spec fn occurs(pieces: Seq<(u64, JsonValue)>, index: u64) -> bool {
    exists|i: int| 0 <= i < pieces.len() && (#[trigger] pieces[i]).0 == index
}

/// What the pieces of the call with the given index say, one after the other.
pub open spec fn assembled(pieces: Seq<(u64, JsonValue)>, index: u64) -> PartialValue
    decreases pieces.len(),
{
    if pieces.len() == 0 {
        no_call()
    } else {
        let before = assembled(pieces.drop_last(), index);
        if pieces.last().0 == index {
            extended(before, pieces.last().1)
        } else {
            before
        }
    }
}

/// Whether what is known of all calls is what the pieces of each say.
spec fn describes(partials: Map<u64, PartialValue>, pieces: Seq<(u64, JsonValue)>) -> bool {
    forall|index: u64| #[trigger]
        partial_at(partials, index) == assembled(pieces, index) && (partials.contains_key(index)
            <==> occurs(pieces, index))
}

/// Merging a list of pieces adds what they say.
proof fn lemma_merge_assembles(
    partials: Map<u64, PartialValue>,
    before: Seq<(u64, JsonValue)>,
    pieces: Seq<JsonValue>,
)
    requires
        describes(partials, before),
    ensures
        describes(merge_pieces(partials, pieces), before + indexed(pieces)),
    decreases pieces.len(),
{
    if pieces.len() == 0 {
        assert(before + indexed(pieces) =~= before);
    } else {
        lemma_merge_assembles(partials, before, pieces.drop_last());
        let merged = merge_pieces(partials, pieces.drop_last());
        let now = merge_pieces(partials, pieces);
        let so_far = before + indexed(pieces.drop_last());
        let all = before + indexed(pieces);
        let last = (call_index(pieces.last(), pieces.len() - 1), pieces.last());
        assert(all =~= so_far.push(last));
        assert(all.drop_last() =~= so_far);
        assert forall|index: u64| #[trigger]
            partial_at(now, index) == assembled(all, index) && (now.contains_key(index) <==> occurs(
                all,
                index,
            )) by {
            assert(partial_at(merged, index) == assembled(so_far, index));
            if occurs(so_far, index) {
                let i = choose|i: int| 0 <= i < so_far.len() && (#[trigger] so_far[i]).0 == index;
                assert(all[i].0 == index);
            }
            if last.0 == index {
                assert(all[so_far.len() as int].0 == index);
            }
            if occurs(all, index) && last.0 != index {
                let i = choose|i: int| 0 <= i < all.len() && (#[trigger] all[i]).0 == index;
                assert(so_far[i].0 == index);
            }
        }
    }
}

/// What is known of all calls is what the pieces of each say.
proof fn lemma_partials_described(deltas: Seq<JsonValue>)
    ensures
        describes(all_partials(deltas), all_pieces(deltas)),
    decreases deltas.len(),
{
    if deltas.len() > 0 {
        lemma_partials_described(deltas.drop_last());
        let before = all_pieces(deltas.drop_last());
        match listed_calls(deltas.last()) {
            Some(pieces) => {
                lemma_merge_assembles(all_partials(deltas.drop_last()), before, pieces);
            },
            None => {
                assert(before + Seq::<(u64, JsonValue)>::empty() =~= before);
            },
        }
    }
}

/// A call is made of the pieces with its index and of nothing else, in the order in which they
/// come, however they are spread over deltas and chunks and however the pieces of other calls come
/// in between. There is a call for every index that occurs.
pub proof fn law_calls_are_assembled_by_index(chunks: Seq<JsonValue>, index: u64)
    ensures
        after_chunks(chunks).partials.contains_key(index) <==> occurs(
            all_pieces(all_deltas(chunks)),
            index,
        ),
        partial_at(after_chunks(chunks).partials, index) == assembled(
            all_pieces(all_deltas(chunks)),
            index,
        ),
{
    lemma_chunks(chunks);
    lemma_partials_described(all_deltas(chunks));
    let partials = all_partials(all_deltas(chunks));
    assert(partial_at(partials, index) == assembled(all_pieces(all_deltas(chunks)), index));
}

/// Whether chunks give the identifier, the model and the usage of a whole reply: the first chunk
/// gives the identifier and the model and no other chunk gives others, and the last chunk gives the
/// usage. What the whole reply does not give, no chunk gives.
pub open spec fn same_heads(chunks: Seq<JsonValue>, reply: JsonValue) -> bool {
    &&& chunks.len() > 0
    &&& chunks[0].get_str("id"@) == reply.get_str("id"@)
    &&& chunks[0].get_str("model"@) == reply.get_str("model"@)
    &&& chunks.last().get("usage"@) == reply.get("usage"@)
    &&& forall|i: int|
        0 <= i < chunks.len() ==> {
            &&& (#[trigger] chunks[i]).get_str("id"@) is Some ==> chunks[i].get_str("id"@)
                == reply.get_str("id"@)
            &&& chunks[i].get_str("model"@) is Some ==> chunks[i].get_str("model"@)
                == reply.get_str("model"@)
            &&& chunks[i].get("usage"@) is Some ==> reply.get("usage"@) is Some
        }
}

/// The calls that a message lists: none, where it has no list.
pub open spec fn calls_or_none(message: JsonValue) -> Seq<JsonValue> {
    match listed_calls(message) {
        Some(calls) => calls,
        None => Seq::empty(),
    }
}

/// Whether deltas give the text and the calls of a message in pieces: the texts put together are
/// its text, and for each call the pieces with the index of its place make it up. No piece belongs
/// to any other call, and no call says that its arguments are empty.
pub open spec fn cut_from(deltas: Seq<JsonValue>, message: JsonValue) -> bool {
    let calls = calls_or_none(message);
    &&& all_text(deltas) == message_text(message)
    &&& calls.len() <= 0x1_0000_0000_0000_0000
    &&& forall|index: u64| #[trigger] occurs(all_pieces(deltas), index) <==> index < calls.len()
    &&& forall|i: int|
        0 <= i < calls.len() ==> no_empty_arguments(#[trigger] calls[i]) && makes_up(
            assembled(all_pieces(deltas), i as u64),
            calls[i],
        )
}

/// The identifier, the model and the usage of a reply after its first chunks.
proof fn lemma_heads(chunks: Seq<JsonValue>, reply: JsonValue, n: int)
    requires
        same_heads(chunks, reply),
        0 < n <= chunks.len(),
    ensures
        after_chunks(chunks.take(n)).id == reply.get_str("id"@),
        after_chunks(chunks.take(n)).model == reply.get_str("model"@),
        after_chunks(chunks.take(n)).usage is Some ==> reply.get("usage"@) is Some,
        n == chunks.len() ==> after_chunks(chunks.take(n)).usage == reply.get("usage"@),
    decreases n,
{
    let chunk = chunks[n - 1];
    assert(chunks.take(n).drop_last() =~= chunks.take(n - 1));
    assert(chunks.take(n).last() == chunk);
    let before = after_chunks(chunks.take(n - 1));
    if n > 1 {
        lemma_heads(chunks, reply, n - 1);
    } else {
        assert(chunks.take(0) =~= Seq::empty());
    }
    lemma_deltas_only_add(
        StreamValue {
            id: earlier(before.id, chunk.get_str("id"@)),
            model: earlier(before.model, chunk.get_str("model"@)),
            usage: later_value(before.usage, chunk.get("usage"@)),
            ..before
        },
        chunk_deltas(chunk),
    );
}

/// A whole reply and a stream of the same reply mean the same, however many chunks the stream has
/// and wherever the text and the arguments of the calls are cut.
pub proof fn law_chunks_are_a_whole_reply(
    chunks: Seq<JsonValue>,
    reply: JsonValue,
    choice: JsonValue,
    message: JsonValue,
)
    requires
        first_choice(reply) == Some(choice),
        choice_message(choice) == Some(message),
        same_heads(chunks, reply),
        cut_from(all_deltas(chunks), message),
    ensures
        reply_outcome(reply) == Ok::<OutputValue, ErrorValue>(finished(after_chunks(chunks))),
{
    assert(chunks.take(chunks.len() as int) =~= chunks);
    lemma_heads(chunks, reply, chunks.len() as int);
    lemma_chunks(chunks);
    let deltas = all_deltas(chunks);
    let partials = all_partials(deltas);
    let calls = calls_or_none(message);
    lemma_partials_described(deltas);
    assert forall|index: u64| #[trigger] partials.contains_key(index) <==> index
        < calls.len() by {
        assert(partial_at(partials, index) == assembled(all_pieces(deltas), index));
        assert(occurs(all_pieces(deltas), index) <==> index < calls.len());
    }
    assert forall|i: int| 0 <= i < calls.len() implies no_empty_arguments(#[trigger] calls[i])
        && makes_up(partials[i as u64], calls[i]) by {
        assert(partial_at(partials, i as u64) == assembled(all_pieces(deltas), i as u64));
        assert(partials.contains_key(i as u64));
    }
    lemma_made_up_calls(calls, partials);
    assert(finished(after_chunks(chunks)).tool_calls == message_calls(message));
}

/// A whole reply that calls nothing and a stream of its text mean the same: one delta per chunk,
/// whose texts put together are the text of the message, and the usage on the last chunk.
pub proof fn law_text_chunks_are_a_whole_reply(
    chunks: Seq<JsonValue>,
    deltas: Seq<JsonValue>,
    reply: JsonValue,
    choice: JsonValue,
    message: JsonValue,
)
    requires
        first_choice(reply) == Some(choice),
        choice_message(choice) == Some(message),
        listed_calls(message) is None,
        same_heads(chunks, reply),
        deltas.len() == chunks.len(),
        forall|i: int|
            0 <= i < chunks.len() ==> chunk_deltas(#[trigger] chunks[i]) == seq![deltas[i]],
        forall|i: int| 0 <= i < deltas.len() ==> listed_calls(#[trigger] deltas[i]) is None,
        all_text(deltas) == message_text(message),
    ensures
        reply_outcome(reply) == Ok::<OutputValue, ErrorValue>(finished(after_chunks(chunks))),
{
    lemma_one_delta_each(chunks, deltas);
    lemma_no_pieces(deltas);
    law_chunks_are_a_whole_reply(chunks, reply, choice, message);
}

/// Chunks with one delta each have these deltas.
proof fn lemma_one_delta_each(chunks: Seq<JsonValue>, deltas: Seq<JsonValue>)
    requires
        deltas.len() == chunks.len(),
        forall|i: int|
            0 <= i < chunks.len() ==> chunk_deltas(#[trigger] chunks[i]) == seq![deltas[i]],
    ensures
        all_deltas(chunks) == deltas,
    decreases chunks.len(),
{
    if chunks.len() > 0 {
        let (before, others) = (chunks.drop_last(), deltas.drop_last());
        assert forall|i: int| 0 <= i < before.len() implies chunk_deltas(#[trigger] before[i])
            == seq![others[i]] by {
            assert(before[i] == chunks[i]);
        }
        lemma_one_delta_each(before, others);
        assert(chunk_deltas(chunks[chunks.len() - 1]) == seq![deltas.last()]);
    }
    assert(all_deltas(chunks) =~= deltas);
}

/// Deltas that list no calls have no pieces.
proof fn lemma_no_pieces(deltas: Seq<JsonValue>)
    requires
        forall|i: int| 0 <= i < deltas.len() ==> listed_calls(#[trigger] deltas[i]) is None,
    ensures
        all_pieces(deltas) == Seq::<(u64, JsonValue)>::empty(),
    decreases deltas.len(),
{
    if deltas.len() > 0 {
        let before = deltas.drop_last();
        assert forall|i: int| 0 <= i < before.len() implies listed_calls(#[trigger] before[i])
            is None by {
            assert(before[i] == deltas[i]);
        }
        lemma_no_pieces(before);
        assert(listed_calls(deltas[deltas.len() - 1]) is None);
        assert(all_pieces(deltas) =~= Seq::empty());
    }
}

/// A whole reply and a stream of one chunk with the same message mean the same, where the
/// message has a text or none as its content and lists its calls whole.
pub proof fn law_one_chunk_is_a_whole_reply(reply: JsonValue, choice: JsonValue, message: JsonValue)
    requires
        reply.get_array("choices"@) == Some(seq![choice]),
        choice_message(choice) == Some(message),
        choice_delta(choice) == Some(message),
        message.get("content"@) is None || message.get_str("content"@) is Some,
        listed_calls(message) matches Some(calls) ==> listed_whole(calls),
    ensures
        finished(after_chunks(seq![reply])) == reply_output(reply, message),
{
    let chunks = seq![reply];
    assert(chunks.drop_last() =~= Seq::empty());
    let pick = |choice: JsonValue| choice_delta(choice);
    text::lemma_kept_first(choice, Seq::empty(), pick);
    assert(seq![choice] + Seq::empty() =~= seq![choice]);
    assert(text::kept(seq![choice], pick) =~= seq![message]);
    let deltas = chunk_deltas(reply);
    assert(deltas =~= seq![message]);
    assert(deltas.drop_last() =~= Seq::empty());
    reveal_with_fuel(after_chunks, 2);
    reveal_with_fuel(after_deltas, 2);
    let stream = after_chunks(chunks);
    assert(stream.content =~= message_text(message));
    match listed_calls(message) {
        Some(calls) => {
            let partials = merge_pieces(Map::empty(), calls);
            lemma_merge_whole_calls(calls);
            assert(stream.partials == partials);
            assert forall|i: int| 0 <= i < calls.len() implies no_empty_arguments(
                #[trigger] calls[i],
            ) && makes_up(partials[i as u64], calls[i]) by {
                let call = calls[i];
                assert(partials[i as u64] == extended(no_call(), call));
                assert(Seq::<char>::empty() + piece_arguments(call) =~= piece_arguments(call));
            }
            lemma_made_up_calls(calls, partials);
        },
        None => {
            let none = Map::<u64, PartialValue>::empty();
            lemma_ascending_places(none.dom(), 0, 0x1_0000_0000_0000_0000);
            assert(finished_calls(none) =~= Seq::empty());
        },
    }
}

/// An end mark among the data of events is no chunk.
proof fn lemma_end_mark_is_no_chunk(before: Seq<Seq<char>>, after: Seq<Seq<char>>)
    ensures
        chunks_of(before + seq!["[DONE]"@] + after) == chunks_of(before + after),
    decreases after.len(),
{
    let marked = before + seq!["[DONE]"@] + after;
    let plain = before + after;
    if after.len() == 0 {
        assert(marked.drop_last() =~= before);
        assert(plain =~= before);
    } else {
        lemma_end_mark_is_no_chunk(before, after.drop_last());
        assert(marked.drop_last() =~= before + seq!["[DONE]"@] + after.drop_last());
        assert(plain.drop_last() =~= before + after.drop_last());
        assert(marked.last() == plain.last());
    }
}

/// An end mark is an event line.
pub proof fn lemma_end_mark_line()
    ensures
        sse::event_line("[DONE]"@),
{
    reveal_strlit("[DONE]");
}

/// An end mark adds nothing to a reply in chunks and stops nothing: what comes behind it is read as
/// if it were not there.
pub proof fn law_end_mark_does_not_matter(before: Seq<char>, after: Seq<char>)
    requires
        sse::ends_event(before),
    ensures
        streaming_outcome(before + "data: [DONE]\n\n"@ + after) == streaming_outcome(
            before + after,
        ),
{
    let mark = "data: [DONE]\n\n"@;
    reveal_strlit("data: [DONE]\n\n");
    reveal_strlit("data: ");
    reveal_strlit("[DONE]");
    reveal_strlit("\n\n");
    assert(mark =~= sse::data_event("[DONE]"@));
    lemma_end_mark_line();
    sse::law_data_is_read("[DONE]"@);
    assert(sse::ends_event(mark)) by {
        assert(seq!['\n', '\n'] =~= mark.subrange(12, 14));
    }
    assert(before + mark + after =~= before + (mark + after));
    sse::law_messages_of_parts(before, mark + after);
    sse::law_messages_of_parts(mark, after);
    sse::law_messages_of_parts(before, after);
    let (first, last) = (sse::data_messages(before), sse::data_messages(after));
    assert(first + (seq!["[DONE]"@] + last) =~= first + seq!["[DONE]"@] + last);
    lemma_end_mark_is_no_chunk(first, last);
}

/// Texts that are read as chunks, and an end mark behind them or not, are these chunks.
pub proof fn lemma_chunks_read(texts: Seq<Seq<char>>, chunks: Seq<JsonValue>)
    requires
        texts.len() == chunks.len(),
        forall|i: int|
            0 <= i < texts.len() ==> #[trigger] texts[i] != "[DONE]"@ && json::json_of_text(texts[i])
                == Some(chunks[i]),
    ensures
        chunks_of(texts) == Ok::<Seq<JsonValue>, Seq<char>>(chunks),
        chunks_of(texts + seq!["[DONE]"@]) == Ok::<Seq<JsonValue>, Seq<char>>(chunks),
    decreases texts.len(),
{
    if texts.len() == 0 {
        assert(chunks =~= Seq::empty());
    } else {
        let before = texts.drop_last();
        assert forall|i: int| 0 <= i < before.len() implies #[trigger] before[i] != "[DONE]"@
            && json::json_of_text(before[i]) == Some(chunks.drop_last()[i]) by {
            assert(before[i] == texts[i]);
        }
        lemma_chunks_read(before, chunks.drop_last());
        assert(texts[texts.len() - 1] != "[DONE]"@);
        assert(chunks.drop_last().push(chunks.last()) =~= chunks);
    }
    assert((texts + seq!["[DONE]"@]).drop_last() =~= texts);
}

/// A whole reply has the identifier, the model and the usage that it gives, and the content and the
/// calls of the message of its first choice. A delta stands in for a message that is missing.
/// Without a choice, or without a message in it, the reply is refused.
pub proof fn law_whole_replies_are_read_as_they_are(reply: JsonValue)
    ensures
        match reply.get_array("choices"@) {
            None => reply_outcome(reply) == Err::<OutputValue, ErrorValue>(
                ErrorValue::MissingChoice,
            ),
            Some(choices) => if choices.len() == 0 {
                reply_outcome(reply) == Err::<OutputValue, ErrorValue>(ErrorValue::MissingChoice)
            } else {
                let message = if choices[0].get("message"@) is Some {
                    choices[0].get("message"@)
                } else {
                    choices[0].get("delta"@)
                };
                match message {
                    None => reply_outcome(reply) == Err::<OutputValue, ErrorValue>(
                        ErrorValue::MissingMessage,
                    ),
                    Some(message) => reply_outcome(reply) matches Ok(output) && {
                        &&& output.id == reply.get_str("id"@)
                        &&& output.model == reply.get_str("model"@)
                        &&& output.usage == reply.get("usage"@)
                        &&& match message.get("content"@) {
                            Some(JsonValue::Str(said)) => output.content == said,
                            Some(content) => output.content == content::content_text(content),
                            None => output.content.len() == 0,
                        }
                        &&& output.tool_calls == message_calls(message)
                    },
                }
            },
        },
{
}

/// A message with one call more in its list has one call more, where that call names a function,
/// and else the same. The call has its own identifier, where it has one, the name of its function
/// and its arguments: a text as it is, anything else as JSON, and an empty object where there are
/// none.
pub proof fn law_calls_of_a_message_one_by_one(
    fewer: JsonValue,
    more: JsonValue,
    calls: Seq<JsonValue>,
    call: JsonValue,
)
    requires
        fewer.get_array("tool_calls"@) == Some(calls),
        more.get_array("tool_calls"@) == Some(calls.push(call)),
    ensures
        ({
            let before = message_calls(fewer);
            let after = message_calls(more);
            match call.get("function"@) {
                Some(function) => match function.get_str("name"@) {
                    Some(name) => {
                        &&& after.len() == before.len() + 1
                        &&& after.drop_last() == before
                        &&& after.last().id == call.get_str("id"@)
                        &&& after.last().name == name
                        &&& match function.get("arguments"@) {
                            Some(JsonValue::Str(given)) => after.last().arguments == given,
                            Some(other) => after.last().arguments == json::json_text(other),
                            None => after.last().arguments == seq!['{', '}'],
                        }
                    },
                    None => after == before,
                },
                None => after == before,
            }
        }),
{
    reveal_strlit("{}");
    assert("{}"@ =~= seq!['{', '}']);
    let choice = |call: JsonValue| whole_call(call);
    text::lemma_kept_push(calls, call, choice);
    assert(choice(call) == whole_call(call));
    let (before, after) = (message_calls(fewer), message_calls(more));
    if whole_call(call) is Some {
        assert(after.drop_last() =~= before);
    }
}

/// A message without a list of calls, or with an empty one, has none. A list under the other key
/// counts exactly where there is nothing under the first.
pub proof fn law_where_calls_are_listed(message: JsonValue, other: JsonValue)
    ensures
        message.get("tool_calls"@) is None && message.get("toolCalls"@) is None ==> message_calls(
            message,
        ).len() == 0,
        message.get("tool_calls"@) is Some && message.get_array("tool_calls"@) is None
            ==> message_calls(message).len() == 0,
        message.get_array("tool_calls"@) == Some(Seq::<JsonValue>::empty()) ==> message_calls(
            message,
        ).len() == 0,
        message.get("tool_calls"@) is None && other.get("tool_calls"@) == message.get("toolCalls"@)
            && other.get("tool_calls"@) is Some ==> message_calls(message) == message_calls(other),
        message.get("tool_calls"@) is None && other.get("tool_calls"@) == message.get("toolCalls"@)
            && other.get("tool_calls"@) is Some ==> forall|partials: Map<u64, PartialValue>|
            #[trigger] merge_delta(partials, message) == merge_delta(partials, other),
{
}

/// One more chunk gives the identifier and the model only where none was given before, and the
/// usage wherever it has one. Before the first chunk nothing is known.
pub proof fn law_first_identifier_and_last_usage_count(chunks: Seq<JsonValue>, chunk: JsonValue)
    ensures
        ({
            let before = finished(after_chunks(chunks));
            let after = finished(after_chunks(chunks.push(chunk)));
            &&& after.id == (if before.id is Some {
                before.id
            } else {
                chunk.get_str("id"@)
            })
            &&& after.model == (if before.model is Some {
                before.model
            } else {
                chunk.get_str("model"@)
            })
            &&& after.usage == (if chunk.get("usage"@) is Some {
                chunk.get("usage"@)
            } else {
                before.usage
            })
        }),
        ({
            let none = finished(after_chunks(Seq::empty()));
            &&& none.id is None
            &&& none.model is None
            &&& none.usage is None
            &&& none.content.len() == 0
            &&& none.tool_calls.len() == 0
        }),
{
    assert(chunks.push(chunk).drop_last() =~= chunks);
    let before = after_chunks(chunks);
    lemma_deltas_only_add(
        StreamValue {
            id: earlier(before.id, chunk.get_str("id"@)),
            model: earlier(before.model, chunk.get_str("model"@)),
            usage: later_value(before.usage, chunk.get("usage"@)),
            ..before
        },
        chunk_deltas(chunk),
    );
    let none = Map::<u64, PartialValue>::empty();
    lemma_ascending_places(none.dom(), 0, 0x1_0000_0000_0000_0000);
    assert(finished_calls(none) =~= Seq::empty());
}

/// A chunk with one choice more in its list adds the text of that choice's delta behind the rest,
/// where it is a text; a message stands in for a delta that is missing. Without a list of choices a
/// chunk adds no text.
pub proof fn law_text_of_choices_one_by_one(
    chunks: Seq<JsonValue>,
    fewer: JsonValue,
    more: JsonValue,
    choices: Seq<JsonValue>,
    choice: JsonValue,
)
    requires
        fewer.get_array("choices"@) == Some(choices),
        more.get_array("choices"@) == Some(choices.push(choice)),
    ensures
        ({
            let delta = if choice.get("delta"@) is Some {
                choice.get("delta"@)
            } else {
                choice.get("message"@)
            };
            let before = finished(after_chunks(chunks.push(fewer))).content;
            let after = finished(after_chunks(chunks.push(more))).content;
            match delta {
                Some(delta) => match delta.get("content"@) {
                    Some(JsonValue::Str(said)) => after == before + said,
                    _ => after == before,
                },
                None => after == before,
            }
        }),
{
    let pick = |choice: JsonValue| choice_delta(choice);
    text::lemma_kept_push(choices, choice, pick);
    lemma_chunks(chunks.push(fewer));
    lemma_chunks(chunks.push(more));
    assert(chunks.push(fewer).drop_last() =~= chunks);
    assert(chunks.push(more).drop_last() =~= chunks);
    let given = all_deltas(chunks);
    assert(pick(choice) == choice_delta(choice));
    let before = given + chunk_deltas(fewer);
    let after = given + chunk_deltas(more);
    match choice_delta(choice) {
        Some(delta) => {
            assert(after =~= before.push(delta));
            lemma_all_text_more(before, delta);
            let (first, second) = (all_text(before), all_text(after));
            if delta.get_str("content"@) is None {
                assert(second =~= first);
            }
        },
        None => {
            assert(after =~= before);
        },
    }
}

/// A chunk without a list of choices, or with an empty one, adds neither text nor calls.
pub proof fn law_chunks_without_choices_add_nothing(chunks: Seq<JsonValue>, chunk: JsonValue)
    requires
        chunk.get_array("choices"@) is None || chunk.get_array("choices"@) == Some(
            Seq::<JsonValue>::empty(),
        ),
    ensures
        finished(after_chunks(chunks.push(chunk))).content == finished(
            after_chunks(chunks),
        ).content,
        finished(after_chunks(chunks.push(chunk))).tool_calls == finished(
            after_chunks(chunks),
        ).tool_calls,
{
    assert(chunks.push(chunk).drop_last() =~= chunks);
    lemma_chunks(chunks);
    lemma_chunks(chunks.push(chunk));
    assert(all_deltas(chunks) + chunk_deltas(chunk) =~= all_deltas(chunks));
}

/// The texts that stand beside an index.
pub open spec fn texts_at(indices: Seq<u64>, texts: Seq<Seq<char>>, index: u64) -> Seq<Seq<char>>
    decreases indices.len(),
{
    if indices.len() == 0 {
        Seq::empty()
    } else {
        let before = texts_at(indices.drop_last(), texts.drop_last(), index);
        if indices.last() == index {
            before.push(texts.last())
        } else {
            before
        }
    }
}

/// The last text that stands beside an index.
pub open spec fn last_at(indices: Seq<u64>, texts: Seq<Option<Seq<char>>>, index: u64) -> Option<
    Seq<char>,
>
    decreases indices.len(),
{
    if indices.len() == 0 {
        None
    } else if indices.last() == index && texts.last() is Some {
        texts.last()
    } else {
        last_at(indices.drop_last(), texts.drop_last(), index)
    }
}

/// Whether a chunk has one delta, which lists the given piece of a call and nothing else.
pub open spec fn lists_piece(chunk: JsonValue, piece: JsonValue) -> bool {
    chunk.get_array("choices"@) matches Some(choices) && {
        &&& choices.len() == 1
        &&& choices[0].get("delta"@) matches Some(delta) && delta.get_array("tool_calls"@) == Some(
            seq![piece],
        )
    }
}

/// Whether the only piece in a list belongs to the call with the given index, and gives the
/// arguments given: a text as it is, anything else as JSON, and nothing where it has none.
pub open spec fn gives(piece: JsonValue, index: u64, arguments: Seq<char>) -> bool {
    &&& match piece.get("index"@) {
        Some(JsonValue::Int(n)) => index == (if 0 <= n <= u64::MAX {
            n
        } else {
            0
        }),
        _ => index == 0,
    }
    &&& match piece.get("function"@) {
        Some(function) => match function.get("arguments"@) {
            Some(JsonValue::Str(given)) => arguments == given,
            Some(other) => arguments == json::json_text(other),
            None => arguments.len() == 0,
        },
        None => arguments.len() == 0,
    }
}

/// The name that a piece gives, read from its members.
pub open spec fn given_name(piece: JsonValue) -> Option<Seq<char>> {
    match piece.get("function"@) {
        Some(function) => match function.get("name"@) {
            Some(JsonValue::Str(name)) => Some(name),
            _ => None,
        },
        None => None,
    }
}

/// Pieces that come one by one are put together by index.
proof fn lemma_pieces_by_index(
    pieces: Seq<JsonValue>,
    indices: Seq<u64>,
    arguments: Seq<Seq<char>>,
    index: u64,
)
    requires
        pieces.len() == indices.len() == arguments.len(),
        forall|i: int|
            0 <= i < pieces.len() ==> gives(#[trigger] pieces[i], indices[i], arguments[i]),
    ensures
        ({
            let all = Seq::new(pieces.len(), |i: int| (indices[i], pieces[i]));
            let made = assembled(all, index);
            let ids = pieces.map_values(|piece: JsonValue| piece.get_str("id"@));
            let names = pieces.map_values(|piece: JsonValue| given_name(piece));
            &&& made.arguments == text::joined(
                texts_at(indices, arguments, index),
                Seq::empty(),
            )
            &&& made.id == last_at(indices, ids, index)
            &&& made.name == last_at(indices, names, index)
        }),
    decreases pieces.len(),
{
    let all = Seq::new(pieces.len(), |i: int| (indices[i], pieces[i]));
    let ids = pieces.map_values(|piece: JsonValue| piece.get_str("id"@));
    let names = pieces.map_values(|piece: JsonValue| given_name(piece));
    if pieces.len() > 0 {
        let n = pieces.len() - 1;
        let before = pieces.drop_last();
        let (fewer, others) = (indices.drop_last(), arguments.drop_last());
        assert forall|i: int| 0 <= i < before.len() implies gives(
            #[trigger] before[i],
            fewer[i],
            others[i],
        ) by {
            assert(before[i] == pieces[i]);
        }
        lemma_pieces_by_index(before, fewer, others, index);
        assert(all.drop_last() =~= Seq::new(before.len(), |i: int| (fewer[i], before[i])));
        assert(ids.drop_last() =~= before.map_values(|piece: JsonValue| piece.get_str("id"@)));
        assert(names.drop_last() =~= before.map_values(|piece: JsonValue| given_name(piece)));
        let last = pieces[n];
        assert(gives(last, indices[n], arguments[n]));
        assert(piece_arguments(last) =~= arguments[n]);
        assert(piece_name(last) == given_name(last));
        if indices[n] == index {
            let so_far = texts_at(fewer, others, index);
            assert(so_far.push(arguments[n]).drop_last() =~= so_far);
            assert(text::joined(so_far.push(arguments[n]), Seq::empty()) =~= text::joined(
                so_far,
                Seq::empty(),
            ) + arguments[n]);
        }
    }
}

/// Chunks that list one piece each have these pieces.
proof fn lemma_one_piece_each(
    chunks: Seq<JsonValue>,
    pieces: Seq<JsonValue>,
    indices: Seq<u64>,
    arguments: Seq<Seq<char>>,
)
    requires
        chunks.len() == pieces.len() == indices.len() == arguments.len(),
        forall|i: int|
            0 <= i < chunks.len() ==> lists_piece(#[trigger] chunks[i], pieces[i]) && gives(
                pieces[i],
                indices[i],
                arguments[i],
            ),
    ensures
        all_pieces(all_deltas(chunks)) == Seq::new(
            pieces.len(),
            |i: int| (indices[i], pieces[i]),
        ),
    decreases chunks.len(),
{
    let all = Seq::new(pieces.len(), |i: int| (indices[i], pieces[i]));
    if chunks.len() == 0 {
        assert(all =~= Seq::empty());
    } else {
        let n = chunks.len() - 1;
        let (before, others) = (chunks.drop_last(), pieces.drop_last());
        let (fewer, texts) = (indices.drop_last(), arguments.drop_last());
        assert forall|i: int| 0 <= i < before.len() implies lists_piece(
            #[trigger] before[i],
            others[i],
        ) && gives(others[i], fewer[i], texts[i]) by {
            assert(before[i] == chunks[i]);
        }
        lemma_one_piece_each(before, others, fewer, texts);
        let chunk = chunks[n];
        assert(lists_piece(chunk, pieces[n]));
        let choices = chunk.get_array("choices"@)->Some_0;
        let delta = choices[0].get("delta"@)->Some_0;
        let pick = |choice: JsonValue| choice_delta(choice);
        text::lemma_kept_first(choices[0], Seq::empty(), pick);
        assert(choices =~= seq![choices[0]] + Seq::empty());
        assert(pick(choices[0]) == Some(delta));
        assert(chunk_deltas(chunk) =~= seq![delta]);
        let deltas = all_deltas(before);
        assert(all_deltas(chunks) =~= deltas.push(delta));
        assert(all_deltas(chunks).drop_last() =~= deltas);
        assert(delta_pieces(delta) =~= seq![(indices[n], pieces[n])]);
        assert(Seq::new(others.len(), |i: int| (fewer[i], others[i])) =~= all.drop_last());
        assert(all_pieces(all_deltas(chunks)) =~= all);
    }
}

/// Calls that come in pieces, one piece per chunk and those of several calls mixed as they may be,
/// are put together by their index. There is one call for each index whose pieces give a name, in
/// ascending order; a call without a name is left out and changes nothing for the others. Its
/// arguments are those of its pieces, as they are and one behind the other; where these are empty
/// they are those of an empty object. It has the last identifier and the last name that its pieces
/// give.
pub proof fn law_pieces_of_calls_are_put_together(
    chunks: Seq<JsonValue>,
    pieces: Seq<JsonValue>,
    indices: Seq<u64>,
    arguments: Seq<Seq<char>>,
    keys: Seq<u64>,
)
    requires
        chunks.len() == pieces.len() == indices.len() == arguments.len(),
        forall|i: int|
            0 <= i < chunks.len() ==> lists_piece(#[trigger] chunks[i], pieces[i]) && gives(
                pieces[i],
                indices[i],
                arguments[i],
            ),
        forall|i: int, j: int| 0 <= i < j < keys.len() ==> #[trigger] keys[i] < #[trigger] keys[j],
        forall|key: u64| #[trigger]
            keys.contains(key) <==> last_at(
                indices,
                pieces.map_values(|piece: JsonValue| given_name(piece)),
                key,
            ) is Some,
    ensures
        ({
            let calls = finished(after_chunks(chunks)).tool_calls;
            &&& calls.len() == keys.len()
            &&& forall|j: int|
                0 <= j < keys.len() ==> {
                    let whole = text::joined(
                        texts_at(indices, arguments, #[trigger] keys[j]),
                        Seq::empty(),
                    );
                    &&& calls[j].arguments == (if whole.len() == 0 {
                        seq!['{', '}']
                    } else {
                        whole
                    })
                    &&& Some(calls[j].name) == last_at(
                        indices,
                        pieces.map_values(|piece: JsonValue| given_name(piece)),
                        keys[j],
                    )
                    &&& calls[j].id == last_at(
                        indices,
                        pieces.map_values(|piece: JsonValue| piece.get_str("id"@)),
                        keys[j],
                    )
                }
        }),
{
    reveal_strlit("{}");
    assert("{}"@ =~= seq!['{', '}']);
    lemma_chunks(chunks);
    lemma_one_piece_each(chunks, pieces, indices, arguments);
    let deltas = all_deltas(chunks);
    let all = all_pieces(deltas);
    let partials = all_partials(deltas);
    lemma_partials_described(deltas);
    assert forall|i: int| 0 <= i < pieces.len() implies gives(
        #[trigger] pieces[i],
        indices[i],
        arguments[i],
    ) by {
        assert(lists_piece(chunks[i], pieces[i]));
    }
    let names = pieces.map_values(|piece: JsonValue| given_name(piece));
    let ordered = ascending(partials.dom());
    let named = |index: u64|
        if partials[index].name is Some {
            Some(index)
        } else {
            None
        };
    let kept = text::kept(ordered, named);
    lemma_ascending_below(partials.dom(), 0x1_0000_0000_0000_0000);
    lemma_kept_ascending(ordered, partials);
    assert forall|key: u64| #[trigger] keys.contains(key) <==> kept.contains(key) by {
        lemma_pieces_by_index(pieces, indices, arguments, key);
        assert(partial_at(partials, key) == assembled(all, key));
        assert(ordered.contains(key) <==> partials.contains_key(key));
        assert(keys.contains(key) <==> last_at(indices, names, key) is Some);
    }
    lemma_one_ascending_order(keys, kept);
    assert forall|j: int| 0 <= j < keys.len() implies partials[#[trigger] keys[j]] == assembled(
        all,
        keys[j],
    ) && assembled(all, keys[j]).name == last_at(indices, names, keys[j])
        && partials[keys[j]].name is Some by {
        assert(kept.contains(keys[j]));
        assert(ordered.contains(keys[j]));
        assert(partials.contains_key(keys[j]));
        assert(partial_at(partials, keys[j]) == assembled(all, keys[j]));
        lemma_pieces_by_index(pieces, indices, arguments, keys[j]);
    }
    lemma_all_named(keys, partials);
    assert forall|j: int| 0 <= j < keys.len() implies finished_call(
        partials[#[trigger] keys[j]],
    ) == Some(finished_calls(partials)[j]) && assembled(all, keys[j]).arguments == text::joined(
        texts_at(indices, arguments, keys[j]),
        Seq::empty(),
    ) && assembled(all, keys[j]).id == last_at(
        indices,
        pieces.map_values(|piece: JsonValue| piece.get_str("id"@)),
        keys[j],
    ) by {
        lemma_pieces_by_index(pieces, indices, arguments, keys[j]);
    }
}

/// The indices of calls with a name come in the same order, and what is kept of them is what is kept
/// of all.
proof fn lemma_kept_ascending(ordered: Seq<u64>, partials: Map<u64, PartialValue>)
    requires
        strictly_ascending(ordered),
    ensures
        ({
            let named = |index: u64|
                if partials[index].name is Some {
                    Some(index)
                } else {
                    None
                };
            let kept = text::kept(ordered, named);
            let choice = |index: u64| finished_call(partials[index]);
            &&& strictly_ascending(kept)
            &&& forall|key: u64| #[trigger]
                kept.contains(key) <==> ordered.contains(key) && partials[key].name is Some
            &&& text::kept(kept, choice) == text::kept(ordered, choice)
        }),
    decreases ordered.len(),
{
    let named = |index: u64|
        if partials[index].name is Some {
            Some(index)
        } else {
            None
        };
    let choice = |index: u64| finished_call(partials[index]);
    let kept = text::kept(ordered, named);
    if ordered.len() > 0 {
        let before = ordered.drop_last();
        let fewer = text::kept(before, named);
        let last = ordered.last();
        lemma_kept_ascending(before, partials);
        assert forall|i: int| 0 <= i < fewer.len() implies #[trigger] fewer[i] < last by {
            assert(fewer.contains(fewer[i]));
            let j = choose|j: int| 0 <= j < before.len() && before[j] == fewer[i];
            assert(ordered[j] < ordered[ordered.len() - 1]);
        }
        assert(named(last) is Some <==> choice(last) is Some);
        if named(last) is Some {
            text::lemma_kept_push(fewer, last, choice);
        }
        assert forall|key: u64| #[trigger] kept.contains(key) <==> ordered.contains(key)
            && partials[key].name is Some by {
            assert(fewer.contains(key) <==> before.contains(key) && partials[key].name is Some);
            if before.contains(key) {
                let j = choose|j: int| 0 <= j < before.len() && before[j] == key;
                assert(ordered[j] == key);
            }
            if fewer.contains(key) {
                let j = choose|j: int| 0 <= j < fewer.len() && fewer[j] == key;
                assert(kept[j] == key);
            }
            if ordered.contains(key) && partials[key].name is Some {
                let j = choose|j: int| 0 <= j < ordered.len() && ordered[j] == key;
                if j < before.len() {
                    assert(before[j] == key);
                } else {
                    assert(kept.last() == key);
                }
            }
            if kept.contains(key) {
                let j = choose|j: int| 0 <= j < kept.len() && kept[j] == key;
                if j < fewer.len() {
                    assert(fewer[j] == key);
                } else {
                    assert(key == last);
                    assert(ordered[ordered.len() - 1] == key);
                }
            }
        }
    }
}

/// Where every call has a name, every call is kept.
proof fn lemma_all_named(keys: Seq<u64>, partials: Map<u64, PartialValue>)
    requires
        forall|j: int| 0 <= j < keys.len() ==> partials[#[trigger] keys[j]].name is Some,
    ensures
        ({
            let calls = text::kept(keys, |index: u64| finished_call(partials[index]));
            &&& calls.len() == keys.len()
            &&& forall|j: int|
                0 <= j < keys.len() ==> finished_call(partials[#[trigger] keys[j]]) == Some(
                    calls[j],
                )
        }),
    decreases keys.len(),
{
    let choice = |index: u64| finished_call(partials[index]);
    let calls = text::kept(keys, choice);
    if keys.len() > 0 {
        let before = keys.drop_last();
        assert forall|j: int| 0 <= j < before.len() implies partials[#[trigger] before[j]].name
            is Some by {
            assert(before[j] == keys[j]);
        }
        lemma_all_named(before, partials);
        let last = keys[keys.len() - 1];
        assert(partials[last].name is Some);
        assert(choice(last) == finished_call(partials[last]));
        assert forall|j: int| 0 <= j < keys.len() implies finished_call(
            partials[#[trigger] keys[j]],
        ) == Some(calls[j]) by {
            if j < before.len() {
                assert(before[j] == keys[j]);
            }
        }
    }
}

/// The arguments of one call that comes in pieces, one piece per chunk, are exactly the arguments of
/// the pieces, one behind the other.
pub proof fn law_streamed_arguments_are_put_together_as_they_are(
    chunks: Seq<JsonValue>,
    pieces: Seq<JsonValue>,
    index: u64,
    arguments: Seq<Seq<char>>,
    name: Seq<char>,
)
    requires
        0 < chunks.len() == pieces.len() == arguments.len(),
        forall|i: int|
            0 <= i < chunks.len() ==> lists_piece(#[trigger] chunks[i], pieces[i]) && gives(
                pieces[i],
                index,
                arguments[i],
            ),
        pieces[0].get("function"@) matches Some(function) && function.get_str("name"@) == Some(
            name,
        ),
        forall|i: int| 0 < i < pieces.len() ==> given_name(#[trigger] pieces[i]) is None,
        text::joined(arguments, Seq::empty()).len() > 0,
    ensures
        ({
            let calls = finished(after_chunks(chunks)).tool_calls;
            &&& calls.len() == 1
            &&& calls[0].arguments == text::joined(arguments, Seq::empty())
            &&& calls[0].name == name
        }),
{
    let indices = Seq::new(chunks.len(), |i: int| index);
    let keys = seq![index];
    let names = pieces.map_values(|piece: JsonValue| given_name(piece));
    assert forall|i: int| 0 <= i < chunks.len() implies lists_piece(#[trigger] chunks[i], pieces[i])
        && gives(pieces[i], indices[i], arguments[i]) by {
        assert(lists_piece(chunks[i], pieces[i]));
        assert(indices[i] == index);
    }
    lemma_same_index(indices, arguments, names, index, name);
    assert forall|key: u64| #[trigger] keys.contains(key) <==> last_at(indices, names, key)
        is Some by {
        assert(keys[0] == index);
        if key != index {
            lemma_other_index(indices, names, index, key);
        }
    }
    law_pieces_of_calls_are_put_together(chunks, pieces, indices, arguments, keys);
    assert(keys[0] == index);
}

/// All texts stand beside the only index, and the last of them is the only one.
proof fn lemma_same_index(
    indices: Seq<u64>,
    texts: Seq<Seq<char>>,
    names: Seq<Option<Seq<char>>>,
    index: u64,
    name: Seq<char>,
)
    requires
        0 < indices.len() == texts.len() == names.len(),
        forall|i: int| 0 <= i < indices.len() ==> #[trigger] indices[i] == index,
        names[0] == Some(name),
        forall|i: int| 0 < i < names.len() ==> #[trigger] names[i] is None,
    ensures
        texts_at(indices, texts, index) == texts,
        last_at(indices, names, index) == Some(name),
    decreases indices.len(),
{
    let (fewer, others) = (indices.drop_last(), texts.drop_last());
    if indices.len() == 1 {
        assert(texts_at(fewer, others, index) =~= Seq::empty());
        assert(names.last() == names[0]);
    } else {
        lemma_same_index(fewer, others, names.drop_last(), index, name);
        assert(names[names.len() - 1] is None);
    }
    assert(indices[indices.len() - 1] == index);
    assert(texts_at(indices, texts, index) =~= texts);
}

/// Nothing stands beside an index that does not occur.
proof fn lemma_other_index(
    indices: Seq<u64>,
    names: Seq<Option<Seq<char>>>,
    index: u64,
    other: u64,
)
    requires
        indices.len() == names.len(),
        forall|i: int| 0 <= i < indices.len() ==> #[trigger] indices[i] == index,
        other != index,
    ensures
        last_at(indices, names, other) is None,
    decreases indices.len(),
{
    if indices.len() > 0 {
        assert(indices[indices.len() - 1] == index);
        lemma_other_index(indices.drop_last(), names.drop_last(), index, other);
    }
}

/// A call of which no piece gives a name is left out, whatever else its pieces give: what is left
/// are the calls that have a name.
pub proof fn law_streamed_calls_have_names(chunks: Seq<JsonValue>, i: int)
    requires
        0 <= i < finished(after_chunks(chunks)).tool_calls.len(),
    ensures
        exists|index: u64| #[trigger]
            after_chunks(chunks).partials.contains_key(index) && after_chunks(
                chunks,
            ).partials[index].name == Some(finished(after_chunks(chunks)).tool_calls[i].name),
{
    let partials = after_chunks(chunks).partials;
    let choice = |index: u64| finished_call(partials[index]);
    let order = ascending(partials.dom());
    let at = text::lemma_kept_from(order, choice, i);
    lemma_ascending_below(partials.dom(), 0x1_0000_0000_0000_0000);
    assert(order.contains(order[at]));
    assert(partials.contains_key(order[at]));
}

/// The data of events is read as chunks one by one: an end mark is none, JSON is one more, and
/// anything else is an error that stays.
pub proof fn law_messages_are_read_one_by_one(messages: Seq<Seq<char>>, data: Seq<char>)
    ensures
        chunks_of(Seq::empty()) == Ok::<Seq<JsonValue>, Seq<char>>(Seq::empty()),
        match chunks_of(messages) {
            Err(first) => chunks_of(messages.push(data)) == Err::<Seq<JsonValue>, Seq<char>>(first),
            Ok(chunks) => if data == "[DONE]"@ {
                chunks_of(messages.push(data)) == Ok::<Seq<JsonValue>, Seq<char>>(chunks)
            } else {
                match json::json_of_text(data) {
                    Some(chunk) => chunks_of(messages.push(data)) == Ok::<
                        Seq<JsonValue>,
                        Seq<char>,
                    >(chunks.push(chunk)),
                    None => chunks_of(messages.push(data)) == Err::<Seq<JsonValue>, Seq<char>>(
                        data,
                    ),
                }
            },
        },
{
    assert(messages.push(data).drop_last() =~= messages);
}

/// A body is read as what it holds: a stream as the chunks that its messages are, with the first
/// message that is no JSON named in the error, and any other body as the JSON that it is.
pub proof fn law_bodies_are_read_as_what_they_hold(body: Seq<char>)
    ensures
        match chunks_of(sse::data_messages(body)) {
            Ok(chunks) => streaming_outcome(body) == Ok::<OutputValue, ErrorValue>(
                finished(after_chunks(chunks)),
            ),
            Err(data) => streaming_outcome(body) == Err::<OutputValue, ErrorValue>(
                ErrorValue::ChunkNotJson(data),
            ),
        },
        match json::json_of_text(body) {
            Some(reply) => unary_outcome(body) == reply_outcome(reply),
            None => unary_outcome(body) == Err::<OutputValue, ErrorValue>(
                ErrorValue::ReplyNotJson,
            ),
        },
{
}

/// The deltas of chunks and one chunk more.
proof fn lemma_deltas_push(chunks: Seq<JsonValue>, chunk: JsonValue)
    ensures
        all_deltas(chunks.push(chunk)) == all_deltas(chunks) + chunk_deltas(chunk),
{
    assert(chunks.push(chunk).drop_last() =~= chunks);
}

/// A chunk with several choices adds what these choices add one by one: a chunk with one choice more
/// adds as much as the chunk without it and then one with that choice alone.
pub proof fn law_choices_add_one_by_one(
    chunks: Seq<JsonValue>,
    fewer: JsonValue,
    more: JsonValue,
    single: JsonValue,
    choices: Seq<JsonValue>,
    choice: JsonValue,
)
    requires
        fewer.get_array("choices"@) == Some(choices),
        more.get_array("choices"@) == Some(choices.push(choice)),
        single.get_array("choices"@) == Some(seq![choice]),
    ensures
        finished(after_chunks(chunks.push(more))).content == finished(
            after_chunks(chunks.push(fewer).push(single)),
        ).content,
        finished(after_chunks(chunks.push(more))).tool_calls == finished(
            after_chunks(chunks.push(fewer).push(single)),
        ).tool_calls,
{
    let pick = |choice: JsonValue| choice_delta(choice);
    let none = Seq::<JsonValue>::empty();
    text::lemma_kept_push(choices, choice, pick);
    text::lemma_kept_push(none, choice, pick);
    assert(none.push(choice) =~= seq![choice]);
    lemma_deltas_push(chunks, more);
    lemma_deltas_push(chunks, fewer);
    lemma_deltas_push(chunks.push(fewer), single);
    lemma_chunks(chunks.push(more));
    lemma_chunks(chunks.push(fewer).push(single));
    assert(all_deltas(chunks.push(more)) =~= all_deltas(chunks.push(fewer).push(single)));
}

/// A chunk whose only choice lists several pieces of calls adds what these pieces add one by one: a
/// chunk with one piece more adds as much as the chunk without it and then one with that piece
/// alone. The piece belongs to the call whose index it gives, and where it gives none to the one
/// whose index is its place in the list.
pub proof fn law_pieces_add_one_by_one(
    chunks: Seq<JsonValue>,
    fewer: JsonValue,
    more: JsonValue,
    single: JsonValue,
    deltas: Seq<JsonValue>,
    pieces: Seq<JsonValue>,
    piece: JsonValue,
    alone: JsonValue,
)
    requires
        deltas.len() == 3,
        pieces.len() <= u64::MAX,
        fewer.get_array("choices"@) matches Some(choices) && choices.len() == 1
            && choices[0].get("delta"@) == Some(deltas[0]),
        more.get_array("choices"@) matches Some(choices) && choices.len() == 1
            && choices[0].get("delta"@) == Some(deltas[1]),
        single.get_array("choices"@) matches Some(choices) && choices.len() == 1
            && choices[0].get("delta"@) == Some(deltas[2]),
        deltas[0].get_array("tool_calls"@) == Some(pieces),
        deltas[1].get_array("tool_calls"@) == Some(pieces.push(piece)),
        deltas[2].get_array("tool_calls"@) == Some(seq![alone]),
        alone.get("index"@) == Some(
            match piece.get("index"@) {
                Some(JsonValue::Int(n)) => if 0 <= n <= u64::MAX {
                    JsonValue::Int(n)
                } else {
                    JsonValue::Int(pieces.len() as int)
                },
                _ => JsonValue::Int(pieces.len() as int),
            },
        ),
        alone.get("id"@) == piece.get("id"@),
        alone.get("function"@) == piece.get("function"@),
    ensures
        finished(after_chunks(chunks.push(more))).tool_calls == finished(
            after_chunks(chunks.push(fewer).push(single)),
        ).tool_calls,
{
    lemma_only_delta(fewer, deltas[0]);
    lemma_only_delta(more, deltas[1]);
    lemma_only_delta(single, deltas[2]);
    lemma_deltas_push(chunks, more);
    lemma_deltas_push(chunks, fewer);
    lemma_deltas_push(chunks.push(fewer), single);
    lemma_chunks(chunks.push(more));
    lemma_chunks(chunks.push(fewer).push(single));
    let given = all_deltas(chunks);
    assert(given + seq![deltas[1]] =~= given.push(deltas[1]));
    assert(given + seq![deltas[0]] =~= given.push(deltas[0]));
    let middle = given.push(deltas[0]);
    assert(middle + seq![deltas[2]] =~= middle.push(deltas[2]));
    assert(given.push(deltas[1]).drop_last() =~= given);
    assert(middle.drop_last() =~= given);
    assert(middle.push(deltas[2]).drop_last() =~= middle);
    assert(pieces.push(piece).drop_last() =~= pieces);
    assert(seq![alone].drop_last() =~= Seq::empty());
    let merged = merge_pieces(all_partials(given), pieces);
    assert(all_partials(middle) == merged);
    let index = call_index(piece, pieces.len() as int);
    assert(call_index(alone, 0) == index);
    assert(extended(partial_at(merged, index), piece) == extended(
        partial_at(merged, index),
        alone,
    ));
    reveal_with_fuel(merge_pieces, 2);
    assert(merge_pieces(merged, seq![alone]) == merge_pieces(all_partials(given), pieces.push(piece)));
}

/// A chunk whose only choice has a delta has this delta.
proof fn lemma_only_delta(chunk: JsonValue, delta: JsonValue)
    requires
        chunk.get_array("choices"@) matches Some(choices) && choices.len() == 1
            && choices[0].get("delta"@) == Some(delta),
    ensures
        chunk_deltas(chunk) == seq![delta],
{
    let choices = chunk.get_array("choices"@)->Some_0;
    let pick = |choice: JsonValue| choice_delta(choice);
    text::lemma_kept_first(choices[0], Seq::empty(), pick);
    assert(choices =~= seq![choices[0]] + Seq::empty());
    assert(pick(choices[0]) == Some(delta));
    assert(chunk_deltas(chunk) =~= seq![delta]);
}

} // verus!
