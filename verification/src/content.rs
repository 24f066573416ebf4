//! The text of message contents, tool arguments and tool outputs.

use vstd::prelude::*;

use crate::json;
use crate::json::{Json, JsonValue};
use crate::text;

verus! {

/// A value as text: a string as it is, nothing for null, anything else as JSON.
pub open spec fn value_text(value: JsonValue) -> Seq<char> {
    match value {
        JsonValue::Str(text) => text,
        JsonValue::Null => Seq::empty(),
        other => json::json_text(other),
    }
}

/// Tool arguments as text: a string as it is, anything else as JSON.
pub open spec fn arguments_text(value: JsonValue) -> Seq<char> {
    match value {
        JsonValue::Str(text) => text,
        other => json::json_text(other),
    }
}

/// The text that one item of a content list contributes: its `text`, else its `content`.
pub open spec fn item_text(item: JsonValue) -> Option<Seq<char>> {
    match item.get_str("text"@) {
        Some(text) => Some(text),
        None => item.get_str("content"@),
    }
}

/// The text of a message content.
///
/// A list is the texts of its items, one per line; an object is its `text`, where it has one.
pub open spec fn content_text(value: JsonValue) -> Seq<char> {
    match value {
        JsonValue::Array(items) => text::joined(
            text::kept(items, |item: JsonValue| item_text(item)),
            "\n"@,
        ),
        JsonValue::Object(_) => match value.get_str("text"@) {
            Some(text) => text,
            None => value_text(value),
        },
        other => value_text(other),
    }
}

/// The text of a tool output: a list as a message content, anything else as a plain value.
pub open spec fn function_output_text(value: JsonValue) -> Seq<char> {
    match value {
        JsonValue::Array(_) => content_text(value),
        other => value_text(other),
    }
}

/// Gives a value as text.
pub fn value_to_text(value: &Json) -> (text: String)
    ensures
        text@ == value_text(value@),
{
    match value {
        Json::Str(text) => text.clone(),
        Json::Null => String::new(),
        _ => value.to_text(),
    }
}

/// Gives tool arguments as text.
pub fn arguments_to_string(value: &Json) -> (text: String)
    ensures
        text@ == arguments_text(value@),
{
    match value {
        Json::Str(text) => text.clone(),
        _ => value.to_text(),
    }
}

/// Gives the text of a message content.
pub fn content_items_to_text(value: &Json) -> (text: String)
    ensures
        text@ == content_text(value@),
{
    match value {
        Json::Array(items) => {
            let mut texts: Vec<String> = Vec::new();
            let ghost values = json::items_value(items@);
            let ghost choice = |item: JsonValue| item_text(item);
            for i in 0..items.len()
                invariant
                    values == json::items_value(items@),
                    choice == (|item: JsonValue| item_text(item)),
                    text::texts_view(texts@) == text::kept(values.take(i as int), choice),
            {
                let ghost before = text::texts_view(texts@);
                proof {
                    text::lemma_kept_one_more(values, choice, i as int);
                }
                let item = &items[i];
                let found = match item.get_str("text") {
                    Some(text) => Some(text),
                    None => item.get_str("content"),
                };
                if let Some(text) = found {
                    texts.push(text.to_owned());
                    assert(text::texts_view(texts@) =~= before.push(text@));
                }
            }
            assert(values.take(items@.len() as int) =~= values);
            text::join(&texts, "\n")
        },
        Json::Object(_) => match value.get_str("text") {
            Some(text) => text.to_owned(),
            None => value_to_text(value),
        },
        _ => value_to_text(value),
    }
}

/// Gives the text of a tool output.
pub fn function_output_to_text(value: &Json) -> (text: String)
    ensures
        text@ == function_output_text(value@),
{
    match value {
        Json::Array(_) => content_items_to_text(value),
        _ => value_to_text(value),
    }
}

// ---------------------------------------------------------------------------------------------
// Laws
// ---------------------------------------------------------------------------------------------

/// A text is itself, wherever it stands: as a value, as content, as an output and as arguments.
pub proof fn law_texts_stay_as_they_are(given: Seq<char>)
    ensures
        value_text(JsonValue::Str(given)) == given,
        content_text(JsonValue::Str(given)) == given,
        function_output_text(JsonValue::Str(given)) == given,
        arguments_text(JsonValue::Str(given)) == given,
{
}

/// Null is no text at all, except among arguments, where it is written as JSON.
pub proof fn law_null_is_no_text()
    ensures
        value_text(JsonValue::Null).len() == 0,
        content_text(JsonValue::Null).len() == 0,
        function_output_text(JsonValue::Null).len() == 0,
        arguments_text(JsonValue::Null) == json::json_text(JsonValue::Null),
{
}

/// A value that is no text and not null is written as JSON, as a value and as arguments. So is
/// content, unless it is a list or an object with a text; that text is then the content. So is an
/// output, unless it is a list; a list is then read as content.
pub proof fn law_other_values_are_written_as_json(value: JsonValue)
    requires
        !(value is Str),
        !(value is Null),
    ensures
        value_text(value) == json::json_text(value),
        arguments_text(value) == json::json_text(value),
        !(value is Array) ==> function_output_text(value) == json::json_text(value),
        value is Array ==> function_output_text(value) == content_text(value),
        !(value is Array) ==> match value.get("text"@) {
            Some(JsonValue::Str(text)) => content_text(value) == text,
            _ => content_text(value) == json::json_text(value),
        },
{
}

/// A list in which every item has a text is these texts, one per line.
pub proof fn law_listed_texts_are_lines(items: Seq<JsonValue>, texts: Seq<Seq<char>>)
    requires
        items.len() == texts.len(),
        forall|i: int|
            0 <= i < items.len() ==> (#[trigger] items[i]).get_str("text"@) == Some(texts[i]) || (
            items[i].get_str("text"@) is None && items[i].get_str("content"@) == Some(texts[i])),
    ensures
        content_text(JsonValue::Array(items)) == text::joined(texts, "\n"@),
{
    lemma_listed_texts(items, texts);
}

/// What is kept of a list in which every item has a text.
proof fn lemma_listed_texts(items: Seq<JsonValue>, texts: Seq<Seq<char>>)
    requires
        items.len() == texts.len(),
        forall|i: int|
            0 <= i < items.len() ==> (#[trigger] items[i]).get_str("text"@) == Some(texts[i]) || (
            items[i].get_str("text"@) is None && items[i].get_str("content"@) == Some(texts[i])),
    ensures
        text::kept(items, |item: JsonValue| item_text(item)) == texts,
    decreases items.len(),
{
    let choice = |item: JsonValue| item_text(item);
    if items.len() > 0 {
        let (before, others) = (items.drop_last(), texts.drop_last());
        assert forall|i: int| 0 <= i < before.len() implies (#[trigger] before[i]).get_str("text"@)
            == Some(others[i]) || (before[i].get_str("text"@) is None && before[i].get_str(
            "content"@,
        ) == Some(others[i])) by {
            assert(before[i] == items[i]);
        }
        lemma_listed_texts(before, others);
        let last = items[items.len() - 1];
        assert(last.get_str("text"@) == Some(texts.last()) || (last.get_str("text"@) is None
            && last.get_str("content"@) == Some(texts.last())));
        assert(choice(last) == Some(texts.last()));
    }
    assert(text::kept(items, choice) =~= texts);
}

/// An item of a list that has no text changes nothing, wherever it stands.
pub proof fn law_items_without_text_change_nothing(
    before: Seq<JsonValue>,
    item: JsonValue,
    after: Seq<JsonValue>,
)
    requires
        item.get_str("text"@) is None,
        item.get_str("content"@) is None,
    ensures
        content_text(JsonValue::Array(before.push(item) + after)) == content_text(
            JsonValue::Array(before + after),
        ),
{
    lemma_kept_without(before, item, after);
}

/// What is kept of a list with an item that is not kept.
proof fn lemma_kept_without(before: Seq<JsonValue>, item: JsonValue, after: Seq<JsonValue>)
    requires
        item.get_str("text"@) is None,
        item.get_str("content"@) is None,
    ensures
        text::kept(before.push(item) + after, |item: JsonValue| item_text(item)) == text::kept(
            before + after,
            |item: JsonValue| item_text(item),
        ),
    decreases after.len(),
{
    let choice = |item: JsonValue| item_text(item);
    let (more, fewer) = (before.push(item) + after, before + after);
    if after.len() == 0 {
        assert(more =~= before.push(item));
        assert(fewer =~= before);
        text::lemma_kept_push(before, item, choice);
        assert(choice(item) is None);
    } else {
        lemma_kept_without(before, item, after.drop_last());
        assert(more.drop_last() =~= before.push(item) + after.drop_last());
        assert(fewer.drop_last() =~= before + after.drop_last());
        assert(more.last() == fewer.last());
    }
}

} // verus!
