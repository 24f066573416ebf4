//! The input of custom tools.
//!
//! A custom tool takes raw text. To a model it is a function with one parameter, `input`.

use vstd::prelude::*;

use crate::json;
use crate::json::{Json, JsonValue};

verus! {

/// The arguments that carry the input of a custom tool.
pub open spec fn custom_arguments(input: Seq<char>) -> JsonValue {
    JsonValue::object().with("input"@, JsonValue::Str(input))
}

/// The input that arguments carry: their `input`, where they are read as the value given and it
/// has such a text; else the arguments as they stand.
pub open spec fn carried_input(arguments: Seq<char>, read: Option<JsonValue>) -> Seq<char> {
    match read {
        Some(value) => match value.get_str("input"@) {
            Some(input) => input,
            None => arguments,
        },
        None => arguments,
    }
}

/// The input of a custom tool that a model called with the given arguments.
pub open spec fn custom_input(arguments: Seq<char>) -> Seq<char> {
    carried_input(arguments, json::json_of_text(arguments))
}

/// Puts the input of a custom tool into arguments, from which it is read back unchanged.
pub fn custom_tool_arguments(input: &str) -> (arguments: String)
    ensures
        arguments@ == json::json_text(custom_arguments(input@)),
        custom_input(arguments@) == input@,
{
    let value = Json::object().with("input", Json::text(input));
    let arguments = value.to_text();
    proof {
        reveal_with_fuel(json::exact, 2);
        assert(json::exact(value@, 127));
    }
    arguments
}

/// Picks the input out of arguments that were read as the value given.
pub fn input_of_arguments(arguments: &str, read: &Option<Json>) -> (input: String)
    ensures
        input@ == carried_input(
            arguments@,
            match read {
                Some(value) => Some(value@),
                None => None,
            },
        ),
{
    if let Some(value) = read {
        if let Some(input) = value.get_str("input") {
            return input.to_owned();
        }
    }
    arguments.to_owned()
}

/// Gives the input of a custom tool that a model called with the given arguments.
pub fn custom_tool_input(arguments: &str) -> (input: String)
    ensures
        input@ == custom_input(arguments@),
{
    input_of_arguments(arguments, &Json::from_text(arguments))
}

// ---------------------------------------------------------------------------------------------
// Laws
// ---------------------------------------------------------------------------------------------

/// The input of a custom tool is the text under `input`, where the arguments are JSON that has one;
/// else it is the arguments as they are.
pub proof fn law_input_of_arguments(arguments: Seq<char>)
    ensures
        match json::json_of_text(arguments) {
            Some(read) => match read.get("input"@) {
                Some(JsonValue::Str(input)) => custom_input(arguments) == input,
                _ => custom_input(arguments) == arguments,
            },
            None => custom_input(arguments) == arguments,
        },
{
}

/// The arguments of a custom tool are an object whose only member is the input.
pub proof fn law_input_is_the_only_argument(input: Seq<char>)
    ensures
        custom_arguments(input).has_keys(set!["input"@]),
        custom_arguments(input).get_str("input"@) == Some(input),
{
}

} // verus!
