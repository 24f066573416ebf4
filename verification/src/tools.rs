//! Tool declarations: from the forms that the Responses API knows to function tools.

use vstd::prelude::*;

use crate::json;
use crate::json::{Json, JsonValue};
use crate::names::NameSet;
use crate::text;

verus! {

/// A function tool with the given name, description and parameters.
pub open spec fn function_tool(
    name: Seq<char>,
    description: Seq<char>,
    parameters: JsonValue,
) -> JsonValue {
    JsonValue::object().with("type"@, JsonValue::Str("function"@)).with(
        "function"@,
        JsonValue::object().with("name"@, JsonValue::Str(name)).with(
            "description"@,
            JsonValue::Str(description),
        ).with("parameters"@, parameters),
    )
}

/// A text, or another in its place where there is none.
pub open spec fn text_or(text: Option<Seq<char>>, other: Seq<char>) -> Seq<char> {
    match text {
        Some(text) => text,
        None => other,
    }
}

/// The parameters that a tool declares: none, unless it says so.
pub open spec fn tool_parameters(tool: JsonValue) -> JsonValue {
    match tool.get("parameters"@) {
        Some(parameters) => parameters,
        None => JsonValue::object(),
    }
}

/// The function tool that a plain tool becomes, under its own name or the one given. A tool
/// without a name becomes none.
pub open spec fn plain_tool(tool: JsonValue, name_override: Option<Seq<char>>) -> Option<
    JsonValue,
> {
    let name = match name_override {
        Some(name) => Some(name),
        None => tool.get_str("name"@),
    };
    match name {
        Some(name) => Some(
            function_tool(
                name,
                text_or(tool.get_str("description"@), Seq::empty()),
                tool_parameters(tool),
            ),
        ),
        None => None,
    }
}

/// The name of a tool in a namespace: with the namespace in front, unless it begins with it.
pub open spec fn namespaced_name(namespace: Seq<char>, name: Seq<char>) -> Seq<char> {
    if namespace.is_prefix_of(name) {
        name
    } else {
        namespace + name
    }
}

/// The description of a tool in a namespace: that of the namespace, a blank line, its own.
pub open spec fn namespaced_description(
    prefix: Option<Seq<char>>,
    description: Option<Seq<char>>,
) -> Seq<char> {
    match prefix {
        Some(prefix) => match description {
            Some(description) => if description.len() > 0 {
                prefix + "\n\n"@ + description
            } else {
                prefix
            },
            None => prefix,
        },
        None => text_or(description, Seq::empty()),
    }
}

/// The function tool that a tool in a namespace becomes. A tool without a name becomes none.
pub open spec fn namespaced_tool(
    tool: JsonValue,
    namespace: Seq<char>,
    prefix: Option<Seq<char>>,
) -> Option<JsonValue> {
    match tool.get_str("name"@) {
        Some(name) => Some(
            function_tool(
                namespaced_name(namespace, name),
                namespaced_description(prefix, tool.get_str("description"@)),
                tool_parameters(tool),
            ),
        ),
        None => None,
    }
}

/// A description that is put in front of others: none, where it is empty.
pub open spec fn description_prefix(description: Seq<char>) -> Option<Seq<char>> {
    if description.len() > 0 {
        Some(description)
    } else {
        None
    }
}

/// The parameters of a custom tool: one string.
pub open spec fn custom_parameters() -> JsonValue {
    JsonValue::object().with("type"@, JsonValue::Str("object"@)).with(
        "properties"@,
        JsonValue::object().with(
            "input"@,
            JsonValue::object().with("type"@, JsonValue::Str("string"@)).with(
                "description"@,
                JsonValue::Str("Raw input for the custom tool."@),
            ),
        ),
    ).with("required"@, JsonValue::Array(seq![JsonValue::Str("input"@)])).with(
        "additionalProperties"@,
        JsonValue::Bool(false),
    )
}

/// An item as a sequence of one, or of none.
pub open spec fn one_or_none(item: Option<JsonValue>) -> Seq<JsonValue> {
    match item {
        Some(item) => seq![item],
        None => Seq::empty(),
    }
}

/// The name that a custom tool declares. Any other tool declares none.
pub open spec fn custom_name(tool: JsonValue) -> Option<Seq<char>> {
    if tool.get_str("type"@) == Some("custom"@) {
        tool.get_str("name"@)
    } else {
        None
    }
}

/// The function tools that a tool becomes.
pub open spec fn tools_of(tool: JsonValue) -> Seq<JsonValue> {
    let kind = tool.get_str("type"@);
    if kind == Some("function"@) {
        one_or_none(plain_tool(tool, None))
    } else if kind == Some("namespace"@) {
        let namespace = text_or(tool.get_str("name"@), Seq::empty());
        let prefix = description_prefix(text_or(tool.get_str("description"@), Seq::empty()));
        match tool.get_array("tools"@) {
            Some(tools) => text::kept(
                tools,
                |one: JsonValue| namespaced_tool(one, namespace, prefix),
            ),
            None => Seq::empty(),
        }
    } else if kind == Some("custom"@) {
        match tool.get_str("name"@) {
            Some(name) => seq![
                function_tool(
                    name,
                    text_or(tool.get_str("description"@), Seq::empty()),
                    custom_parameters(),
                ),
            ],
            None => Seq::empty(),
        }
    } else if kind == Some("tool_search"@) {
        seq![
            function_tool(
                "tool_search"@,
                text_or(tool.get_str("description"@), "Search available tools."@),
                tool_parameters(tool),
            ),
        ]
    } else {
        Seq::empty()
    }
}

/// The function tools that a list of tools becomes.
pub open spec fn chat_tools(tools: Seq<JsonValue>) -> Seq<JsonValue>
    decreases tools.len(),
{
    if tools.len() == 0 {
        Seq::empty()
    } else {
        chat_tools(tools.drop_last()) + tools_of(tools.last())
    }
}

/// The names of the custom tools in a list.
pub open spec fn custom_names(tools: Seq<JsonValue>) -> Set<Seq<char>>
    decreases tools.len(),
{
    if tools.len() == 0 {
        Set::empty()
    } else {
        match custom_name(tools.last()) {
            Some(name) => custom_names(tools.drop_last()).insert(name),
            None => custom_names(tools.drop_last()),
        }
    }
}

/// Makes a function tool.
pub fn chat_function_tool(name: &str, description: &str, parameters: Json) -> (tool: Json)
    ensures
        tool@ == function_tool(name@, description@, parameters@),
{
    Json::object().with("type", Json::text("function")).with(
        "function",
        Json::object().with("name", Json::text(name)).with(
            "description",
            Json::text(description),
        ).with("parameters", parameters),
    )
}

/// Gives the parameters that a tool declares.
fn parameters_of(tool: &Json) -> (parameters: Json)
    ensures
        parameters@ == tool_parameters(tool@),
{
    match tool.get("parameters") {
        Some(parameters) => parameters.clone(),
        None => Json::object(),
    }
}

/// Gives the text of a member, or another text where there is none.
fn member_or<'a>(tool: &'a Json, key: &str, other: &'a str) -> (found: &'a str)
    ensures
        found@ == text_or(tool@.get_str(key@), other@),
{
    match tool.get_str(key) {
        Some(found) => found,
        None => other,
    }
}

/// Makes a function tool of a plain tool, under its own name or the one given.
pub fn convert_function_tool(tool: &Json, name_override: Option<String>) -> (converted: Option<
    Json,
>)
    ensures
        ({
            let given = match name_override {
                Some(name) => Some(name@),
                None => None,
            };
            match converted {
                Some(converted) => plain_tool(tool@, given) == Some(converted@),
                None => plain_tool(tool@, given) is None,
            }
        }),
{
    proof {
        reveal_strlit("");
        assert(""@ =~= Seq::<char>::empty());
    }
    let name: String = match name_override {
        Some(name) => name,
        None => match tool.get_str("name") {
            Some(name) => name.to_owned(),
            None => {
                return None;
            },
        },
    };
    let description = member_or(tool, "description", "");
    Some(chat_function_tool(name.as_str(), description, parameters_of(tool)))
}

/// Makes a function tool of a tool in a namespace.
pub fn convert_function_tool_with_namespace(
    tool: &Json,
    namespace_name: &str,
    description_prefix: Option<&str>,
) -> (converted: Option<Json>)
    ensures
        ({
            let prefix = match description_prefix {
                Some(prefix) => Some(prefix@),
                None => None,
            };
            match converted {
                Some(converted) => namespaced_tool(tool@, namespace_name@, prefix) == Some(
                    converted@,
                ),
                None => namespaced_tool(tool@, namespace_name@, prefix) is None,
            }
        }),
{
    let tool_name = match tool.get_str("name") {
        Some(name) => name,
        None => {
            return None;
        },
    };
    let name = if text::begins_with(tool_name, namespace_name) {
        tool_name.to_owned()
    } else {
        let mut name = namespace_name.to_owned();
        name.push_str(tool_name);
        name
    };
    let description = match (description_prefix, tool.get_str("description")) {
        (Some(prefix), Some(description)) => {
            let mut whole = prefix.to_owned();
            if !description.is_empty() {
                whole.push_str("\n\n");
                whole.push_str(description);
            }
            whole
        },
        (Some(prefix), None) => prefix.to_owned(),
        (None, Some(description)) => description.to_owned(),
        (None, None) => String::new(),
    };
    Some(chat_function_tool(name.as_str(), description.as_str(), parameters_of(tool)))
}

/// Makes the parameters of a custom tool.
fn parameters_of_custom() -> (parameters: Json)
    ensures
        parameters@ == custom_parameters(),
{
    Json::object().with("type", Json::text("object")).with(
        "properties",
        Json::object().with(
            "input",
            Json::object().with("type", Json::text("string")).with(
                "description",
                Json::text("Raw input for the custom tool."),
            ),
        ),
    ).with("required", Json::only(Json::text("input"))).with(
        "additionalProperties",
        Json::Bool(false),
    )
}

/// Makes the function tools of the tools in a namespace, and appends them to a list.
fn convert_namespace(tool: &Json, chat_tools: &mut Vec<Json>)
    requires
        tool@.get_str("type"@) == Some("namespace"@),
    ensures
        json::items_value(final(chat_tools)@) == json::items_value(old(chat_tools)@) + tools_of(
            tool@,
        ),
{
    proof {
        reveal_strlit("");
        assert(""@ =~= Seq::<char>::empty());
        reveal_strlit("namespace");
        reveal_strlit("function");
        assert("namespace"@.len() == 9);
        assert("function"@.len() == 8);
    }
    let namespace_name = member_or(tool, "name", "");
    let namespace_description = member_or(tool, "description", "");
    let prefix = if namespace_description.is_empty() {
        None
    } else {
        Some(namespace_description)
    };
    let ghost prefix_view = description_prefix(namespace_description@);
    let ghost given = json::items_value(chat_tools@);
    if let Some(tools) = tool.get_array("tools") {
        let ghost values = json::items_value(tools@);
        let ghost choice = |one: JsonValue| namespaced_tool(one, namespace_name@, prefix_view);
        assert(given + text::kept(values.take(0), choice) =~= given);
        for i in 0..tools.len()
            invariant
                values == json::items_value(tools@),
                choice == (|one: JsonValue| namespaced_tool(one, namespace_name@, prefix_view)),
                prefix_view == (match prefix {
                    Some(prefix) => Some(prefix@),
                    None => None,
                }),
                json::items_value(chat_tools@) == given + text::kept(values.take(i as int), choice),
        {
            let ghost before = json::items_value(chat_tools@);
            proof {
                text::lemma_kept_one_more(values, choice, i as int);
            }
            if let Some(converted) = convert_function_tool_with_namespace(
                &tools[i],
                namespace_name,
                prefix,
            ) {
                chat_tools.push(converted);
                assert(json::items_value(chat_tools@) =~= before.push(converted@));
            }
            assert(json::items_value(chat_tools@) =~= given + text::kept(
                values.take(i + 1),
                choice,
            ));
        }
        assert(values.take(tools@.len() as int) =~= values);
    } else {
        assert(given + Seq::<JsonValue>::empty() =~= given);
    }
}

/// Makes function tools of a list of tools, and notes the names of the custom ones.
pub fn convert_responses_tools(tools: &Vec<Json>, custom_tool_names: &mut NameSet) -> (converted:
    Vec<Json>)
    ensures
        json::items_value(converted@) == chat_tools(json::items_value(tools@)),
        final(custom_tool_names)@ == old(custom_tool_names)@.union(
            custom_names(json::items_value(tools@)),
        ),
{
    let mut converted: Vec<Json> = Vec::new();
    let ghost values = json::items_value(tools@);
    let ghost given = custom_tool_names@;
    proof {
        reveal_strlit("");
        assert(""@ =~= Seq::<char>::empty());
        assert(given.union(custom_names(values.take(0))) =~= given);
        assert(json::items_value(converted@) =~= chat_tools(values.take(0)));
    }
    for i in 0..tools.len()
        invariant
            values == json::items_value(tools@),
            ""@ == Seq::<char>::empty(),
            json::items_value(converted@) == chat_tools(values.take(i as int)),
            custom_tool_names@ == given.union(custom_names(values.take(i as int))),
    {
        let ghost before = json::items_value(converted@);
        let ghost names = custom_tool_names@;
        let tool = &tools[i];
        let kind = tool.get_str("type");
        assert(tool@ == values[i as int]);
        proof {
            reveal_strlit("function");
            reveal_strlit("namespace");
            reveal_strlit("custom");
            reveal_strlit("tool_search");
            assert("function"@.len() == 8 && "namespace"@.len() == 9 && "custom"@.len() == 6
                && "tool_search"@.len() == 11);
            assert(values.take(i + 1).drop_last() =~= values.take(i as int));
        }
        if let Some(kind) = kind {
            if text::same_text(kind, "function") {
                if let Some(one) = convert_function_tool(tool, None) {
                    converted.push(one);
                }
            } else if text::same_text(kind, "namespace") {
                convert_namespace(tool, &mut converted);
            } else if text::same_text(kind, "custom") {
                if let Some(name) = tool.get_str("name") {
                    custom_tool_names.insert(name);
                    let description = member_or(tool, "description", "");
                    converted.push(chat_function_tool(name, description, parameters_of_custom()));
                }
            } else if text::same_text(kind, "tool_search") {
                let description = member_or(tool, "description", "Search available tools.");
                converted.push(
                    chat_function_tool("tool_search", description, parameters_of(tool)),
                );
            }
        }
        assert(json::items_value(converted@) =~= before + tools_of(tool@));
        assert(custom_tool_names@ =~= given.union(custom_names(values.take(i + 1))));
    }
    assert(values.take(tools@.len() as int) =~= values);
    converted
}

// ---------------------------------------------------------------------------------------------
// Laws
// ---------------------------------------------------------------------------------------------

/// The names of custom tools are those under which custom tools are declared.
pub proof fn law_custom_names_are_those_declared(declared: Seq<JsonValue>, name: Seq<char>)
    ensures
        custom_names(declared).contains(name) <==> exists|i: int|
            0 <= i < declared.len() && custom_name(#[trigger] declared[i]) == Some(name),
    decreases declared.len(),
{
    if declared.len() > 0 {
        let before = declared.drop_last();
        law_custom_names_are_those_declared(before, name);
        if custom_names(before).contains(name) {
            let i = choose|i: int|
                0 <= i < before.len() && custom_name(#[trigger] before[i]) == Some(name);
            assert(declared[i] == before[i]);
        }
        if custom_name(declared.last()) == Some(name) {
            assert(declared[declared.len() - 1] == declared.last());
        }
        if exists|i: int|
            0 <= i < declared.len() && custom_name(#[trigger] declared[i]) == Some(name) {
            let i = choose|i: int|
                0 <= i < declared.len() && custom_name(#[trigger] declared[i]) == Some(name);
            if i < before.len() {
                assert(before[i] == declared[i]);
            }
        }
    }
}

/// Whether a tool is a function tool with a name, a description and parameters.
pub open spec fn is_function_tool(tool: JsonValue) -> bool {
    exists|name: Seq<char>, description: Seq<char>, parameters: JsonValue|
        tool == #[trigger] function_tool(name, description, parameters)
}

/// Everything that a tool becomes is a function tool.
proof fn lemma_tools_of(tool: JsonValue, i: int)
    requires
        0 <= i < tools_of(tool).len(),
    ensures
        is_function_tool(tools_of(tool)[i]),
{
    let kind = tool.get_str("type"@);
    if kind != Some("function"@) && kind == Some("namespace"@) {
        let namespace = text_or(tool.get_str("name"@), Seq::empty());
        let prefix = description_prefix(text_or(tool.get_str("description"@), Seq::empty()));
        if let Some(tools) = tool.get_array("tools"@) {
            let choice = |one: JsonValue| namespaced_tool(one, namespace, prefix);
            let at = text::lemma_kept_from(tools, choice, i);
            assert(choice(tools[at]) == namespaced_tool(tools[at], namespace, prefix));
        }
    }
}

/// Whatever tools a request declares, the upstream is given function tools only.
pub proof fn law_tools_become_function_tools(tools: Seq<JsonValue>, i: int)
    requires
        0 <= i < chat_tools(tools).len(),
    ensures
        is_function_tool(chat_tools(tools)[i]),
    decreases tools.len(),
{
    let before = chat_tools(tools.drop_last());
    if i < before.len() {
        law_tools_become_function_tools(tools.drop_last(), i);
    } else {
        lemma_tools_of(tools.last(), i - before.len());
    }
}

/// Every custom tool that a request declares is given to the upstream as a function of the same
/// name that takes one text.
pub proof fn law_custom_tools_are_given(tools: Seq<JsonValue>, i: int, name: Seq<char>)
    requires
        0 <= i < tools.len(),
        custom_name(tools[i]) == Some(name),
    ensures
        chat_tools(tools).contains(
            function_tool(
                name,
                text_or(tools[i].get_str("description"@), Seq::empty()),
                custom_parameters(),
            ),
        ),
    decreases tools.len(),
{
    let before = chat_tools(tools.drop_last());
    let all = chat_tools(tools);
    let given = function_tool(
        name,
        text_or(tools[i].get_str("description"@), Seq::empty()),
        custom_parameters(),
    );
    if i < tools.len() - 1 {
        law_custom_tools_are_given(tools.drop_last(), i, name);
        let k = choose|k: int| 0 <= k < before.len() && before[k] == given;
        assert(all[k] == given);
    } else {
        reveal_strlit("function");
        reveal_strlit("namespace");
        reveal_strlit("custom");
        assert("function"@.len() == 8 && "namespace"@.len() == 9 && "custom"@.len() == 6);
        assert(tools_of(tools.last()) =~= seq![given]);
        assert(all[before.len() as int] == given);
    }
}

/// The name of a tool in a namespace begins with that of the namespace and ends with its own, and
/// putting it into the namespace again changes nothing.
pub proof fn law_namespaced_names(namespace: Seq<char>, name: Seq<char>)
    ensures
        namespace.is_prefix_of(namespaced_name(namespace, name)),
        name.is_suffix_of(namespaced_name(namespace, name)),
        namespaced_name(namespace, namespaced_name(namespace, name)) == namespaced_name(
            namespace,
            name,
        ),
{
    let whole = namespace + name;
    assert(whole.subrange(0, namespace.len() as int) =~= namespace);
    assert(whole.subrange(namespace.len() as int, whole.len() as int) =~= name);
    assert(name.subrange(0, name.len() as int) =~= name);
}

/// Whether a value is a function tool with the given name, description and parameters, and says
/// nothing else.
pub open spec fn declares(
    tool: JsonValue,
    name: Seq<char>,
    description: Seq<char>,
    parameters: JsonValue,
) -> bool {
    &&& tool.get_str("type"@) == Some("function"@)
    &&& tool.has_keys(set!["type"@, "function"@])
    &&& tool.get("function"@) matches Some(function) && {
        &&& function.get_str("name"@) == Some(name)
        &&& function.get_str("description"@) == Some(description)
        &&& function.get("parameters"@) == Some(parameters)
        &&& function.has_keys(set!["name"@, "description"@, "parameters"@])
    }
}

/// What a function tool has under its keys.
proof fn lemma_function_tool(name: Seq<char>, description: Seq<char>, parameters: JsonValue)
    ensures
        declares(function_tool(name, description, parameters), name, description, parameters),
{
    reveal_strlit("type");
    reveal_strlit("function");
    reveal_strlit("name");
    reveal_strlit("description");
    reveal_strlit("parameters");
    assert("type"@.len() == 4 && "function"@.len() == 8 && "name"@.len() == 4
        && "description"@.len() == 11 && "parameters"@.len() == 10);
}

/// The kinds of tools are different from each other.
proof fn lemma_tool_kinds()
    ensures
        "function"@ != "namespace"@,
        "function"@ != "custom"@,
        "function"@ != "tool_search"@,
        "namespace"@ != "custom"@,
        "namespace"@ != "tool_search"@,
        "custom"@ != "tool_search"@,
{
    reveal_strlit("function");
    reveal_strlit("namespace");
    reveal_strlit("custom");
    reveal_strlit("tool_search");
    assert("function"@.len() == 8 && "namespace"@.len() == 9 && "custom"@.len() == 6
        && "tool_search"@.len() == 11);
}

/// The function tools of a list and one tool more.
proof fn lemma_tools_push(tools: Seq<JsonValue>, tool: JsonValue)
    ensures
        chat_tools(tools.push(tool)) == chat_tools(tools) + tools_of(tool),
        custom_names(tools.push(tool)) == (match custom_name(tool) {
            Some(name) => custom_names(tools).insert(name),
            None => custom_names(tools),
        }),
{
    assert(tools.push(tool).drop_last() =~= tools);
}

/// Whether a list is another with one tool more at its end.
pub open spec fn one_tool_more(before: Seq<JsonValue>, after: Seq<JsonValue>) -> bool {
    after.len() == before.len() + 1 && after.drop_last() == before
}

/// A function tool with a name becomes one function tool behind those before it: with its own name,
/// its own description or an empty one, and the parameters that it declares or an empty object. It
/// is no custom tool.
pub proof fn law_function_tools_stay_as_they_are(
    tools: Seq<JsonValue>,
    tool: JsonValue,
    name: Seq<char>,
)
    requires
        tool.get_str("type"@) == Some("function"@),
        tool.get_str("name"@) == Some(name),
    ensures
        one_tool_more(chat_tools(tools), chat_tools(tools.push(tool))),
        declares(
            chat_tools(tools.push(tool)).last(),
            name,
            match tool.get_str("description"@) {
                Some(description) => description,
                None => Seq::empty(),
            },
            match tool.get("parameters"@) {
                Some(parameters) => parameters,
                None => JsonValue::Object(Map::empty()),
            },
        ),
        custom_names(tools.push(tool)) == custom_names(tools),
{
    lemma_tool_kinds();
    lemma_tools_push(tools, tool);
    lemma_function_tool(
        name,
        text_or(tool.get_str("description"@), Seq::empty()),
        tool_parameters(tool),
    );
    assert(chat_tools(tools.push(tool)).drop_last() =~= chat_tools(tools));
}

/// A custom tool with a name becomes one function tool behind those before it: with its own name,
/// its own description or an empty one, and one parameter, a text called `input` that has to be
/// given and beside which nothing can be given. Its name is remembered.
pub proof fn law_custom_tools_take_one_text(
    tools: Seq<JsonValue>,
    tool: JsonValue,
    name: Seq<char>,
)
    requires
        tool.get_str("type"@) == Some("custom"@),
        tool.get_str("name"@) == Some(name),
    ensures
        ({
            let after = chat_tools(tools.push(tool));
            let parameters = after.last().get("function"@)->Some_0.get("parameters"@)->Some_0;
            let properties = parameters.get("properties"@)->Some_0;
            let input = properties.get("input"@)->Some_0;
            &&& one_tool_more(chat_tools(tools), after)
            &&& declares(
                after.last(),
                name,
                match tool.get_str("description"@) {
                    Some(description) => description,
                    None => Seq::empty(),
                },
                parameters,
            )
            &&& parameters.has_keys(
                set!["type"@, "properties"@, "required"@, "additionalProperties"@],
            )
            &&& parameters.get_str("type"@) == Some("object"@)
            &&& parameters.get_array("required"@) == Some(seq![JsonValue::Str("input"@)])
            &&& parameters.get("additionalProperties"@) == Some(JsonValue::Bool(false))
            &&& properties.has_keys(set!["input"@])
            &&& input.has_keys(set!["type"@, "description"@])
            &&& input.get_str("type"@) == Some("string"@)
            &&& input.get_str("description"@) == Some("Raw input for the custom tool."@)
        }),
        custom_names(tools.push(tool)) == custom_names(tools).insert(name),
{
    lemma_tool_kinds();
    lemma_tools_push(tools, tool);
    lemma_function_tool(
        name,
        text_or(tool.get_str("description"@), Seq::empty()),
        custom_parameters(),
    );
    assert(chat_tools(tools.push(tool)).drop_last() =~= chat_tools(tools));
    reveal_strlit("type");
    reveal_strlit("properties");
    reveal_strlit("required");
    reveal_strlit("additionalProperties");
    reveal_strlit("input");
    reveal_strlit("description");
    assert("type"@.len() == 4 && "properties"@.len() == 10 && "required"@.len() == 8
        && "additionalProperties"@.len() == 20 && "input"@.len() == 5 && "description"@.len()
        == 11);
}

/// A tool search becomes one function tool of that name behind those before it: with its own
/// description or a usual one, and the parameters that it declares or an empty object.
pub proof fn law_tool_search_is_a_function_tool(tools: Seq<JsonValue>, tool: JsonValue)
    requires
        tool.get_str("type"@) == Some("tool_search"@),
    ensures
        one_tool_more(chat_tools(tools), chat_tools(tools.push(tool))),
        declares(
            chat_tools(tools.push(tool)).last(),
            "tool_search"@,
            match tool.get_str("description"@) {
                Some(description) => description,
                None => "Search available tools."@,
            },
            match tool.get("parameters"@) {
                Some(parameters) => parameters,
                None => JsonValue::Object(Map::empty()),
            },
        ),
        custom_names(tools.push(tool)) == custom_names(tools),
{
    lemma_tool_kinds();
    lemma_tools_push(tools, tool);
    lemma_function_tool(
        "tool_search"@,
        text_or(tool.get_str("description"@), "Search available tools."@),
        tool_parameters(tool),
    );
    assert(chat_tools(tools.push(tool)).drop_last() =~= chat_tools(tools));
}

/// Tools of any other kind, function and custom tools without a name and namespaces without tools
/// become nothing. No tools become no tools.
pub proof fn law_other_tools_become_nothing(tools: Seq<JsonValue>, tool: JsonValue)
    requires
        ({
            let kind = tool.get_str("type"@);
            ||| (kind == Some("function"@) || kind == Some("custom"@)) && tool.get_str("name"@)
                is None
            ||| kind == Some("namespace"@) && match tool.get_array("tools"@) {
                Some(inner) => inner.len() == 0,
                None => true,
            }
            ||| kind != Some("function"@) && kind != Some("namespace"@) && kind != Some("custom"@)
                && kind != Some("tool_search"@)
        }),
    ensures
        chat_tools(tools.push(tool)) == chat_tools(tools),
        custom_names(tools.push(tool)) == custom_names(tools),
        chat_tools(Seq::empty()).len() == 0,
        custom_names(Seq::empty()) == Set::<Seq<char>>::empty(),
{
    lemma_tool_kinds();
    lemma_tools_push(tools, tool);
    assert(chat_tools(tools.push(tool)) =~= chat_tools(tools));
}

/// A namespace with one tool more becomes one function tool more, where that tool has a name, and
/// stays the same where it has none. The tool gets its own name, with that of the namespace in front
/// unless it begins with it. Its description is that of the namespace, a blank line and its own; or
/// the one of both that is not empty. Its parameters are those that it declares, and an empty object
/// only where it declares none.
pub proof fn law_namespaced_tools_one_by_one(
    tools: Seq<JsonValue>,
    fewer: JsonValue,
    more: JsonValue,
    inner: Seq<JsonValue>,
    tool: JsonValue,
)
    requires
        fewer.get_str("type"@) == Some("namespace"@),
        more.get_str("type"@) == Some("namespace"@),
        fewer.get_str("name"@) == more.get_str("name"@),
        fewer.get_str("description"@) == more.get_str("description"@),
        fewer.get_array("tools"@) == Some(inner),
        more.get_array("tools"@) == Some(inner.push(tool)),
    ensures
        ({
            let before = chat_tools(tools.push(fewer));
            let after = chat_tools(tools.push(more));
            let namespace = match more.get_str("name"@) {
                Some(namespace) => namespace,
                None => Seq::empty(),
            };
            let prefix = match more.get_str("description"@) {
                Some(prefix) => prefix,
                None => Seq::empty(),
            };
            let own = match tool.get_str("description"@) {
                Some(own) => own,
                None => Seq::empty(),
            };
            match tool.get_str("name"@) {
                None => after == before,
                Some(name) => {
                    &&& one_tool_more(before, after)
                    &&& declares(
                        after.last(),
                        if name.len() >= namespace.len() && name.take(namespace.len() as int)
                            == namespace {
                            name
                        } else {
                            namespace + name
                        },
                        if prefix.len() == 0 {
                            own
                        } else if own.len() == 0 {
                            prefix
                        } else {
                            prefix + seq!['\n', '\n'] + own
                        },
                        match tool.get("parameters"@) {
                            Some(parameters) => parameters,
                            None => JsonValue::Object(Map::empty()),
                        },
                    )
                },
            }
        }),
        custom_names(tools.push(more)) == custom_names(tools),
{
    lemma_tool_kinds();
    lemma_tools_push(tools, fewer);
    lemma_tools_push(tools, more);
    reveal_strlit("\n\n");
    assert("\n\n"@ =~= seq!['\n', '\n']);
    let namespace = text_or(more.get_str("name"@), Seq::empty());
    let prefix = description_prefix(text_or(more.get_str("description"@), Seq::empty()));
    let choice = |one: JsonValue| namespaced_tool(one, namespace, prefix);
    text::lemma_kept_push(inner, tool, choice);
    let before = chat_tools(tools.push(fewer));
    let after = chat_tools(tools.push(more));
    assert(choice(tool) == namespaced_tool(tool, namespace, prefix));
    if let Some(name) = tool.get_str("name"@) {
        let description = namespaced_description(prefix, tool.get_str("description"@));
        lemma_function_tool(namespaced_name(namespace, name), description, tool_parameters(tool));
        assert(namespace.is_prefix_of(name) <==> (name.len() >= namespace.len() && name.take(
            namespace.len() as int,
        ) == namespace));
        let own = text_or(tool.get_str("description"@), Seq::empty());
        assert(own.len() == 0 ==> own =~= Seq::empty());
        assert(after.drop_last() =~= before);
        assert(after.last() == function_tool(
            namespaced_name(namespace, name),
            description,
            tool_parameters(tool),
        ));
    } else {
        assert(after =~= before);
    }
}

/// A namespace of one tool with a name becomes one function tool, with the parameters that the tool
/// declares.
pub proof fn law_namespaced_tools_keep_their_parameters(
    namespace: JsonValue,
    tool: JsonValue,
    parameters: JsonValue,
)
    requires
        namespace.get_str("type"@) == Some("namespace"@),
        namespace.get_array("tools"@) == Some(seq![tool]),
        tool.get_str("name"@) is Some,
        tool.get("parameters"@) == Some(parameters),
    ensures
        ({
            let given = chat_tools(seq![namespace]);
            &&& given.len() == 1
            &&& given[0].get("function"@) matches Some(function) && function.get("parameters"@)
                == Some(parameters)
        }),
{
    let none = JsonValue::Array(Seq::empty());
    let empty = namespace.with("tools"@, none);
    reveal_strlit("tools");
    reveal_strlit("type");
    reveal_strlit("name");
    reveal_strlit("description");
    assert("tools"@.len() == 5 && "type"@.len() == 4 && "name"@.len() == 4
        && "description"@.len() == 11);
    assert(Seq::<JsonValue>::empty().push(tool) =~= seq![tool]);
    law_namespaced_tools_one_by_one(Seq::empty(), empty, namespace, Seq::empty(), tool);
    law_other_tools_become_nothing(Seq::empty(), empty);
    assert(Seq::<JsonValue>::empty().push(namespace) =~= seq![namespace]);
}

/// A tool that is given another name is declared under that name, and else as it is; a tool without
/// any name is not declared.
pub proof fn law_renamed_tools(tool: JsonValue, other: Option<Seq<char>>)
    ensures
        ({
            let name = match other {
                Some(name) => Some(name),
                None => tool.get_str("name"@),
            };
            match name {
                Some(name) => plain_tool(tool, other) matches Some(made) && declares(
                    made,
                    name,
                    match tool.get_str("description"@) {
                        Some(description) => description,
                        None => Seq::empty(),
                    },
                    match tool.get("parameters"@) {
                        Some(parameters) => parameters,
                        None => JsonValue::Object(Map::empty()),
                    },
                ),
                None => plain_tool(tool, other) is None,
            }
        }),
{
    let name = match other {
        Some(name) => Some(name),
        None => tool.get_str("name"@),
    };
    if let Some(name) = name {
        lemma_function_tool(
            name,
            text_or(tool.get_str("description"@), Seq::empty()),
            tool_parameters(tool),
        );
    }
}

/// A tool in a namespace that has a description, even an empty one, begins its own with it; one in
/// a namespace that has none keeps its own.
pub proof fn law_tool_in_a_namespace(
    tool: JsonValue,
    namespace: Seq<char>,
    prefix: Option<Seq<char>>,
    name: Seq<char>,
)
    requires
        tool.get_str("name"@) == Some(name),
    ensures
        namespaced_tool(tool, namespace, prefix) matches Some(made) && declares(
            made,
            if name.len() >= namespace.len() && name.take(namespace.len() as int) == namespace {
                name
            } else {
                namespace + name
            },
            match (prefix, tool.get_str("description"@)) {
                (Some(prefix), Some(own)) => if own.len() == 0 {
                    prefix
                } else {
                    prefix + seq!['\n', '\n'] + own
                },
                (Some(prefix), None) => prefix,
                (None, Some(own)) => own,
                (None, None) => Seq::empty(),
            },
            match tool.get("parameters"@) {
                Some(parameters) => parameters,
                None => JsonValue::Object(Map::empty()),
            },
        ),
{
    reveal_strlit("\n\n");
    assert("\n\n"@ =~= seq!['\n', '\n']);
    assert(namespace.is_prefix_of(name) <==> (name.len() >= namespace.len() && name.take(
        namespace.len() as int,
    ) == namespace));
    lemma_function_tool(
        namespaced_name(namespace, name),
        namespaced_description(prefix, tool.get_str("description"@)),
        tool_parameters(tool),
    );
}

} // verus!
