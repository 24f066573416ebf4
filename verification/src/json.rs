//! JSON values: the data that requests, replies and events are made of.
//!
//! Text is read and written by `serde_json`. In between, a value is a [`Json`], and what it means
//! is a [`JsonValue`].

use vstd::prelude::*;

use crate::text;

verus! {

/// What a JSON value means.
pub enum JsonValue {
    Null,
    Bool(bool),
    Int(int),
    Float(serde_json::Number),
    Str(Seq<char>),
    Array(Seq<JsonValue>),
    Object(Map<Seq<char>, JsonValue>),
}

/// A JSON value.
///
/// Of the members of an object that share a key, the last one counts.
#[derive(Debug)]
pub enum Json {
    Null,
    Bool(bool),
    Number(serde_json::Number),
    Str(String),
    Array(Vec<Json>),
    Object(Vec<(String, Json)>),
}

// ---------------------------------------------------------------------------------------------
// What is taken from `serde_json`
// ---------------------------------------------------------------------------------------------

/// The number type of `serde_json`.
#[verifier::external_type_specification]
#[verifier::external_body]
pub struct ExNumber(serde_json::Number);

/// The value type of `serde_json`.
#[verifier::external_type_specification]
#[verifier::external_body]
pub struct ExValue(serde_json::Value);

/// The error type of `serde_json`.
#[verifier::external_type_specification]
#[verifier::external_body]
pub struct ExError(serde_json::Error);

/// The integer that a `serde_json::Number` holds; `None` for one that it holds as a floating-point
/// number.
pub uninterp spec fn number_int(number: serde_json::Number) -> Option<int>;

/// What a `serde_json::Value` holds.
pub uninterp spec fn contents(value: serde_json::Value) -> JsonValue;

/// What `serde_json::from_slice` reads from bytes; `None` where it reports an error.
pub uninterp spec fn json_of_bytes(bytes: Seq<u8>) -> Option<JsonValue>;

/// What `serde_json::from_str` reads from a text that starts like a value; `None` where it reports
/// an error.
pub uninterp spec fn parsed_text(text: Seq<char>) -> Option<JsonValue>;

/// The compact text that `serde_json` writes for a value, the members of an object in the order of
/// their keys.
pub uninterp spec fn json_text(value: JsonValue) -> Seq<char>;

/// `Number::clone` gives the same number.
pub assume_specification[ <serde_json::Number as Clone>::clone ](
    number: &serde_json::Number,
) -> (copy: serde_json::Number)
    ensures
        copy == *number,
;

/// `Number::as_i64` gives the integer that a number holds, where it lies in the range of `i64`.
pub assume_specification[ serde_json::Number::as_i64 ](number: &serde_json::Number) -> (found:
    Option<i64>)
    ensures
        found == int_as_i64(number_int(*number)),
;

/// `Number::as_u64` gives the integer that a number holds, where it lies in the range of `u64`.
pub assume_specification[ serde_json::Number::as_u64 ](number: &serde_json::Number) -> (found:
    Option<u64>)
    ensures
        found == int_as_u64(number_int(*number)),
;

/// `Number::from` on an `i64` gives the number that holds this integer.
#[verifier::external_body]
fn number_of_i64(n: i64) -> (number: serde_json::Number)
    ensures
        number_int(number) == Some(n as int),
{
    serde_json::Number::from(n)
}

/// One level of a `serde_json::Value`.
enum Node {
    Null,
    Bool(bool),
    Number(serde_json::Number),
    Str(String),
    Array(Vec<serde_json::Value>),
    Object(Vec<(String, serde_json::Value)>),
}

/// Takes one level off a `serde_json::Value`: tells its variants apart and moves out what they
/// hold. The members of an object come in the order of `serde_json::Map`, each key once.
#[verifier::external_body]
fn open_value(value: serde_json::Value) -> (node: Node)
    ensures
        contents(value) == node.contents(),
        node matches Node::Object(members) ==> distinct_keys(members@),
{
    match value {
        serde_json::Value::Null => Node::Null,
        serde_json::Value::Bool(b) => Node::Bool(b),
        serde_json::Value::Number(n) => Node::Number(n),
        serde_json::Value::String(s) => Node::Str(s),
        serde_json::Value::Array(items) => Node::Array(items),
        serde_json::Value::Object(members) => Node::Object(members.into_iter().collect()),
    }
}

/// Makes a `serde_json::Value` of one level. The members of an object, each with a key of its own,
/// are collected in a `serde_json::Map`.
#[verifier::external_body]
fn close_value(node: Node) -> (value: serde_json::Value)
    requires
        node matches Node::Object(members) ==> distinct_keys(members@),
    ensures
        contents(value) == node.contents(),
{
    match node {
        Node::Null => serde_json::Value::Null,
        Node::Bool(b) => serde_json::Value::Bool(b),
        Node::Number(n) => serde_json::Value::Number(n),
        Node::Str(s) => serde_json::Value::String(s),
        Node::Array(items) => serde_json::Value::Array(items),
        Node::Object(members) => serde_json::Value::Object(members.into_iter().collect()),
    }
}

/// `serde_json::from_slice` reads a value from bytes. Which value, and from which bytes, is
/// known only by the name [`json_of_bytes`].
#[verifier::external_body]
fn read_bytes(bytes: &[u8]) -> (read: Result<serde_json::Value, serde_json::Error>)
    ensures
        read is Ok <==> json_of_bytes(bytes@) is Some,
        read matches Ok(value) ==> json_of_bytes(bytes@) == Some(contents(value)),
{
    serde_json::from_slice(bytes)
}

/// `serde_json::from_str` reads a value from a text. It skips blanks and reports an error where no
/// value can begin with the character after them. Else which value it reads, and from which texts,
/// is known only by the name [`parsed_text`].
#[verifier::external_body]
fn read_text(text: &str) -> (read: Result<serde_json::Value, serde_json::Error>)
    ensures
        read is Ok <==> (starts_value(text@) && parsed_text(text@) is Some),
        read matches Ok(value) ==> parsed_text(text@) == Some(contents(value)),
{
    serde_json::from_str(text)
}

/// `Value::to_string` writes a value as compact text, which is known by the name [`json_text`].
///
/// Compact text has no line break in it: none stands between tokens, and inside strings control
/// characters are escaped. It begins with the first character of a value; that of an object begins
/// with a brace. `serde_json::from_str` reads the same value back, as long as the value holds no fraction (which it may round) and nests no
/// deeper than that function goes.
#[verifier::external_body]
fn write_text(value: &serde_json::Value) -> (text: String)
    ensures
        text@ == json_text(contents(*value)),
        single_line(text@),
        begins_value(text@),
        contents(*value) is Object ==> text@[0] == '{',
        exact(contents(*value), 127) ==> json_of_text(text@) == Some(contents(*value)),
{
    value.to_string()
}

/// `serde_json::to_vec` writes the same compact text as `Value::to_string`, encoded in UTF-8. It
/// reports no error on a value, whose keys are all strings.
#[verifier::external_body]
fn write_bytes(value: &serde_json::Value) -> (bytes: Result<Vec<u8>, serde_json::Error>)
    ensures
        bytes matches Ok(bytes) && bytes@ == vstd::utf8::encode_utf8(json_text(contents(*value))),
{
    serde_json::to_vec(value)
}

// ---------------------------------------------------------------------------------------------
// Meaning
// ---------------------------------------------------------------------------------------------

/// Whether a value can begin with a character: that of a literal, a number, a string, an array or
/// an object.
pub open spec fn value_start(c: char) -> bool {
    ||| c == 'n' || c == 't' || c == 'f'
    ||| c == '-' || '0' <= c <= '9'
    ||| c == '"' || c == '[' || c == '{'
}

/// Whether a text begins with a character that a value can begin with.
pub open spec fn begins_value(text: Seq<char>) -> bool {
    text.len() > 0 && value_start(text[0])
}

/// Whether a text begins so after the white space in front.
pub open spec fn starts_value(text: Seq<char>) -> bool {
    begins_value(text::trim_start(text))
}

/// The value that a text is read as; `None` where it is no JSON.
pub open spec fn json_of_text(text: Seq<char>) -> Option<JsonValue> {
    if starts_value(text) {
        parsed_text(text)
    } else {
        None
    }
}

/// Whether a text has no line break in it.
pub open spec fn single_line(text: Seq<char>) -> bool {
    forall|i: int| 0 <= i < text.len() ==> #[trigger] text[i] != '\n' && text[i] != '\r'
}

/// Whether a value holds no fraction and nests at most `depth` arrays and objects.
pub open spec fn exact(value: JsonValue, depth: nat) -> bool
    decreases value,
{
    match value {
        JsonValue::Float(_) => false,
        JsonValue::Array(items) => depth > 0 && forall|i: int|
            0 <= i < items.len() ==> exact(#[trigger] items[i], (depth - 1) as nat),
        JsonValue::Object(members) => depth > 0 && members.dom().finite() && forall|key: Seq<char>|
            members.contains_key(key) ==> exact(#[trigger] members[key], (depth - 1) as nat),
        _ => true,
    }
}

/// A value that nests no deeper than some depth nests no deeper than a greater one.
pub proof fn lemma_exact_deeper(value: JsonValue, depth: nat, greater: nat)
    requires
        exact(value, depth),
        depth <= greater,
    ensures
        exact(value, greater),
    decreases value,
{
    match value {
        JsonValue::Array(items) => {
            assert forall|i: int| 0 <= i < items.len() implies exact(
                #[trigger] items[i],
                (greater - 1) as nat,
            ) by {
                assert(decreases_to!(value => value->Array_0));
                assert(decreases_to!(value->Array_0 => value->Array_0[i]));
                lemma_exact_deeper(items[i], (depth - 1) as nat, (greater - 1) as nat);
            }
        },
        JsonValue::Object(members) => {
            assert forall|key: Seq<char>| members.contains_key(key) implies exact(
                #[trigger] members[key],
                (greater - 1) as nat,
            ) by {
                assert(decreases_to!(value => value->Object_0));
                assert(decreases_to!(value->Object_0 => value->Object_0[key]));
                lemma_exact_deeper(members[key], (depth - 1) as nat, (greater - 1) as nat);
            }
        },
        _ => {},
    }
}

/// An integer as an `i64`, where it is one.
pub open spec fn int_as_i64(held: Option<int>) -> Option<i64> {
    match held {
        Some(n) => if i64::MIN <= n <= i64::MAX {
            Some(n as i64)
        } else {
            None
        },
        None => None,
    }
}

/// An integer as a `u64`, where it is one.
pub open spec fn int_as_u64(held: Option<int>) -> Option<u64> {
    match held {
        Some(n) => if 0 <= n <= u64::MAX {
            Some(n as u64)
        } else {
            None
        },
        None => None,
    }
}

/// The meaning of a number.
pub open spec fn number_value(number: serde_json::Number) -> JsonValue {
    match number_int(number) {
        Some(n) => JsonValue::Int(n),
        None => JsonValue::Float(number),
    }
}

/// The meaning of each item of an array.
pub open spec fn items_value(items: Seq<Json>) -> Seq<JsonValue>
    decreases items,
{
    Seq::new(
        items.len(),
        |i: int|
            if 0 <= i < items.len() {
                items[i].value()
            } else {
                JsonValue::Null
            },
    )
}

/// The mapping that the members of an object stand for.
pub open spec fn members_value(members: Seq<(String, Json)>) -> Map<Seq<char>, JsonValue>
    decreases members,
{
    if members.len() == 0 {
        Map::empty()
    } else {
        members_value(members.drop_last()).insert(
            members.last().0@,
            members.last().1.value(),
        )
    }
}

/// The mapping that the members of a `serde_json` object stand for.
spec fn members_contents(members: Seq<(String, serde_json::Value)>) -> Map<Seq<char>, JsonValue>
    decreases members.len(),
{
    if members.len() == 0 {
        Map::empty()
    } else {
        members_contents(members.drop_last()).insert(
            members.last().0@,
            contents(members.last().1),
        )
    }
}

/// Whether no key occurs twice.
spec fn distinct_keys(members: Seq<(String, serde_json::Value)>) -> bool {
    forall|i: int, j: int|
        0 <= i < j < members.len() ==> (#[trigger] members[i]).0@ != (#[trigger] members[j]).0@
}

impl Node {
    /// What this level holds.
    spec fn contents(self) -> JsonValue {
        match self {
            Node::Null => JsonValue::Null,
            Node::Bool(b) => JsonValue::Bool(b),
            Node::Number(n) => number_value(n),
            Node::Str(s) => JsonValue::Str(s@),
            Node::Array(items) => JsonValue::Array(
                items@.map_values(|item: serde_json::Value| contents(item)),
            ),
            Node::Object(members) => JsonValue::Object(members_contents(members@)),
        }
    }
}

impl JsonValue {
    /// The member of an object under a key.
    pub open spec fn get(self, key: Seq<char>) -> Option<JsonValue> {
        match self {
            JsonValue::Object(members) => if members.contains_key(key) {
                Some(members[key])
            } else {
                None
            },
            _ => None,
        }
    }

    /// The text of a string.
    pub open spec fn as_str(self) -> Option<Seq<char>> {
        match self {
            JsonValue::Str(text) => Some(text),
            _ => None,
        }
    }

    /// The items of an array.
    pub open spec fn as_array(self) -> Option<Seq<JsonValue>> {
        match self {
            JsonValue::Array(items) => Some(items),
            _ => None,
        }
    }

    /// The integer that a number holds, in the range of `i64`.
    pub open spec fn as_i64(self) -> Option<i64> {
        match self {
            JsonValue::Int(n) => int_as_i64(Some(n)),
            _ => None,
        }
    }

    /// The integer that a number holds, in the range of `u64`.
    pub open spec fn as_u64(self) -> Option<u64> {
        match self {
            JsonValue::Int(n) => int_as_u64(Some(n)),
            _ => None,
        }
    }

    /// The text of the member under a key, where there is one and it is a string.
    pub open spec fn get_str(self, key: Seq<char>) -> Option<Seq<char>> {
        match self.get(key) {
            Some(member) => member.as_str(),
            None => None,
        }
    }

    /// The items of the member under a key, where there is one and it is an array.
    pub open spec fn get_array(self, key: Seq<char>) -> Option<Seq<JsonValue>> {
        match self.get(key) {
            Some(member) => member.as_array(),
            None => None,
        }
    }

    /// Whether a value is an object with members under the given keys and no others.
    pub open spec fn has_keys(self, keys: Set<Seq<char>>) -> bool {
        &&& self is Object
        &&& forall|key: Seq<char>| #[trigger] self.get(key) is Some <==> keys.contains(key)
    }

    /// The object without members.
    pub open spec fn object() -> JsonValue {
        JsonValue::Object(Map::empty())
    }

    /// An object with one more member, in place of any that it has under the same key.
    pub open spec fn with(self, key: Seq<char>, member: JsonValue) -> JsonValue {
        match self {
            JsonValue::Object(members) => JsonValue::Object(members.insert(key, member)),
            other => other,
        }
    }
}

impl Json {
    /// The meaning of this value.
    pub open spec fn value(self) -> JsonValue
        decreases self,
    {
        match self {
            Json::Null => JsonValue::Null,
            Json::Bool(b) => JsonValue::Bool(b),
            Json::Number(n) => number_value(n),
            Json::Str(s) => JsonValue::Str(s@),
            Json::Array(items) => JsonValue::Array(items_value(items@)),
            Json::Object(members) => JsonValue::Object(members_value(members@)),
        }
    }
}

impl View for Json {
    type V = JsonValue;

    open spec fn view(&self) -> JsonValue {
        self.value()
    }
}

// ---------------------------------------------------------------------------------------------
// Reading and writing
// ---------------------------------------------------------------------------------------------

/// A member that is put into an object is found under its key, and changes nothing under others. An
/// object without members has none.
pub proof fn law_members_are_found(
    object: JsonValue,
    key: Seq<char>,
    member: JsonValue,
    other: Seq<char>,
)
    requires
        object is Object,
        other != key,
    ensures
        object.with(key, member).get(key) == Some(member),
        object.with(key, member).get(other) == object.get(other),
        JsonValue::object().get(key) is None,
        JsonValue::object() is Object,
        object.with(key, member) is Object,
{
}

/// What is read under a key as a text, a list or a number is the member under it, where it is such.
pub proof fn law_members_are_read_as_they_are(value: JsonValue, key: Seq<char>)
    ensures
        value.get_str(key) matches Some(text) ==> value.get(key) == Some(JsonValue::Str(text)),
        value.get(key) matches Some(JsonValue::Str(text)) ==> value.get_str(key) == Some(text),
        value.get_array(key) matches Some(items) ==> value.get(key) == Some(
            JsonValue::Array(items),
        ),
        value.get(key) matches Some(JsonValue::Array(items)) ==> value.get_array(key) == Some(items),
        !(value is Object) ==> value.get(key) is None,
{
}

/// An integer is read in 64 bits exactly where it lies in their range, and no other value is.
pub proof fn law_integers_are_read_in_range(n: int, value: JsonValue)
    ensures
        i64::MIN <= n <= i64::MAX ==> JsonValue::Int(n).as_i64() == Some(n as i64),
        i64::MIN <= n <= i64::MAX ==> JsonValue::Int(n).as_i64()->Some_0 == n,
        !(i64::MIN <= n <= i64::MAX) ==> JsonValue::Int(n).as_i64() is None,
        0 <= n <= u64::MAX ==> JsonValue::Int(n).as_u64() == Some(n as u64),
        !(0 <= n <= u64::MAX) ==> JsonValue::Int(n).as_u64() is None,
        !(value is Int) ==> value.as_i64() is None && value.as_u64() is None,
{
}

/// Each member of an object with distinct keys is what the mapping holds under its key.
proof fn lemma_distinct_members(members: Seq<(String, serde_json::Value)>, i: int)
    requires
        distinct_keys(members),
        0 <= i < members.len(),
    ensures
        members_contents(members).dom().finite(),
        members_contents(members).contains_key(members[i].0@),
        members_contents(members)[members[i].0@] == contents(members[i].1),
    decreases members.len(),
{
    let before = members.drop_last();
    if before.len() > 0 {
        assert(distinct_keys(before));
        lemma_distinct_members(before, if i < before.len() { i } else { 0 });
        if i < before.len() {
            assert(members[i].0@ != members[members.len() - 1].0@);
        }
    }
    assert(members_contents(members).dom() =~= members_contents(before).dom().insert(
        members.last().0@,
    ));
}

/// A member that gets another value in place stands for a mapping with that value.
proof fn lemma_member_replaced(
    members: Seq<(String, serde_json::Value)>,
    i: int,
    member: (String, serde_json::Value),
)
    requires
        distinct_keys(members),
        0 <= i < members.len(),
        members[i].0@ == member.0@,
    ensures
        distinct_keys(members.update(i, member)),
        members_contents(members.update(i, member)) == members_contents(members).insert(
            member.0@,
            contents(member.1),
        ),
    decreases members.len(),
{
    let after = members.update(i, member);
    assert forall|j: int, k: int| 0 <= j < k < after.len() implies (#[trigger] after[j]).0@ != (
    #[trigger] after[k]).0@ by {
        assert(members[j].0@ != members[k].0@);
    }
    let before = members.drop_last();
    if i < before.len() {
        assert(distinct_keys(before));
        lemma_member_replaced(before, i, member);
        assert(after.drop_last() =~= before.update(i, member));
        assert(members[i].0@ != members[members.len() - 1].0@);
        assert(members_contents(after) =~= members_contents(members).insert(
            member.0@,
            contents(member.1),
        ));
    } else {
        assert(after.drop_last() =~= before);
        assert(members_contents(after) =~= members_contents(members).insert(
            member.0@,
            contents(member.1),
        ));
    }
}

/// Puts a member among others, in place of the one with the same key, where there is one.
fn put_member(members: &mut Vec<(String, serde_json::Value)>, key: &str, value: serde_json::Value)
    requires
        distinct_keys(old(members)@),
    ensures
        distinct_keys(final(members)@),
        members_contents(final(members)@) == members_contents(old(members)@).insert(
            key@,
            contents(value),
        ),
{
    let ghost given = members@;
    let len = members.len();
    for i in 0..len
        invariant
            members@ == given,
            given == old(members)@,
            given.len() == len,
            distinct_keys(given),
            forall|j: int| 0 <= j < i ==> (#[trigger] given[j]).0@ != key@,
    {
        if text::same_text(members[i].0.as_str(), key) {
            let member = (key.to_owned(), value);
            proof {
                lemma_member_replaced(given, i as int, member);
            }
            members.set(i, member);
            return;
        }
    }
    members.push((key.to_owned(), value));
    assert(members@.drop_last() =~= given);
}

/// Takes over a value that `serde_json` read.
fn import(value: serde_json::Value) -> (json: Json)
    ensures
        json@ == contents(value),
    decreases contents(value),
{
    let ghost whole = contents(value);
    match open_value(value) {
        Node::Null => Json::Null,
        Node::Bool(b) => Json::Bool(b),
        Node::Number(n) => Json::Number(n),
        Node::Str(s) => Json::Str(s),
        Node::Array(items) => {
            let ghost given = items@;
            let mut taken: Vec<Json> = Vec::new();
            for item in it: items
                invariant
                    it.seq() == given,
                    whole == contents(value),
                    whole == JsonValue::Array(
                        given.map_values(|item: serde_json::Value| contents(item)),
                    ),
                    taken@.len() == it.index(),
                    forall|i: int| 0 <= i < taken@.len() ==> (#[trigger] taken@[i]).value() == contents(given[i]),
            {
                proof {
                    assert(whole->Array_0[it.index() as int] == contents(item));
                    assert(decreases_to!(whole->Array_0 => whole->Array_0[it.index() as int]));
                    assert(decreases_to!(whole => whole->Array_0));
                }
                taken.push(import(item));
            }
            assert(items_value(taken@) =~= given.map_values(
                |item: serde_json::Value| contents(item),
            ));
            Json::Array(taken)
        },
        Node::Object(members) => {
            let ghost given = members@;
            let mut taken: Vec<(String, Json)> = Vec::new();
            for member in it: members
                invariant
                    it.seq() == given,
                    whole == contents(value),
                    distinct_keys(given),
                    whole == JsonValue::Object(members_contents(given)),
                    taken@.len() == it.index(),
                    members_value(taken@) == members_contents(given.take(it.index() as int)),
            {
                proof {
                    lemma_distinct_members(given, it.index() as int);
                    assert(decreases_to!(whole->Object_0 => whole->Object_0[member.0@]));
                    assert(decreases_to!(whole => whole->Object_0));
                }
                let ghost before = taken@;
                taken.push((member.0, import(member.1)));
                assert(taken@.drop_last() =~= before);
                assert(given.take(it.index() + 1).drop_last() =~= given.take(it.index() as int));
            }
            assert(given.take(given.len() as int) =~= given);
            Json::Object(taken)
        },
    }
}

/// Hands a value over to `serde_json`.
fn export(json: &Json) -> (value: serde_json::Value)
    ensures
        contents(value) == json@,
    decreases json,
{
    let node = match json {
        Json::Null => Node::Null,
        Json::Bool(b) => Node::Bool(*b),
        Json::Number(n) => Node::Number(n.clone()),
        Json::Str(s) => Node::Str(s.clone()),
        Json::Array(items) => {
            let mut given: Vec<serde_json::Value> = Vec::new();
            for i in 0..items.len()
                invariant
                    json == Json::Array(*items),
                    given@.len() == i,
                    forall|j: int| 0 <= j < i ==> contents(#[trigger] given@[j]) == items@[j].value(),
            {
                proof {
                    assert(decreases_to!(*json => json->Array_0));
                    assert(decreases_to!(json->Array_0 => json->Array_0@));
                    assert(decreases_to!(json->Array_0@ => json->Array_0@[i as int]));
                }
                given.push(export(&items[i]));
            }
            assert(given@.map_values(|item: serde_json::Value| contents(item)) =~= items_value(
                items@,
            ));
            Node::Array(given)
        },
        Json::Object(members) => {
            let mut given: Vec<(String, serde_json::Value)> = Vec::new();
            for i in 0..members.len()
                invariant
                    json == Json::Object(*members),
                    distinct_keys(given@),
                    members_contents(given@) == members_value(members@.take(i as int)),
            {
                proof {
                    assert(decreases_to!(*json => json->Object_0));
                    assert(decreases_to!(json->Object_0 => json->Object_0@));
                    assert(decreases_to!(json->Object_0@ => json->Object_0@[i as int]));
                    assert(decreases_to!(json->Object_0@[i as int] => json->Object_0@[i as int].1));
                }
                put_member(&mut given, members[i].0.as_str(), export(&members[i].1));
                assert(members@.take(i + 1).drop_last() =~= members@.take(i as int));
            }
            assert(members@.take(members@.len() as int) =~= members@);
            Node::Object(given)
        },
    };
    close_value(node)
}

impl Json {
    /// Reads a value from bytes.
    pub fn from_bytes(bytes: &[u8]) -> (read: Option<Json>)
        ensures
            match read {
                Some(json) => json_of_bytes(bytes@) == Some(json@),
                None => json_of_bytes(bytes@) is None,
            },
    {
        match read_bytes(bytes) {
            Ok(value) => Some(import(value)),
            Err(_) => None,
        }
    }

    /// Reads a value from a text.
    pub fn from_text(text: &str) -> (read: Option<Json>)
        ensures
            match read {
                Some(json) => json_of_text(text@) == Some(json@),
                None => json_of_text(text@) is None,
            },
    {
        match read_text(text) {
            Ok(value) => Some(import(value)),
            Err(_) => None,
        }
    }

    /// Writes a value as compact text.
    ///
    /// The text is a single line, and where it can hold the value exactly it is read back as that
    /// value.
    pub fn to_text(&self) -> (text: String)
        ensures
            text@ == json_text(self@),
            single_line(text@),
            begins_value(text@),
            self@ is Object ==> text@[0] == '{',
            exact(self@, 127) ==> json_of_text(text@) == Some(self@),
    {
        write_text(&export(self))
    }

    /// Writes a value as compact text in UTF-8.
    pub fn to_bytes(&self) -> (bytes: Vec<u8>)
        ensures
            bytes@ == vstd::utf8::encode_utf8(json_text(self@)),
    {
        match write_bytes(&export(self)) {
            Ok(bytes) => bytes,
            Err(_) => Vec::new(),
        }
    }

    /// The member of an object under a key.
    pub fn get(&self, key: &str) -> (member: Option<&Json>)
        ensures
            match member {
                Some(member) => self@.get(key@) == Some(member@),
                None => self@.get(key@) is None,
            },
    {
        match self {
            Json::Object(members) => {
                let mut i: usize = members.len();
                assert(members@.take(members@.len() as int) =~= members@);
                while i > 0
                    invariant
                        *self == Json::Object(*members),
                        i <= members@.len(),
                        self@.get(key@) == JsonValue::Object(
                            members_value(members@.take(i as int)),
                        ).get(key@),
                    decreases i,
                {
                    assert(members@.take(i as int).drop_last() =~= members@.take(i - 1));
                    i -= 1;
                    if text::same_text(members[i].0.as_str(), key) {
                        return Some(&members[i].1);
                    }
                }
                None
            },
            _ => None,
        }
    }

    /// The text of a string.
    pub fn as_str(&self) -> (text: Option<&str>)
        ensures
            match text {
                Some(text) => self@.as_str() == Some(text@),
                None => self@.as_str() is None,
            },
    {
        match self {
            Json::Str(text) => Some(text.as_str()),
            _ => None,
        }
    }

    /// The items of an array.
    pub fn as_array(&self) -> (items: Option<&Vec<Json>>)
        ensures
            match items {
                Some(items) => self@.as_array() == Some(items_value(items@)),
                None => self@.as_array() is None,
            },
    {
        match self {
            Json::Array(items) => Some(items),
            _ => None,
        }
    }

    /// The integer that a number holds, in the range of `i64`.
    pub fn as_i64(&self) -> (found: Option<i64>)
        ensures
            found == self@.as_i64(),
    {
        match self {
            Json::Number(number) => number.as_i64(),
            _ => None,
        }
    }

    /// The integer that a number holds, in the range of `u64`.
    pub fn as_u64(&self) -> (found: Option<u64>)
        ensures
            found == self@.as_u64(),
    {
        match self {
            Json::Number(number) => number.as_u64(),
            _ => None,
        }
    }

    /// The text of the member under a key, where there is one and it is a string.
    pub fn get_str(&self, key: &str) -> (text: Option<&str>)
        ensures
            match text {
                Some(text) => self@.get_str(key@) == Some(text@),
                None => self@.get_str(key@) is None,
            },
    {
        match self.get(key) {
            Some(member) => member.as_str(),
            None => None,
        }
    }

    /// The items of the member under a key, where there is one and it is an array.
    pub fn get_array(&self, key: &str) -> (items: Option<&Vec<Json>>)
        ensures
            match items {
                Some(items) => self@.get_array(key@) == Some(items_value(items@)),
                None => self@.get_array(key@) is None,
            },
    {
        match self.get(key) {
            Some(member) => member.as_array(),
            None => None,
        }
    }

    /// The number that an integer is.
    pub fn integer(n: i64) -> (json: Json)
        ensures
            json@ == JsonValue::Int(n as int),
    {
        Json::Number(number_of_i64(n))
    }

    /// The string that holds a text.
    pub fn text(text: &str) -> (json: Json)
        ensures
            json@ == JsonValue::Str(text@),
    {
        Json::Str(text.to_owned())
    }

    /// The array that holds one item.
    pub fn only(item: Json) -> (json: Json)
        ensures
            json@ == JsonValue::Array(seq![item@]),
    {
        let mut items: Vec<Json> = Vec::new();
        items.push(item);
        assert(items_value(items@) =~= seq![item@]);
        Json::Array(items)
    }

    /// The object without members.
    pub fn object() -> (json: Json)
        ensures
            json@ == JsonValue::object(),
    {
        Json::Object(Vec::new())
    }

    /// An object with one more member, in place of any that it has under the same key.
    pub fn with(self, key: &str, member: Json) -> (json: Json)
        ensures
            json@ == self@.with(key@, member@),
    {
        match self {
            Json::Object(mut members) => {
                let ghost before = members@;
                members.push((key.to_owned(), member));
                assert(members@.drop_last() =~= before);
                Json::Object(members)
            },
            other => other,
        }
    }
}

impl Clone for Json {
    fn clone(&self) -> (copy: Self)
        ensures
            copy@ == self@,
        decreases self,
    {
        match self {
            Json::Null => Json::Null,
            Json::Bool(b) => Json::Bool(*b),
            Json::Number(n) => Json::Number(n.clone()),
            Json::Str(s) => Json::Str(s.clone()),
            Json::Array(items) => {
                let mut copies: Vec<Json> = Vec::new();
                for i in 0..items.len()
                    invariant
                        *self == Json::Array(*items),
                        copies@.len() == i,
                        forall|j: int| 0 <= j < i ==> (#[trigger] copies@[j]).value() == items@[j].value(),
                {
                    proof {
                        assert(decreases_to!(*self => self->Array_0));
                        assert(decreases_to!(self->Array_0 => self->Array_0@));
                        assert(decreases_to!(self->Array_0@ => self->Array_0@[i as int]));
                    }
                    copies.push(items[i].clone());
                }
                assert(items_value(copies@) =~= items_value(items@));
                Json::Array(copies)
            },
            Json::Object(members) => {
                let mut copies: Vec<(String, Json)> = Vec::new();
                for i in 0..members.len()
                    invariant
                        *self == Json::Object(*members),
                        copies@.len() == i,
                        members_value(copies@) == members_value(members@.take(i as int)),
                {
                    let ghost before = copies@;
                    proof {
                        assert(decreases_to!(*self => self->Object_0));
                        assert(decreases_to!(self->Object_0 => self->Object_0@));
                        assert(decreases_to!(self->Object_0@ => self->Object_0@[i as int]));
                        assert(decreases_to!(self->Object_0@[i as int] => self->Object_0@[i as int].1));
                    }
                    copies.push((members[i].0.clone(), members[i].1.clone()));
                    assert(copies@.drop_last() =~= before);
                    assert(members@.take(i + 1).drop_last() =~= members@.take(i as int));
                }
                assert(members@.take(members@.len() as int) =~= members@);
                Json::Object(copies)
            },
        }
    }
}

} // verus!
