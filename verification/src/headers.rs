//! Headers: which of a client's headers go upstream, and which of a reply's headers come back.

use vstd::prelude::*;

use crate::text;

use reqwest::header::{HeaderMap, HeaderName, HeaderValue};

verus! {

/// What the value of a header holds: its bytes, and whether they are to be kept secret.
pub struct HeaderContent {
    pub bytes: Seq<u8>,
    pub sensitive: bool,
}

// ---------------------------------------------------------------------------------------------
// What is taken from `reqwest::header` and `tiny_http`
// ---------------------------------------------------------------------------------------------

/// The value of a header.
#[verifier::external_type_specification]
#[verifier::external_body]
pub struct ExHeaderValue(reqwest::header::HeaderValue);

/// A collection of headers.
#[verifier::external_type_specification]
#[verifier::external_body]
#[verifier::reject_recursive_types(T)]
pub struct ExHeaderMap<T>(reqwest::header::HeaderMap<T>);

/// A header of a reply to a client.
#[verifier::external_type_specification]
#[verifier::external_body]
pub struct ExReplyHeader(tiny_http::Header);

/// What a `HeaderValue` holds.
pub uninterp spec fn header_content(value: reqwest::header::HeaderValue) -> HeaderContent;

/// What a `HeaderMap` holds: under each name that occurs, its values in order.
pub uninterp spec fn header_entries(
    headers: reqwest::header::HeaderMap<reqwest::header::HeaderValue>,
) -> Map<Seq<char>, Seq<HeaderContent>>;

/// The name and the value that a `tiny_http::Header` holds.
pub uninterp spec fn reply_header(header: tiny_http::Header) -> (Seq<u8>, Seq<u8>);

/// `HeaderName::from_bytes` takes names of up to 65535 token characters, and gives them in lower
/// case.
#[verifier::external_body]
fn read_header_name(given: &str) -> (name: Option<String>)
    ensures
        match name {
            Some(name) => header_name_of(given@) == Some(name@),
            None => header_name_of(given@) is None,
        },
{
    HeaderName::from_bytes(given.as_bytes()).ok().map(|name| name.as_str().to_owned())
}

/// `HeaderValue::from_bytes` takes bytes that are no control characters, tabs excepted.
#[verifier::external_body]
fn read_header_value(bytes: &[u8]) -> (value: Option<HeaderValue>)
    ensures
        value is Some <==> value_bytes(bytes@),
        value matches Some(value) ==> header_content(value) == plain_content(bytes@),
{
    HeaderValue::from_bytes(bytes).ok()
}

/// `HeaderValue::from_str` takes texts whose bytes in UTF-8 `HeaderValue::from_bytes` takes.
#[verifier::external_body]
pub(crate) fn read_header_text(given: &str) -> (value: Option<HeaderValue>)
    ensures
        value is Some <==> value_text(given@),
        value matches Some(value) ==> header_content(value) == plain_content(
            vstd::utf8::encode_utf8(given@),
        ),
{
    HeaderValue::from_str(given).ok()
}

/// `HeaderValue::from_static` makes a value of a text that lives as long as the program, without
/// a copy of it. It panics on texts with anything but visible ASCII characters, spaces and tabs.
#[verifier::external_body]
fn static_header_value(given: &'static str) -> (value: HeaderValue)
    requires
        visible_text(given@),
    ensures
        header_content(value) == plain_content(vstd::utf8::encode_utf8(given@)),
{
    HeaderValue::from_static(given)
}

/// `HeaderValue::set_sensitive` marks a value as one to be kept secret, or as none, and leaves
/// its bytes as they are.
pub assume_specification[ reqwest::header::HeaderValue::set_sensitive ](
    value: &mut reqwest::header::HeaderValue,
    sensitive: bool,
)
    ensures
        header_content(*final(value)).bytes == header_content(*old(value)).bytes,
        header_content(*final(value)).sensitive == sensitive,
;

/// `HeaderValue::clone` gives the same value.
pub assume_specification[ <reqwest::header::HeaderValue as Clone>::clone ](
    value: &reqwest::header::HeaderValue,
) -> (copy: reqwest::header::HeaderValue)
    ensures
        header_content(copy) == header_content(*value),
;

/// `HeaderMap::new` gives a collection without headers.
#[verifier::external_body]
fn new_headers() -> (headers: HeaderMap<HeaderValue>)
    ensures
        header_entries(headers) == no_entries(),
{
    HeaderMap::new()
}

/// `HeaderMap::try_append` puts a value behind those that the collection has under the same
/// name. It reports an error where it would have to grow beyond its limit, which it never has to
/// while it holds few names; the collection then holds what it held.
#[verifier::external_body]
fn append_header(headers: &mut HeaderMap<HeaderValue>, name: &str, value: HeaderValue) -> (done:
    bool)
    requires
        header_name_of(name@) == Some(name@),
    ensures
        done ==> header_entries(*final(headers)) == appended(
            header_entries(*old(headers)),
            name@,
            header_content(value),
        ),
        !done ==> header_entries(*final(headers)) == header_entries(*old(headers)),
        few_names(header_entries(*old(headers))) ==> done,
{
    headers.try_append(HeaderName::from_bytes(name.as_bytes()).unwrap(), value).is_ok()
}

/// `HeaderMap::try_insert` puts a value in place of those that the collection has under the same
/// name. It reports an error as `HeaderMap::try_append` does.
#[verifier::external_body]
fn insert_header(headers: &mut HeaderMap<HeaderValue>, name: &str, value: HeaderValue) -> (done:
    bool)
    requires
        header_name_of(name@) == Some(name@),
    ensures
        done ==> header_entries(*final(headers)) == header_entries(*old(headers)).insert(
            name@,
            seq![header_content(value)],
        ),
        !done ==> header_entries(*final(headers)) == header_entries(*old(headers)),
        few_names(header_entries(*old(headers))) ==> done,
{
    headers.try_insert(HeaderName::from_bytes(name.as_bytes()).unwrap(), value).is_ok()
}

/// `HeaderMap::remove` takes all values under a name out of the collection.
#[verifier::external_body]
fn remove_header(headers: &mut HeaderMap<HeaderValue>, name: &str)
    requires
        header_name_of(name@) == Some(name@),
    ensures
        header_entries(*final(headers)) == header_entries(*old(headers)).remove(name@),
{
    headers.remove(name);
}

/// `HeaderMap::iter` gives every value with its name. The values under one name come in order;
/// in which order the names come is not claimed.
#[verifier::external_body]
fn list_headers(headers: &HeaderMap<HeaderValue>) -> (listed: Vec<(String, Vec<u8>)>)
    ensures
        lists(listed_view(listed@), header_entries(*headers)),
{
    headers.iter().map(
        |(name, value)| (name.as_str().to_owned(), value.as_bytes().to_vec()),
    ).collect()
}

/// `tiny_http::Header::from_bytes` takes names and values that are ASCII.
#[verifier::external_body]
fn make_reply_header(name: &[u8], value: &[u8]) -> (header: Option<tiny_http::Header>)
    ensures
        header is Some <==> (ascii_bytes(name@) && ascii_bytes(value@)),
        header matches Some(header) ==> reply_header(header).0 == name@ && reply_header(header).1
            == value@,
{
    tiny_http::Header::from_bytes(name, value).ok()
}

// ---------------------------------------------------------------------------------------------
// Names and values
// ---------------------------------------------------------------------------------------------

/// Whether a character may stand in the name of a header.
pub open spec fn token_char(c: char) -> bool {
    ||| '0' <= c <= '9'
    ||| 'A' <= c <= 'Z'
    ||| 'a' <= c <= 'z'
    ||| c == '!' || c == '#' || c == '$' || c == '%' || c == '&' || c == '\'' || c == '*'
    ||| c == '+' || c == '-' || c == '.' || c == '^' || c == '_' || c == '`' || c == '|' || c
        == '~'
}

/// The name that a text is as a header name, where it is one.
pub open spec fn header_name_of(given: Seq<char>) -> Option<Seq<char>> {
    if 0 < given.len() <= 65535 && forall|i: int|
        0 <= i < given.len() ==> token_char(#[trigger] given[i]) {
        Some(text::lower_case(given))
    } else {
        None
    }
}

/// Whether bytes may be the value of a header.
pub open spec fn value_bytes(bytes: Seq<u8>) -> bool {
    forall|i: int| 0 <= i < bytes.len() ==> (#[trigger] bytes[i] >= 32 && bytes[i] != 127) || bytes[i] == 9
}

/// Whether a text may be the value of a header.
pub open spec fn value_text(given: Seq<char>) -> bool {
    value_bytes(vstd::utf8::encode_utf8(given))
}

/// Whether a text is visible ASCII characters, spaces and tabs.
pub open spec fn visible_text(given: Seq<char>) -> bool {
    forall|i: int| 0 <= i < given.len() ==> ' ' <= #[trigger] given[i] <= '~' || given[i] == '\t'
}

/// Tells whether a text is visible ASCII characters, spaces and tabs.
pub fn is_visible_text(given: &str) -> (yes: bool)
    ensures
        yes == visible_text(given@),
{
    let chars = text::chars_of(given);
    for i in 0..chars.len()
        invariant
            chars@ == given@,
            forall|j: int| 0 <= j < i ==> ' ' <= #[trigger] given@[j] <= '~' || given@[j] == '\t',
    {
        let c = chars[i];
        if !((' ' <= c && c <= '~') || c == '\t') {
            assert(given@[i as int] == c);
            return false;
        }
    }
    true
}

/// Whether bytes are ASCII.
pub open spec fn ascii_bytes(bytes: Seq<u8>) -> bool {
    forall|i: int| 0 <= i < bytes.len() ==> #[trigger] bytes[i] < 128
}

/// A collection without headers.
pub open spec fn no_entries() -> Map<Seq<char>, Seq<HeaderContent>> {
    Map::empty()
}

/// A value that need not be kept secret.
pub open spec fn plain_content(bytes: Seq<u8>) -> HeaderContent {
    HeaderContent { bytes, sensitive: false }
}

/// The value that a text is, where it need not be kept secret.
pub open spec fn text_content(given: Seq<char>) -> HeaderContent {
    plain_content(vstd::utf8::encode_utf8(given))
}

/// A collection with one more value behind those under the same name.
pub open spec fn appended(
    entries: Map<Seq<char>, Seq<HeaderContent>>,
    name: Seq<char>,
    content: HeaderContent,
) -> Map<Seq<char>, Seq<HeaderContent>> {
    entries.insert(name, values_under(entries, name).push(content))
}

/// The values under a name: none, where it does not occur.
pub open spec fn values_under(
    entries: Map<Seq<char>, Seq<HeaderContent>>,
    name: Seq<char>,
) -> Seq<HeaderContent> {
    if entries.contains_key(name) {
        entries[name]
    } else {
        Seq::empty()
    }
}

/// Whether a collection can take one more name, however the names hash.
pub open spec fn few_names(entries: Map<Seq<char>, Seq<HeaderContent>>) -> bool {
    entries.dom().finite() && entries.dom().len() < 6554
}

/// Headers as they are listed, each with its name and its value.
pub open spec fn listed_view(listed: Seq<(String, Vec<u8>)>) -> Seq<(Seq<char>, Seq<u8>)> {
    listed.map_values(|one: (String, Vec<u8>)| (one.0@, one.1@))
}

/// The value of a listed header, where it has the given name.
pub open spec fn value_if_named(one: (Seq<char>, Seq<u8>), name: Seq<char>) -> Option<Seq<u8>> {
    if one.0 == name {
        Some(one.1)
    } else {
        None
    }
}

/// The values that a list has under a name, in order.
pub open spec fn listed_under(listed: Seq<(Seq<char>, Seq<u8>)>, name: Seq<char>) -> Seq<Seq<u8>> {
    text::kept(listed, |one: (Seq<char>, Seq<u8>)| value_if_named(one, name))
}

/// Whether a list holds what a collection holds: under each name the same values in order.
pub open spec fn lists(
    listed: Seq<(Seq<char>, Seq<u8>)>,
    entries: Map<Seq<char>, Seq<HeaderContent>>,
) -> bool {
    forall|name: Seq<char>| #[trigger]
        listed_under(listed, name) == values_under(entries, name).map_values(
            |content: HeaderContent| content.bytes,
        )
}

// ---------------------------------------------------------------------------------------------
// Headers that go upstream
// ---------------------------------------------------------------------------------------------

/// Whether a client's header is kept from going upstream.
pub open spec fn withheld(name: Seq<char>) -> bool {
    text::lower_case(name) == "authorization"@ || text::lower_case(name) == "host"@
}

/// The headers that a client's headers become on their way upstream. Those that are withheld, and
/// those whose name or value is none, are left out.
pub open spec fn forwarded(incoming: Seq<(Seq<char>, Seq<u8>)>) -> Map<
    Seq<char>,
    Seq<HeaderContent>,
>
    decreases incoming.len(),
{
    if incoming.len() == 0 {
        Map::empty()
    } else {
        let before = forwarded(incoming.drop_last());
        let (name, value) = incoming.last();
        match header_name_of(text::lower_case(name)) {
            Some(lower) => if !withheld(name) && value_bytes(value) {
                appended(before, lower, plain_content(value))
            } else {
                before
            },
            None => before,
        }
    }
}

/// A value that is to be kept secret.
pub open spec fn secret_content(given: Seq<char>) -> HeaderContent {
    HeaderContent { bytes: vstd::utf8::encode_utf8(given), sensitive: true }
}

/// The headers that a client's headers become, with the proxy's own authorization.
pub open spec fn authorized(incoming: Seq<(Seq<char>, Seq<u8>)>, auth_header: Seq<char>) -> Map<
    Seq<char>,
    Seq<HeaderContent>,
> {
    forwarded(incoming).insert("authorization"@, seq![secret_content(auth_header)])
}

/// The headers of a request to the Responses upstream.
pub open spec fn responses_entries(
    entries: Map<Seq<char>, Seq<HeaderContent>>,
    host: HeaderContent,
) -> Map<Seq<char>, Seq<HeaderContent>> {
    entries.insert("host"@, seq![host])
}

/// The headers of a request to the Chat Completions upstream.
pub open spec fn chat_entries(
    entries: Map<Seq<char>, Seq<HeaderContent>>,
    host: HeaderContent,
    user_agent: Option<HeaderContent>,
) -> Map<Seq<char>, Seq<HeaderContent>> {
    let common = entries.insert("host"@, seq![host]).insert(
        "content-type"@,
        seq![text_content("application/json"@)],
    ).insert("accept"@, seq![text_content("text/event-stream"@)]).remove("content-length"@);
    match user_agent {
        Some(user_agent) => common.insert("user-agent"@, seq![user_agent]),
        None => common,
    }
}

/// Lower case stays lower case.
proof fn lemma_lower_case_twice(given: Seq<char>)
    ensures
        text::lower_case(text::lower_case(given)) == text::lower_case(given),
{
    assert(text::lower_case(text::lower_case(given)) =~= text::lower_case(given));
}

/// A name that was read as a header name is read as itself.
proof fn lemma_name_is_canonical(given: Seq<char>)
    ensures
        header_name_of(given) matches Some(name) ==> header_name_of(name) == Some(name),
{
    lemma_lower_case_twice(given);
    if let Some(name) = header_name_of(given) {
        assert forall|i: int| 0 <= i < name.len() implies token_char(#[trigger] name[i]) by {
            assert(token_char(given[i]));
        }
    }
}

/// The names that the library writes itself are header names.
proof fn lemma_own_names()
    ensures
        header_name_of("authorization"@) == Some("authorization"@),
        header_name_of("host"@) == Some("host"@),
        header_name_of("content-type"@) == Some("content-type"@),
        header_name_of("accept"@) == Some("accept"@),
        header_name_of("content-length"@) == Some("content-length"@),
        header_name_of("user-agent"@) == Some("user-agent"@),
        header_name_of("cache-control"@) == Some("cache-control"@),
{
    reveal_strlit("authorization");
    reveal_strlit("host");
    reveal_strlit("content-type");
    reveal_strlit("accept");
    reveal_strlit("content-length");
    reveal_strlit("user-agent");
    reveal_strlit("cache-control");
    assert(text::lower_case("authorization"@) =~= "authorization"@);
    assert(text::lower_case("host"@) =~= "host"@);
    assert(text::lower_case("content-type"@) =~= "content-type"@);
    assert(text::lower_case("accept"@) =~= "accept"@);
    assert(text::lower_case("content-length"@) =~= "content-length"@);
    assert(text::lower_case("user-agent"@) =~= "user-agent"@);
    assert(text::lower_case("cache-control"@) =~= "cache-control"@);
}

/// More headers have no fewer names.
proof fn lemma_names_grow(incoming: Seq<(Seq<char>, Seq<u8>)>, n: int)
    requires
        0 <= n <= incoming.len(),
    ensures
        forwarded(incoming).dom().finite(),
        forwarded(incoming.take(n)).dom().finite(),
        forwarded(incoming.take(n)).dom().subset_of(forwarded(incoming).dom()),
        forwarded(incoming.take(n)).dom().len() <= forwarded(incoming).dom().len(),
    decreases incoming.len(),
{
    if n == incoming.len() {
        assert(incoming.take(n) =~= incoming);
        if n > 0 {
            lemma_names_grow(incoming.drop_last(), 0);
        }
    } else {
        let before = incoming.drop_last();
        lemma_names_grow(before, n);
        assert(before.take(n) =~= incoming.take(n));
        assert(forwarded(before).dom().subset_of(forwarded(incoming).dom()));
    }
    vstd::set_lib::lemma_len_subset(
        forwarded(incoming.take(n)).dom(),
        forwarded(incoming).dom(),
    );
}

/// Collects the headers that go upstream for a client: the client's own, except for those that
/// are withheld, and the proxy's authorization, which is marked as secret.
///
/// `None` means that there are more names than the collection takes.
pub fn upstream_headers(
    incoming: &Vec<(String, Vec<u8>)>,
    auth_header: &'static str,
) -> (collected: Option<HeaderMap<HeaderValue>>)
    requires
        visible_text(auth_header@),
    ensures
        match collected {
            Some(headers) => header_entries(headers) == authorized(
                listed_view(incoming@),
                auth_header@,
            ),
            None => !few_names(forwarded(listed_view(incoming@))),
        },
{
    let mut headers = new_headers();
    let ghost listed = listed_view(incoming@);
    for i in 0..incoming.len()
        invariant
            listed == listed_view(incoming@),
            header_entries(headers) == forwarded(listed.take(i as int)),
    {
        proof {
            assert(listed.take(i + 1).drop_last() =~= listed.take(i as int));
            assert(listed[i as int] == (incoming@[i as int].0@, incoming@[i as int].1@));
            lemma_names_grow(listed, i as int);
        }
        let lower = text::to_lower_case(incoming[i].0.as_str());
        if !(text::same_text(lower.as_str(), "authorization") || text::same_text(
            lower.as_str(),
            "host",
        )) {
            proof {
                lemma_name_is_canonical(lower@);
            }
            if let Some(name) = read_header_name(lower.as_str()) {
                if let Some(value) = read_header_value(incoming[i].1.as_slice()) {
                    if !append_header(&mut headers, name.as_str(), value) {
                        return None;
                    }
                }
            }
        }
    }
    assert(listed.take(incoming@.len() as int) =~= listed);
    proof {
        lemma_own_names();
    }
    let mut secret = static_header_value(auth_header);
    secret.set_sensitive(true);
    if !insert_header(&mut headers, "authorization", secret) {
        return None;
    }
    Some(headers)
}

/// Completes the headers of a request to the Responses upstream.
pub fn headers_for_responses(
    headers: HeaderMap<HeaderValue>,
    host_header: &HeaderValue,
) -> (completed: Option<HeaderMap<HeaderValue>>)
    ensures
        match completed {
            Some(completed) => header_entries(completed) == responses_entries(
                header_entries(headers),
                header_content(*host_header),
            ),
            None => !few_names(header_entries(headers)),
        },
{
    let mut headers = headers;
    proof {
        lemma_own_names();
    }
    if !insert_header(&mut headers, "host", host_header.clone()) {
        return None;
    }
    Some(headers)
}

/// Whether a collection can take three more names, however the names hash.
pub open spec fn room_for_three(entries: Map<Seq<char>, Seq<HeaderContent>>) -> bool {
    entries.dom().finite() && entries.dom().len() + 3 < 6554
}

/// Completes the headers of a request to the Chat Completions upstream.
pub fn headers_for_chat(
    headers: HeaderMap<HeaderValue>,
    host_header: &HeaderValue,
    user_agent: &Option<HeaderValue>,
) -> (completed: Option<HeaderMap<HeaderValue>>)
    ensures
        match completed {
            Some(completed) => header_entries(completed) == chat_entries(
                header_entries(headers),
                header_content(*host_header),
                match user_agent {
                    Some(user_agent) => Some(header_content(*user_agent)),
                    None => None,
                },
            ),
            None => !room_for_three(header_entries(headers)),
        },
{
    let mut headers = headers;
    proof {
        lemma_own_names();
        reveal_strlit("application/json");
        reveal_strlit("text/event-stream");
    }
    if !insert_header(&mut headers, "host", host_header.clone()) {
        return None;
    }
    if !insert_header(&mut headers, "content-type", static_header_value("application/json")) {
        return None;
    }
    if !insert_header(&mut headers, "accept", static_header_value("text/event-stream")) {
        return None;
    }
    remove_header(&mut headers, "content-length");
    if let Some(user_agent) = user_agent {
        if !insert_header(&mut headers, "user-agent", user_agent.clone()) {
            return None;
        }
    }
    Some(headers)
}

/// Nothing of what a client sends as authorization or host goes upstream.
pub proof fn law_credentials_are_withheld(incoming: Seq<(Seq<char>, Seq<u8>)>)
    ensures
        !forwarded(incoming).contains_key("authorization"@),
        !forwarded(incoming).contains_key("host"@),
    decreases incoming.len(),
{
    if incoming.len() > 0 {
        law_credentials_are_withheld(incoming.drop_last());
        lemma_lower_case_twice(incoming.last().0);
    }
}

/// The authorization that goes upstream is the proxy's own, once and marked as secret, whatever
/// the client sends and whichever upstream it goes to.
pub proof fn law_authorization_is_the_proxys(
    incoming: Seq<(Seq<char>, Seq<u8>)>,
    auth_header: Seq<char>,
    host: HeaderContent,
    user_agent: Option<HeaderContent>,
)
    ensures
        ({
            let own = seq![secret_content(auth_header)];
            let entries = authorized(incoming, auth_header);
            &&& values_under(responses_entries(entries, host), "authorization"@) == own
            &&& values_under(chat_entries(entries, host, user_agent), "authorization"@) == own
        }),
{
    reveal_strlit("authorization");
    reveal_strlit("host");
    reveal_strlit("content-type");
    reveal_strlit("accept");
    reveal_strlit("content-length");
    reveal_strlit("user-agent");
    assert("authorization"@.len() == 13 && "host"@.len() == 4 && "content-type"@.len() == 12
        && "accept"@.len() == 6 && "content-length"@.len() == 14 && "user-agent"@.len() == 10);
}

/// Any other header of a client goes upstream as the client sent it, all values in order, as
/// long as its name and its values are such.
pub proof fn law_other_headers_are_forwarded(
    incoming: Seq<(Seq<char>, Seq<u8>)>,
    name: Seq<char>,
)
    requires
        header_name_of(name) == Some(name),
        name != "authorization"@,
        name != "host"@,
    ensures
        values_under(forwarded(incoming), name) == text::kept(
            incoming,
            |one: (Seq<char>, Seq<u8>)| forwarded_as(one, name),
        ),
    decreases incoming.len(),
{
    if incoming.len() > 0 {
        let (given, value) = incoming.last();
        law_other_headers_are_forwarded(incoming.drop_last(), name);
        lemma_lower_case_twice(given);
        let choice = |one: (Seq<char>, Seq<u8>)| forwarded_as(one, name);
        if text::lower_case(given) == name {
            assert(header_name_of(text::lower_case(given)) == Some(name));
        }
    }
}

/// What a header of a client contributes under a name.
pub open spec fn forwarded_as(one: (Seq<char>, Seq<u8>), name: Seq<char>) -> Option<HeaderContent> {
    if text::lower_case(one.0) == name && value_bytes(one.1) {
        Some(plain_content(one.1))
    } else {
        None
    }
}

// ---------------------------------------------------------------------------------------------
// Headers that come back
// ---------------------------------------------------------------------------------------------

/// Whether a header concerns one connection only, and is the server's own business.
pub open spec fn hop_by_hop(name: Seq<char>) -> bool {
    ||| name == "content-length"@
    ||| name == "transfer-encoding"@
    ||| name == "connection"@
    ||| name == "trailer"@
    ||| name == "upgrade"@
}

/// The header that goes back to the client for one that came from upstream, where one does.
pub open spec fn relayed_header(one: (Seq<char>, Seq<u8>)) -> Option<(Seq<u8>, Seq<u8>)> {
    let name = vstd::utf8::encode_utf8(one.0);
    if !hop_by_hop(one.0) && ascii_bytes(name) && ascii_bytes(one.1) {
        Some((name, one.1))
    } else {
        None
    }
}

/// The headers that go back to the client for those that came from upstream.
pub open spec fn relayed(listed: Seq<(Seq<char>, Seq<u8>)>) -> Seq<(Seq<u8>, Seq<u8>)> {
    text::kept(listed, |one: (Seq<char>, Seq<u8>)| relayed_header(one))
}

/// Reply headers, each with its name and its value.
pub open spec fn reply_view(headers: Seq<tiny_http::Header>) -> Seq<(Seq<u8>, Seq<u8>)> {
    headers.map_values(|header: tiny_http::Header| reply_header(header))
}

/// Tells whether a header concerns one connection only.
fn is_hop_by_hop(name: &str) -> (yes: bool)
    ensures
        yes == hop_by_hop(name@),
{
    text::same_text(name, "content-length") || text::same_text(name, "transfer-encoding")
        || text::same_text(name, "connection") || text::same_text(name, "trailer")
        || text::same_text(name, "upgrade")
}

/// The headers of a reply that is an event stream.
pub open spec fn event_stream_entries() -> Map<Seq<char>, Seq<HeaderContent>> {
    no_entries().insert("content-type"@, seq![text_content("text/event-stream"@)]).insert(
        "cache-control"@,
        seq![text_content("no-cache"@)],
    )
}

/// Collects the headers of a reply that is an event stream.
pub fn event_stream_headers() -> (headers: HeaderMap<HeaderValue>)
    ensures
        header_entries(headers) == event_stream_entries(),
{
    let mut headers = new_headers();
    proof {
        lemma_own_names();
        reveal_strlit("text/event-stream");
        reveal_strlit("no-cache");
        assert(no_entries().dom() =~= Set::<Seq<char>>::empty());
        assert(few_names(no_entries()));
    }
    insert_header(&mut headers, "content-type", static_header_value("text/event-stream"));
    assert(header_entries(headers).dom() =~= no_entries().dom().insert("content-type"@));
    insert_header(&mut headers, "cache-control", static_header_value("no-cache"));
    headers
}

/// Makes the header that tells a client that a body is JSON.
pub fn json_content_type() -> (header: Option<tiny_http::Header>)
    ensures
        header matches Some(header) && reply_header(header) == (
            vstd::utf8::encode_utf8("content-type"@),
            vstd::utf8::encode_utf8("application/json"@),
        ),
{
    proof {
        reveal_strlit("content-type");
        reveal_strlit("application/json");
        lemma_ascii_text("content-type"@);
        lemma_ascii_text("application/json"@);
    }
    make_reply_header("content-type".as_bytes(), "application/json".as_bytes())
}

/// A text of ASCII characters is ASCII in UTF-8.
proof fn lemma_ascii_text(given: Seq<char>)
    requires
        forall|i: int| 0 <= i < given.len() ==> ' ' <= #[trigger] given[i] <= '~',
    ensures
        ascii_bytes(vstd::utf8::encode_utf8(given)),
{
    vstd::utf8::is_ascii_chars_encode_utf8(given);
    let bytes = vstd::utf8::encode_utf8(given);
    assert forall|i: int| 0 <= i < bytes.len() implies #[trigger] bytes[i] < 128 by {
        assert(' ' <= given[i] <= '~');
        assert(bytes[i] == given[i] as u8);
    }
}

/// Makes the headers that go back to the client of a list of headers from upstream.
pub fn relay_listed(listed: &Vec<(String, Vec<u8>)>) -> (headers: Vec<tiny_http::Header>)
    ensures
        reply_view(headers@) == relayed(listed_view(listed@)),
{
    let mut headers: Vec<tiny_http::Header> = Vec::new();
    let ghost view = listed_view(listed@);
    let ghost choice = |one: (Seq<char>, Seq<u8>)| relayed_header(one);
    for i in 0..listed.len()
        invariant
            view == listed_view(listed@),
            choice == (|one: (Seq<char>, Seq<u8>)| relayed_header(one)),
            reply_view(headers@) == text::kept(view.take(i as int), choice),
    {
        let ghost before = reply_view(headers@);
        proof {
            text::lemma_kept_one_more(view, choice, i as int);
            assert(view[i as int] == (listed@[i as int].0@, listed@[i as int].1@));
        }
        let name = listed[i].0.as_str();
        if !is_hop_by_hop(name) {
            if let Some(header) = make_reply_header(name.as_bytes(), listed[i].1.as_slice()) {
                headers.push(header);
                assert(reply_view(headers@) =~= before.push(reply_header(header)));
            }
        }
    }
    assert(view.take(listed@.len() as int) =~= view);
    headers
}

/// Makes the headers that go back to the client of the headers from upstream.
///
/// In which order the names come is left to the collection.
pub fn relay_headers(headers: &HeaderMap<HeaderValue>) -> (relay: Vec<tiny_http::Header>)
    ensures
        exists|listed: Seq<(Seq<char>, Seq<u8>)>| #[trigger]
            lists(listed, header_entries(*headers)) && reply_view(relay@) == relayed(listed),
{
    let listed = list_headers(headers);
    let relay = relay_listed(&listed);
    assert(lists(listed_view(listed@), header_entries(*headers)));
    relay
}

/// No header that concerns one connection only is relayed.
pub proof fn law_no_hop_by_hop_header_is_relayed(listed: Seq<(Seq<char>, Seq<u8>)>, i: int)
    requires
        0 <= i < relayed(listed).len(),
    ensures
        forall|name: Seq<char>|
            hop_by_hop(name) ==> relayed(listed)[i].0 != #[trigger] vstd::utf8::encode_utf8(name),
    decreases listed.len(),
{
    let choice = |one: (Seq<char>, Seq<u8>)| relayed_header(one);
    let before = relayed(listed.drop_last());
    if i < before.len() {
        law_no_hop_by_hop_header_is_relayed(listed.drop_last(), i);
        assert(relayed(listed)[i] == before[i]);
    } else {
        let given = listed.last().0;
        assert(choice(listed.last()) == Some(relayed(listed)[i]));
        assert forall|name: Seq<char>| hop_by_hop(name) implies relayed(listed)[i].0
            != #[trigger] vstd::utf8::encode_utf8(name) by {
            vstd::utf8::encode_utf8_decode_utf8(name);
            vstd::utf8::encode_utf8_decode_utf8(given);
        }
    }
}

/// Every other header that is ASCII is relayed, with every value that it has.
pub proof fn law_other_headers_are_relayed(
    listed: Seq<(Seq<char>, Seq<u8>)>,
    entries: Map<Seq<char>, Seq<HeaderContent>>,
    name: Seq<char>,
    i: int,
)
    requires
        lists(listed, entries),
        !hop_by_hop(name),
        ascii_bytes(vstd::utf8::encode_utf8(name)),
        0 <= i < values_under(entries, name).len(),
        ascii_bytes(values_under(entries, name)[i].bytes),
    ensures
        relayed(listed).contains(
            (vstd::utf8::encode_utf8(name), values_under(entries, name)[i].bytes),
        ),
{
    let named = |one: (Seq<char>, Seq<u8>)| value_if_named(one, name);
    let choice = |one: (Seq<char>, Seq<u8>)| relayed_header(one);
    let under = listed_under(listed, name);
    assert(under == text::kept(listed, named));
    assert(under[i] == values_under(entries, name)[i].bytes);
    let at = text::lemma_kept_from(listed, named, i);
    assert(named(listed[at]) == value_if_named(listed[at], name));
    assert(choice(listed[at]) == relayed_header(listed[at]));
    text::lemma_kept_contains(listed, choice, at);
}

/// A request to the Chat Completions upstream names its host, says that it is JSON and asks for an
/// event stream, whatever the client sent. It says nothing of its length. A configured user agent
/// comes in place of the client's. All other headers are as they were.
pub proof fn law_headers_for_the_chat_upstream(
    entries: Map<Seq<char>, Seq<HeaderContent>>,
    host: HeaderContent,
    user_agent: Option<HeaderContent>,
    name: Seq<char>,
)
    ensures
        ({
            let made = chat_entries(entries, host, user_agent);
            &&& values_under(made, "host"@) == seq![host]
            &&& values_under(made, "content-type"@).len() == 1
            &&& values_under(made, "content-type"@)[0].bytes == vstd::utf8::encode_utf8(
                "application/json"@,
            )
            &&& values_under(made, "accept"@).len() == 1
            &&& values_under(made, "accept"@)[0].bytes == vstd::utf8::encode_utf8(
                "text/event-stream"@,
            )
            &&& !made.contains_key("content-length"@)
            &&& user_agent matches Some(agent) ==> values_under(made, "user-agent"@) == seq![agent]
            &&& user_agent is None ==> values_under(made, "user-agent"@) == values_under(
                entries,
                "user-agent"@,
            )
            &&& (name != "host"@ && name != "content-type"@ && name != "accept"@ && name
                != "content-length"@ && name != "user-agent"@) ==> values_under(made, name)
                == values_under(entries, name)
        }),
{
    reveal_strlit("host");
    reveal_strlit("content-type");
    reveal_strlit("accept");
    reveal_strlit("content-length");
    reveal_strlit("user-agent");
    assert("host"@.len() == 4 && "content-type"@.len() == 12 && "accept"@.len() == 6
        && "content-length"@.len() == 14 && "user-agent"@.len() == 10);
}

/// A request to the Responses upstream names its host, whatever the client sent. All other headers
/// are as they were.
pub proof fn law_headers_for_the_responses_upstream(
    entries: Map<Seq<char>, Seq<HeaderContent>>,
    host: HeaderContent,
    name: Seq<char>,
)
    ensures
        values_under(responses_entries(entries, host), "host"@) == seq![host],
        name != "host"@ ==> values_under(responses_entries(entries, host), name) == values_under(
            entries,
            name,
        ),
{
}

/// The proxy's authorization is the bytes of the text it was given, marked as secret, and alone
/// under its name. It changes no other header of the client.
pub proof fn law_authorization_is_added(
    incoming: Seq<(Seq<char>, Seq<u8>)>,
    auth_header: Seq<char>,
    name: Seq<char>,
)
    ensures
        ({
            let own = values_under(authorized(incoming, auth_header), "authorization"@);
            &&& own.len() == 1
            &&& own[0].bytes == vstd::utf8::encode_utf8(auth_header)
            &&& own[0].sensitive
        }),
        name != "authorization"@ ==> values_under(authorized(incoming, auth_header), name)
            == values_under(forwarded(incoming), name),
{
}

/// One more header of a client puts one more value behind those under its name in lower case, as it
/// is and not marked as secret; it changes nothing where it is an authorization or a host, or where
/// its name or its value is none, and nothing under other names.
pub proof fn law_headers_are_forwarded_one_by_one(
    incoming: Seq<(Seq<char>, Seq<u8>)>,
    name: Seq<char>,
    value: Seq<u8>,
    other: Seq<char>,
)
    ensures
        ({
            let before = forwarded(incoming);
            let after = forwarded(incoming.push((name, value)));
            let lower = text::lower_case(name);
            if lower == "authorization"@ || lower == "host"@ || header_name_of(lower) is None
                || !value_bytes(value) {
                after == before
            } else {
                &&& values_under(after, lower).len() == values_under(before, lower).len() + 1
                &&& values_under(after, lower).drop_last() == values_under(before, lower)
                &&& values_under(after, lower).last().bytes == value
                &&& !values_under(after, lower).last().sensitive
                &&& other != lower ==> values_under(after, other) == values_under(before, other)
            }
        }),
        forwarded(Seq::empty()) == Map::<Seq<char>, Seq<HeaderContent>>::empty(),
{
    assert(incoming.push((name, value)).drop_last() =~= incoming);
    lemma_lower_case_twice(name);
    let lower = text::lower_case(name);
    let (before, after) = (forwarded(incoming), forwarded(incoming.push((name, value))));
    if !(lower == "authorization"@ || lower == "host"@ || header_name_of(lower) is None
        || !value_bytes(value)) {
        assert(header_name_of(lower) == Some(lower));
        assert(values_under(after, lower).drop_last() =~= values_under(before, lower));
    }
}

/// One more header of a reply is one more header for the client, with the same name and the same
/// value; it is none where it concerns one connection only, or where it is not ASCII.
pub proof fn law_headers_are_relayed_one_by_one(
    listed: Seq<(Seq<char>, Seq<u8>)>,
    name: Seq<char>,
    value: Seq<u8>,
)
    ensures
        relayed(Seq::empty()).len() == 0,
        ({
            let bytes = vstd::utf8::encode_utf8(name);
            if name == "content-length"@ || name == "transfer-encoding"@ || name == "connection"@
                || name == "trailer"@ || name == "upgrade"@ || !ascii_bytes(bytes) || !ascii_bytes(
                value,
            ) {
                relayed(listed.push((name, value))) == relayed(listed)
            } else {
                relayed(listed.push((name, value))) == relayed(listed).push((bytes, value))
            }
        }),
{
    let choice = |one: (Seq<char>, Seq<u8>)| relayed_header(one);
    text::lemma_kept_push(listed, (name, value), choice);
    assert(choice((name, value)) == relayed_header((name, value)));
}

/// A reply that is an event stream says so, says that it is not to be kept, and says nothing else.
pub proof fn law_headers_of_an_event_stream(name: Seq<char>)
    ensures
        ({
            let made = event_stream_entries();
            &&& values_under(made, "content-type"@).len() == 1
            &&& values_under(made, "content-type"@)[0].bytes == vstd::utf8::encode_utf8(
                "text/event-stream"@,
            )
            &&& values_under(made, "cache-control"@).len() == 1
            &&& values_under(made, "cache-control"@)[0].bytes == vstd::utf8::encode_utf8(
                "no-cache"@,
            )
            &&& name != "content-type"@ && name != "cache-control"@ ==> !made.contains_key(name)
        }),
{
    reveal_strlit("content-type");
    reveal_strlit("cache-control");
    assert("content-type"@.len() == 12 && "cache-control"@.len() == 13);
}

/// A text is visible exactly where each of its characters is one from the space to the tilde, or a
/// tab; a value of a header has no control characters but tabs.
pub proof fn law_visible_characters(given: Seq<char>, bytes: Seq<u8>)
    ensures
        visible_text(given) <==> forall|i: int|
            0 <= i < given.len() ==> 32 <= #[trigger] given[i] as int <= 126 || given[i] as int == 9,
        value_bytes(bytes) <==> forall|i: int|
            0 <= i < bytes.len() ==> !(#[trigger] bytes[i] < 32 || bytes[i] == 127) || bytes[i] == 9,
{
    if forall|i: int|
        0 <= i < given.len() ==> 32 <= #[trigger] given[i] as int <= 126 || given[i] as int == 9 {
        assert forall|i: int| 0 <= i < given.len() implies ' ' <= #[trigger] given[i] <= '~'
            || given[i] == '\t' by {
            assert(32 <= given[i] as int <= 126 || given[i] as int == 9);
        }
    }
}

} // verus!
