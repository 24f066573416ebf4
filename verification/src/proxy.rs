//! What the proxy does with a request, and what it answers.

use vstd::prelude::*;

use crate::config::{ChatCompletionsBridgeConfig, ResponsesForwardConfig};
use crate::headers;
use crate::ids;
use crate::ids::IdSource;
use crate::json;
use crate::json::{Json, JsonValue};
use crate::render;
use crate::request;
use crate::request::BridgeRequestContext;
use crate::text;

use reqwest::header::{HeaderMap, HeaderValue};

verus! {

// ---------------------------------------------------------------------------------------------
// Routes
// ---------------------------------------------------------------------------------------------

/// The method of a request, as far as it matters here.
#[derive(Debug, Clone, Copy, PartialEq, Eq, Structural)]
pub enum RequestMethod {
    Get,
    Post,
    Other,
}

/// What is done with a request.
#[derive(Debug, Clone, Copy, PartialEq, Eq, Structural)]
pub enum Route {
    /// It is answered, and the proxy stops.
    Shutdown,
    /// It goes upstream.
    Forward,
    /// It is refused.
    Forbidden,
}

/// What is done with a request. Only a `POST` of exactly `/v1/responses` goes upstream, without a
/// query string. A `GET` of `/shutdown` stops the proxy, where this is enabled.
pub open spec fn route_for(http_shutdown: bool, method: RequestMethod, url: Seq<char>) -> Route {
    if http_shutdown && method == RequestMethod::Get && url == "/shutdown"@ {
        Route::Shutdown
    } else if method == RequestMethod::Post && url == "/v1/responses"@ {
        Route::Forward
    } else {
        Route::Forbidden
    }
}

/// The status that a request is answered with, where it does not go upstream.
pub open spec fn route_status(route: Route) -> Option<u16> {
    match route {
        Route::Shutdown => Some(200),
        Route::Forward => None,
        Route::Forbidden => Some(403),
    }
}

/// Tells what is done with a request.
pub fn route(http_shutdown: bool, method: RequestMethod, url: &str) -> (route: Route)
    ensures
        route == route_for(http_shutdown, method, url@),
{
    if http_shutdown && method == RequestMethod::Get && text::same_text(url, "/shutdown") {
        Route::Shutdown
    } else if method == RequestMethod::Post && text::same_text(url, "/v1/responses") {
        Route::Forward
    } else {
        Route::Forbidden
    }
}

/// Gives the status that a request is answered with, with an empty body, where it does not go
/// upstream.
pub fn status_of_route(route: Route) -> (status: Option<u16>)
    ensures
        status == route_status(route),
{
    match route {
        Route::Shutdown => Some(200),
        Route::Forward => None,
        Route::Forbidden => Some(403),
    }
}

/// Nothing but a `POST` of exactly `/v1/responses` ever goes upstream, and every such request
/// does, whether the proxy can be stopped or not.
pub proof fn law_only_responses_go_upstream(
    http_shutdown: bool,
    method: RequestMethod,
    url: Seq<char>,
)
    ensures
        route_for(http_shutdown, method, url) == Route::Forward <==> (method == RequestMethod::Post
            && url == "/v1/responses"@),
        route_for(false, method, url) != Route::Shutdown,
{
}

// ---------------------------------------------------------------------------------------------
// Answers
// ---------------------------------------------------------------------------------------------

/// The answer to a request that failed.
#[derive(Debug)]
pub struct ErrorReply {
    pub status: u16,
    pub body: String,
    pub content_type: Option<tiny_http::Header>,
}

/// The answer to a request that went upstream.
#[derive(Debug)]
pub struct Reply {
    pub status: u16,
    pub headers: HeaderMap<HeaderValue>,
    pub body: Vec<u8>,
}

/// The body that tells a client what went wrong.
pub open spec fn error_value(message: Seq<char>) -> JsonValue {
    JsonValue::object().with(
        "error"@,
        JsonValue::object().with("message"@, JsonValue::Str(message)).with(
            "type"@,
            JsonValue::Str("invalid_request_error"@),
        ),
    )
}

/// Whether an answer has the given status and tells a client the given message, as JSON.
pub open spec fn tells(reply: ErrorReply, status: u16, message: Seq<char>) -> bool {
    &&& reply.status == status
    &&& reply.body@ == json::json_text(error_value(message))
    &&& json::json_of_text(reply.body@) == Some(error_value(message))
    &&& reply.content_type matches Some(header) && headers::reply_header(header) == (
        vstd::utf8::encode_utf8("content-type"@),
        vstd::utf8::encode_utf8("application/json"@),
    )
}

/// Makes the answer that tells a client what went wrong.
pub fn error_reply(status: u16, message: &str) -> (reply: ErrorReply)
    ensures
        tells(reply, status, message@),
{
    let value = Json::object().with(
        "error",
        Json::object().with("message", Json::text(message)).with(
            "type",
            Json::text("invalid_request_error"),
        ),
    );
    proof {
        reveal_with_fuel(json::exact, 3);
        assert(json::exact(value@, 127));
    }
    ErrorReply { status, body: value.to_text(), content_type: headers::json_content_type() }
}

/// Gives a length as one that fits into memory, where it does.
pub fn length_in_memory(length: Option<u64>) -> (fitting: Option<usize>)
    ensures
        match length {
            Some(length) => if length <= usize::MAX {
                fitting == Some(length as usize)
            } else {
                fitting is None
            },
            None => fitting is None,
        },
{
    match length {
        Some(length) => if length <= usize::MAX as u64 {
            Some(length as usize)
        } else {
            None
        },
        None => None,
    }
}

// ---------------------------------------------------------------------------------------------
// Requests that go upstream
// ---------------------------------------------------------------------------------------------

/// A request to an upstream.
#[derive(Debug)]
pub struct UpstreamRequest {
    pub url: String,
    pub headers: HeaderMap<HeaderValue>,
    pub body: Vec<u8>,
}

/// What comes of a request that is carried over to the Chat Completions API.
#[derive(Debug)]
pub enum BridgeStart {
    /// It is answered right away.
    Answer(ErrorReply),
    /// It goes upstream, and this is to be remembered of it.
    Send(UpstreamRequest, BridgeRequestContext),
    /// It has more headers than can be collected.
    TooManyHeaders,
}

/// What comes of the reply to a request that was carried over.
#[derive(Debug)]
pub enum BridgeEnd {
    /// This goes back to the client.
    Answer(Reply),
    /// The client is told that something went wrong.
    Failure(ErrorReply),
}

/// Makes the request that goes to the Responses upstream: the body as it is, and the headers with
/// the host.
///
/// `None` means that there are more headers than can be collected.
pub fn forwarded_request(
    config: &ResponsesForwardConfig,
    headers: HeaderMap<HeaderValue>,
    body: Vec<u8>,
) -> (made: Option<UpstreamRequest>)
    ensures
        match made {
            Some(made) => {
                &&& made.url@ == config.upstream_url.href@
                &&& made.body@ == body@
                &&& headers::header_entries(made.headers) == headers::responses_entries(
                    headers::header_entries(headers),
                    headers::header_content(config.host_header),
                )
            },
            None => !headers::few_names(headers::header_entries(headers)),
        },
{
    match headers::headers_for_responses(headers, &config.host_header) {
        Some(headers) => Some(
            UpstreamRequest { url: config.upstream_url.href.clone(), headers, body },
        ),
        None => None,
    }
}

/// The content of the user agent header, where one is configured.
pub open spec fn agent_content(config: ChatCompletionsBridgeConfig) -> Option<
    headers::HeaderContent,
> {
    match config.user_agent {
        Some(user_agent) => Some(headers::header_content(user_agent)),
        None => None,
    }
}

/// Carries a request over to the Chat Completions API. A request that cannot be carried over is
/// answered with status 400 and the reason.
pub fn begin_bridge(
    config: &ChatCompletionsBridgeConfig,
    headers: HeaderMap<HeaderValue>,
    body: &[u8],
    ids: &mut IdSource,
) -> (start: BridgeStart)
    ensures
        ids::advanced(*old(ids), *final(ids), request::body_issues(body@, *config)),
        match request::body_outcome(body@, *config, ids::issued(*old(ids), *final(ids))) {
            Err(error) => start matches BridgeStart::Answer(reply) && tells(
                reply,
                400,
                error.sentence(),
            ),
            Ok((chat, context)) => match start {
                BridgeStart::Answer(_) => false,
                BridgeStart::Send(made, remembered) => {
                    &&& made.url@ == config.upstream_url.href@
                    &&& made.body@ == vstd::utf8::encode_utf8(json::json_text(chat))
                    &&& headers::header_entries(made.headers) == headers::chat_entries(
                        headers::header_entries(headers),
                        headers::header_content(config.host_header),
                        agent_content(*config),
                    )
                    &&& remembered@ == context
                },
                BridgeStart::TooManyHeaders => !headers::room_for_three(
                    headers::header_entries(headers),
                ),
            },
        },
{
    match request::build_chat_completion_request(body, config, ids) {
        Err(error) => BridgeStart::Answer(error_reply(400, error.message().as_str())),
        Ok((chat, context)) => {
            match headers::headers_for_chat(headers, &config.host_header, &config.user_agent) {
                Some(headers) => BridgeStart::Send(
                    UpstreamRequest {
                        url: config.upstream_url.href.clone(),
                        headers,
                        body: chat.to_bytes(),
                    },
                    context,
                ),
                None => BridgeStart::TooManyHeaders,
            }
        },
    }
}

/// Whether a status tells of success.
pub open spec fn success(status: u16) -> bool {
    200 <= status < 300
}

/// Carries the reply of the Chat Completions API back. A reply that does not tell of success goes
/// back as it is; any other becomes an event stream. One that cannot be read is answered with
/// status 502 and the reason.
pub fn finish_bridge(
    status: u16,
    headers: HeaderMap<HeaderValue>,
    body: &str,
    request_context: &BridgeRequestContext,
    ids: &mut IdSource,
) -> (end: BridgeEnd)
    ensures
        if !success(status) {
            &&& ids::advanced(*old(ids), *final(ids), 0)
            &&& end matches BridgeEnd::Answer(reply) && {
                &&& reply.status == status
                &&& reply.headers == headers
                &&& reply.body@ == vstd::utf8::encode_utf8(body@)
            }
        } else {
            match render::body_outcome(body@) {
                Err(error) => {
                    &&& ids::advanced(*old(ids), *final(ids), 0)
                    &&& end matches BridgeEnd::Failure(reply) && tells(
                        reply,
                        502,
                        error.sentence(),
                    )
                },
                Ok(output) => {
                    &&& ids::advanced(*old(ids), *final(ids), render::output_issues(output))
                    &&& end matches BridgeEnd::Answer(reply) && {
                        &&& reply.status == 200
                        &&& headers::header_entries(reply.headers)
                            == headers::event_stream_entries()
                        &&& render::streams_in_utf8(
                            reply.body@,
                            render::output_events(
                                output,
                                request_context@,
                                ids::issued(*old(ids), *final(ids)),
                            ),
                        )
                    }
                },
            }
        },
{
    proof {
        ids::lemma_advanced_none(*ids);
    }
    if status < 200 || status >= 300 {
        return BridgeEnd::Answer(
            Reply { status, headers, body: vstd::slice::slice_to_vec(body.as_bytes()) },
        );
    }
    match render::normalize_chat_completion_response(body, request_context, ids) {
        Ok(body) => BridgeEnd::Answer(
            Reply { status: 200, headers: headers::event_stream_headers(), body },
        ),
        Err(error) => BridgeEnd::Failure(error_reply(502, error.message().as_str())),
    }
}

// ---------------------------------------------------------------------------------------------
// Laws
// ---------------------------------------------------------------------------------------------

/// A client is told what went wrong in an object whose only member is the error: the message, word
/// for word, and the kind of error.
pub proof fn law_errors_are_told_word_for_word(message: Seq<char>)
    ensures
        ({
            let value = error_value(message);
            &&& value.has_keys(set!["error"@])
            &&& value.get("error"@) matches Some(error) && {
                &&& error.has_keys(set!["message"@, "type"@])
                &&& error.get_str("message"@) == Some(message)
                &&& error.get_str("type"@) == Some("invalid_request_error"@)
            }
        }),
{
    reveal_strlit("message");
    reveal_strlit("type");
    assert("message"@.len() == 7 && "type"@.len() == 4);
}

/// The proxy stops only where this is enabled, and then on a `GET` of exactly `/shutdown`; it
/// answers this, and refuses all that does not go upstream.
pub proof fn law_what_stops_the_proxy(http_shutdown: bool, method: RequestMethod, url: Seq<char>)
    ensures
        route_for(http_shutdown, method, url) == Route::Shutdown <==> (http_shutdown && method
            == RequestMethod::Get && url == "/shutdown"@),
        route_for(http_shutdown, method, url) == Route::Forbidden ==> route_status(
            route_for(http_shutdown, method, url),
        ) == Some(403u16),
        route_status(Route::Shutdown) == Some(200u16),
        route_status(Route::Forward) is None,
{
}

/// A status tells of success exactly where it has three digits and begins with a two.
pub proof fn law_which_status_is_success(status: u16)
    ensures
        success(status) <==> status / 100 == 2,
{
}

/// An answer that tells what went wrong has its status, says that it is JSON, and is read as an
/// object that holds the message word for word.
pub proof fn law_error_answers_are_read_as_told(reply: ErrorReply, status: u16, message: Seq<char>)
    requires
        tells(reply, status, message),
    ensures
        reply.status == status,
        json::json_of_text(reply.body@) matches Some(value) && value.get("error"@) matches Some(
            error,
        ) && error.get_str("message"@) == Some(message),
        reply.content_type matches Some(header) && headers::reply_header(header).0
            == vstd::utf8::encode_utf8("content-type"@) && headers::reply_header(header).1
            == vstd::utf8::encode_utf8("application/json"@),
{
    law_errors_are_told_word_for_word(message);
}

/// A configured user agent is the one that is sent.
pub proof fn law_the_configured_agent_is_sent(config: ChatCompletionsBridgeConfig)
    ensures
        config.user_agent matches Some(agent) ==> agent_content(config) == Some(
            headers::header_content(agent),
        ),
        config.user_agent is None ==> agent_content(config) is None,
{
}

} // verus!
