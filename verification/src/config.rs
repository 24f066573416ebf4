//! Where requests go, and how they are to be changed on the way.

use vstd::prelude::*;

use crate::headers;
use crate::text;

use reqwest::header::HeaderValue;

verus! {

/// What a URL says of where it leads.
pub struct UrlParts {
    pub href: Seq<char>,
    pub host: Option<Seq<char>>,
    pub port: Option<u16>,
}

/// A URL that requests are sent to.
#[derive(Debug)]
pub struct UpstreamUrl {
    /// The whole URL.
    pub href: String,
    /// Its host, where it has one.
    pub host: Option<String>,
    /// Its port, where it has one that is not the usual one of its scheme.
    pub port: Option<u16>,
}

/// What the proxy was told at its start, as far as it bears on where requests go.
///
/// A temperature that is not finite has no number.
#[derive(Debug)]
pub struct Args {
    pub upstream_url: String,
    pub chat_completions_upstream_url: Option<String>,
    pub chat_completions_host_header: Option<String>,
    pub chat_completions_model: Option<String>,
    pub chat_completions_tool_field: String,
    pub chat_completions_user_agent: Option<String>,
    pub chat_completions_thinking: bool,
    pub chat_completions_max_tokens: u32,
    pub chat_completions_temperature: Option<serde_json::Number>,
    pub chat_completions_stream_upstream: bool,
}

/// How requests are passed on to a Responses upstream.
#[derive(Debug)]
pub struct ResponsesForwardConfig {
    pub upstream_url: UpstreamUrl,
    pub host_header: HeaderValue,
}

/// How requests are carried over to a Chat Completions upstream.
#[derive(Debug)]
pub struct ChatCompletionsBridgeConfig {
    pub upstream_url: UpstreamUrl,
    pub host_header: HeaderValue,
    pub model: Option<String>,
    pub tool_field: String,
    pub user_agent: Option<HeaderValue>,
    pub thinking: bool,
    pub max_tokens: u32,
    /// A temperature that is not finite has no number.
    pub temperature: Option<serde_json::Number>,
    pub stream_upstream: bool,
}

/// Which kind of upstream requests go to.
#[derive(Debug)]
pub enum ForwardMode {
    Responses(ResponsesForwardConfig),
    ChatCompletions(ChatCompletionsBridgeConfig),
}

/// Why the proxy cannot start.
#[derive(Debug)]
pub enum ConfigError {
    /// The Chat Completions URL is none, for the reason given.
    BadChatUrl(String),
    /// The Responses URL is none, for the reason given.
    BadUrl(String),
    /// The URL has no host.
    NoHost,
    /// The host cannot stand in a header.
    BadHostHeader,
    /// The user agent cannot stand in a header.
    BadUserAgent,
}

/// What `Url::parse` makes of a text: the parts of the URL, or the reason why it is none.
pub uninterp spec fn url_of_text(text: Seq<char>) -> Result<UrlParts, Seq<char>>;

/// `Url::parse` reads a URL. What it reads from which text is known only by the name
/// [`url_of_text`]; the URL is given by its text, its host and its port.
#[verifier::external_body]
fn read_url(given: &str) -> (read: Result<UpstreamUrl, String>)
    ensures
        match read {
            Ok(url) => url_of_text(given@) == Ok::<UrlParts, Seq<char>>(url.parts()),
            Err(reason) => url_of_text(given@) == Err::<UrlParts, Seq<char>>(reason@),
        },
{
    match reqwest::Url::parse(given) {
        Ok(url) => Ok(
            UpstreamUrl {
                href: url.as_str().to_owned(),
                host: url.host_str().map(|host| host.to_owned()),
                port: url.port(),
            },
        ),
        Err(reason) => Err(reason.to_string()),
    }
}

/// The characters of a text, where there is one.
pub open spec fn some_text(given: Option<String>) -> Option<Seq<char>> {
    match given {
        Some(given) => Some(given@),
        None => None,
    }
}

impl UpstreamUrl {
    /// The parts of this URL.
    pub open spec fn parts(self) -> UrlParts {
        UrlParts { href: self.href@, host: some_text(self.host), port: self.port }
    }

    /// Reads a URL.
    pub fn parse(given: &str) -> (read: Result<UpstreamUrl, String>)
        ensures
            match read {
                Ok(url) => url_of_text(given@) == Ok::<UrlParts, Seq<char>>(url.parts()),
                Err(reason) => url_of_text(given@) == Err::<UrlParts, Seq<char>>(reason@),
            },
    {
        read_url(given)
    }
}

impl ConfigError {
    /// The sentence that tells what is wrong.
    pub open spec fn sentence(self) -> Seq<char> {
        match self {
            ConfigError::BadChatUrl(_) => "parsing --chat-completions-upstream-url"@,
            ConfigError::BadUrl(_) => "parsing --upstream-url"@,
            ConfigError::NoHost => "upstream URL must include a host"@,
            ConfigError::BadHostHeader => "constructing Host header from upstream URL"@,
            ConfigError::BadUserAgent => {
                "constructing User-Agent header from --chat-completions-user-agent"@
            },
        }
    }

    /// Gives the sentence that tells what is wrong.
    pub fn message(&self) -> (message: String)
        ensures
            message@ == self.sentence(),
    {
        match self {
            ConfigError::BadChatUrl(_) => "parsing --chat-completions-upstream-url".to_owned(),
            ConfigError::BadUrl(_) => "parsing --upstream-url".to_owned(),
            ConfigError::NoHost => "upstream URL must include a host".to_owned(),
            ConfigError::BadHostHeader => "constructing Host header from upstream URL".to_owned(),
            ConfigError::BadUserAgent => {
                "constructing User-Agent header from --chat-completions-user-agent".to_owned()
            },
        }
    }
}

/// The host that requests name: the one given, else that of the URL, with its port where it has
/// one. `None` where there is no host.
pub open spec fn host_text(url: UrlParts, override_host: Option<Seq<char>>) -> Option<Seq<char>> {
    match override_host {
        Some(host) => Some(host),
        None => match url.host {
            Some(host) => match url.port {
                Some(port) => Some(host + ":"@ + text::decimal(port as nat)),
                None => Some(host),
            },
            None => None,
        },
    }
}

/// Makes the header that names the host of a URL, or another host in its place.
pub fn host_header_for_url(upstream_url: &UpstreamUrl, override_host: Option<&str>) -> (made:
    Result<HeaderValue, ConfigError>)
    ensures
        ({
            let given = match override_host {
                Some(host) => Some(host@),
                None => None,
            };
            match host_text(upstream_url.parts(), given) {
                Some(host) => if headers::value_text(host) {
                    made matches Ok(value) && headers::header_content(value)
                        == headers::text_content(host)
                } else {
                    made == Err::<HeaderValue, ConfigError>(ConfigError::BadHostHeader)
                },
                None => made == Err::<HeaderValue, ConfigError>(ConfigError::NoHost),
            }
        }),
{
    let host: String = match override_host {
        Some(host) => host.to_owned(),
        None => match &upstream_url.host {
            Some(host) => match upstream_url.port {
                Some(port) => {
                    let mut whole = host.clone();
                    whole.push_str(":");
                    whole.push_str(text::decimal_text(port as u128).as_str());
                    whole
                },
                None => host.clone(),
            },
            None => {
                return Err(ConfigError::NoHost);
            },
        },
    };
    match headers::read_header_text(host.as_str()) {
        Some(value) => Ok(value),
        None => Err(ConfigError::BadHostHeader),
    }
}

/// The URL that requests go to, as the proxy was told.
pub open spec fn url_text(args: Args) -> Seq<char> {
    match args.chat_completions_upstream_url {
        Some(url) => url@,
        None => args.upstream_url@,
    }
}

/// Whether a text can stand in a header. No text always can.
pub open spec fn writable_if_given(given: Option<Seq<char>>) -> bool {
    match given {
        Some(given) => headers::value_text(given),
        None => true,
    }
}

/// Whether a header holds a text, where there is one.
pub open spec fn holds_text(header: Option<HeaderValue>, given: Option<Seq<char>>) -> bool {
    match given {
        Some(given) => header matches Some(value) && headers::header_content(value)
            == headers::text_content(given),
        None => header is None,
    }
}

/// Whether a configuration is the one that the proxy was told, for a URL that was read with the
/// result given.
pub open spec fn configured(
    args: Args,
    url: Result<UrlParts, Seq<char>>,
    made: Result<ForwardMode, ConfigError>,
) -> bool {
    let bridge = args.chat_completions_upstream_url is Some;
    let override_host = if bridge {
        some_text(args.chat_completions_host_header)
    } else {
        None
    };
    match url {
        Err(reason) => if bridge {
            made matches Err(ConfigError::BadChatUrl(given)) && given@ == reason
        } else {
            made matches Err(ConfigError::BadUrl(given)) && given@ == reason
        },
        Ok(parts) => match host_text(parts, override_host) {
            None => made matches Err(ConfigError::NoHost),
            Some(host) => if !headers::value_text(host) {
                made matches Err(ConfigError::BadHostHeader)
            } else if !bridge {
                made matches Ok(ForwardMode::Responses(config)) && {
                    &&& config.upstream_url.parts() == parts
                    &&& headers::header_content(config.host_header) == headers::text_content(host)
                }
            } else if !writable_if_given(some_text(args.chat_completions_user_agent)) {
                made matches Err(ConfigError::BadUserAgent)
            } else {
                made matches Ok(ForwardMode::ChatCompletions(config)) && {
                    &&& config.upstream_url.parts() == parts
                    &&& headers::header_content(config.host_header) == headers::text_content(host)
                    &&& holds_text(config.user_agent, some_text(args.chat_completions_user_agent))
                    &&& config.model == args.chat_completions_model
                    &&& config.tool_field == args.chat_completions_tool_field
                    &&& config.thinking == args.chat_completions_thinking
                    &&& config.max_tokens == args.chat_completions_max_tokens
                    &&& config.temperature == args.chat_completions_temperature
                    &&& config.stream_upstream == args.chat_completions_stream_upstream
                }
            },
        },
    }
}

/// What reading a URL gave, in terms of what the URL says.
pub open spec fn read_parts(read: Result<UpstreamUrl, String>) -> Result<UrlParts, Seq<char>> {
    match read {
        Ok(url) => Ok(url.parts()),
        Err(reason) => Err(reason@),
    }
}

/// Makes the configuration that the proxy was told, for a URL that was read with the result
/// given.
pub fn forward_mode_for_url(args: Args, url: Result<UpstreamUrl, String>) -> (made: Result<
    ForwardMode,
    ConfigError,
>)
    ensures
        configured(args, read_parts(url), made),
{
    let bridge = args.chat_completions_upstream_url.is_some();
    let upstream_url = match url {
        Ok(url) => url,
        Err(reason) => {
            return Err(
                if bridge {
                    ConfigError::BadChatUrl(reason)
                } else {
                    ConfigError::BadUrl(reason)
                },
            );
        },
    };
    if !bridge {
        return match host_header_for_url(&upstream_url, None) {
            Ok(host_header) => Ok(
                ForwardMode::Responses(ResponsesForwardConfig { upstream_url, host_header }),
            ),
            Err(error) => Err(error),
        };
    }
    let override_host = match &args.chat_completions_host_header {
        Some(host) => Some(host.as_str()),
        None => None,
    };
    let host_header = match host_header_for_url(&upstream_url, override_host) {
        Ok(host_header) => host_header,
        Err(error) => {
            return Err(error);
        },
    };
    let user_agent = match &args.chat_completions_user_agent {
        Some(user_agent) => match headers::read_header_text(user_agent.as_str()) {
            Some(value) => Some(value),
            None => {
                return Err(ConfigError::BadUserAgent);
            },
        },
        None => None,
    };
    Ok(
        ForwardMode::ChatCompletions(
            ChatCompletionsBridgeConfig {
                upstream_url,
                host_header,
                model: args.chat_completions_model,
                tool_field: args.chat_completions_tool_field,
                user_agent,
                thinking: args.chat_completions_thinking,
                max_tokens: args.chat_completions_max_tokens,
                temperature: args.chat_completions_temperature,
                stream_upstream: args.chat_completions_stream_upstream,
            },
        ),
    )
}

/// Makes the configuration that the proxy was told.
pub fn forward_mode(args: Args) -> (made: Result<ForwardMode, ConfigError>)
    ensures
        configured(args, url_of_text(url_text(args)), made),
{
    let url = match &args.chat_completions_upstream_url {
        Some(url) => UpstreamUrl::parse(url.as_str()),
        None => UpstreamUrl::parse(args.upstream_url.as_str()),
    };
    forward_mode_for_url(args, url)
}

// ---------------------------------------------------------------------------------------------
// Laws
// ---------------------------------------------------------------------------------------------

/// Requests name the host that is given for them. Else they name that of the URL, with a colon and
/// the port in decimal digits where it has one. A URL without a host names none.
pub proof fn law_requests_name_a_host(url: UrlParts, given: Option<Seq<char>>)
    ensures
        given is Some ==> host_text(url, given) == given,
        given is None && url.port is None ==> host_text(url, given) == url.host,
        given is None && url.host is None ==> host_text(url, given) is None,
        given is None ==> (url.host matches Some(host) ==> (url.port matches Some(port)
            ==> host_text(url, given) == Some(host + seq![':'] + text::decimal(port as nat)))),
{
    reveal_strlit(":");
    assert(":"@ =~= seq![':']);
}

/// A proxy that was told a Chat Completions URL carries requests over to it, with every setting as
/// it was told; any other passes requests on to its Responses URL. A URL that is none, that has no
/// host, and a host or a user agent that cannot stand in a header are refused, in this order.
pub proof fn law_the_proxy_does_as_it_was_told(
    args: Args,
    url: Result<UrlParts, Seq<char>>,
    made: Result<ForwardMode, ConfigError>,
)
    requires
        configured(args, url, made),
    ensures
        match args.chat_completions_upstream_url {
            None => match url {
                Err(reason) => made matches Err(ConfigError::BadUrl(given)) && given@ == reason,
                Ok(parts) => match host_text(parts, None) {
                    None => made matches Err(ConfigError::NoHost),
                    Some(host) => if headers::value_text(host) {
                        made matches Ok(ForwardMode::Responses(config)) && {
                            &&& config.upstream_url.parts() == parts
                            &&& headers::header_content(config.host_header).bytes
                                == vstd::utf8::encode_utf8(host)
                            &&& !headers::header_content(config.host_header).sensitive
                        }
                    } else {
                        made matches Err(ConfigError::BadHostHeader)
                    },
                },
            },
            Some(_) => match url {
                Err(reason) => made matches Err(ConfigError::BadChatUrl(given)) && given@ == reason,
                Ok(parts) => {
                    let given = match args.chat_completions_host_header {
                        Some(host) => Some(host@),
                        None => None,
                    };
                    match host_text(parts, given) {
                        None => made matches Err(ConfigError::NoHost),
                        Some(host) => if !headers::value_text(host) {
                            made matches Err(ConfigError::BadHostHeader)
                        } else if args.chat_completions_user_agent is Some && !headers::value_text(
                            args.chat_completions_user_agent->Some_0@,
                        ) {
                            made matches Err(ConfigError::BadUserAgent)
                        } else {
                            made matches Ok(ForwardMode::ChatCompletions(config)) && {
                                &&& config.upstream_url.parts() == parts
                                &&& headers::header_content(config.host_header).bytes
                                    == vstd::utf8::encode_utf8(host)
                                &&& !headers::header_content(config.host_header).sensitive
                                &&& config.model == args.chat_completions_model
                                &&& config.tool_field == args.chat_completions_tool_field
                                &&& config.thinking == args.chat_completions_thinking
                                &&& config.max_tokens == args.chat_completions_max_tokens
                                &&& config.temperature == args.chat_completions_temperature
                                &&& config.stream_upstream == args.chat_completions_stream_upstream
                                &&& match args.chat_completions_user_agent {
                                    None => config.user_agent is None,
                                    Some(agent) => config.user_agent matches Some(value)
                                        && headers::header_content(value).bytes
                                        == vstd::utf8::encode_utf8(agent@),
                                }
                            }
                        },
                    }
                },
            },
        },
{
}

/// The URL that is read is the Chat Completions URL where there is one, else the Responses URL.
pub proof fn law_which_url_is_read(args: Args)
    ensures
        args.chat_completions_upstream_url matches Some(url) ==> url_text(args) == url@,
        args.chat_completions_upstream_url is None ==> url_text(args) == args.upstream_url@,
{
}

} // verus!
