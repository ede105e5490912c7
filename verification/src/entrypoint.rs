//! Starting the proxy: what the configuration asks for.

use vstd::prelude::*;

use crate::headers::{header_fields, name_count, no_fields, MAX_HEADER_NAMES};
use crate::models::{distinct_names, table_of, AppState, Args};
use crate::utils::{
    hashmap_to_headers, json_string_object, parse_default_headers, single_values, table_fields,
};

verus! {

/// The rate limit of the upstream requests: a token bucket.
pub struct RateQuota {
    /// How many tokens come per second.
    pub per_second: u32,
    /// How many tokens the bucket holds.
    pub burst: u32,
}

/// A rate limit is the one that the configuration asks for.
pub open spec fn is_rate_quota(args: Args, quota: Result<RateQuota, String>) -> bool {
    match quota {
        Ok(quota) => {
            &&& quota.per_second == args.rate_limit_per_sec > 0
            &&& quota.burst == args.rate_limit_burst > 0
        },
        Err(message) => if args.rate_limit_per_sec == 0 {
            message@ == "rate_limit_per_sec must be positive"@
        } else {
            &&& args.rate_limit_burst == 0
            &&& message@ == "rate_limit_burst must be positive"@
        },
    }
}

/// The rate limit that the configuration asks for. Neither number may be 0.
pub fn rate_quota(args: &Args) -> (quota: Result<RateQuota, String>)
    ensures
        is_rate_quota(*args, quota),
{
    if args.rate_limit_per_sec == 0 {
        Err("rate_limit_per_sec must be positive".to_string())
    } else if args.rate_limit_burst == 0 {
        Err("rate_limit_burst must be positive".to_string())
    } else {
        Ok(RateQuota { per_second: args.rate_limit_per_sec, burst: args.rate_limit_burst })
    }
}

/// What a proxy is told to be let through.
pub struct Credentials {
    pub username: String,
    pub password: String,
}

/// The proxy through which upstream requests go.
pub struct ProxySettings {
    pub url: String,
    pub credentials: Option<Credentials>,
}

/// How upstream requests are made.
pub struct ClientSettings {
    /// The time that one request may take, in seconds.
    pub timeout_secs: u64,
    /// Whether redirects are followed in place of the client.
    pub follow_redirects: bool,
    pub proxy: Option<ProxySettings>,
}

/// Upstream requests are made as the configuration asks for.
pub open spec fn is_client_settings(args: Args, settings: ClientSettings) -> bool {
    &&& settings.timeout_secs == args.upstream_timeout_secs
    &&& !settings.follow_redirects
    &&& match args.proxy_url {
        None => settings.proxy is None,
        Some(url) => {
            &&& settings.proxy is Some
            &&& settings.proxy->0.url@ == url@
            &&& match (args.proxy_username, args.proxy_password) {
                (Some(username), Some(password)) => {
                    &&& settings.proxy->0.credentials is Some
                    &&& settings.proxy->0.credentials->0.username@ == username@
                    &&& settings.proxy->0.credentials->0.password@ == password@
                },
                _ => settings.proxy->0.credentials is None,
            }
        },
    }
}

/// The way of making upstream requests that the configuration asks for: no
/// redirect is followed, and the proxy is given credentials where there are both
/// a user name and a password.
pub fn client_settings(args: &Args) -> (settings: ClientSettings)
    ensures
        is_client_settings(*args, settings),
{
    let proxy = match &args.proxy_url {
        None => None,
        Some(url) => {
            let credentials = match (&args.proxy_username, &args.proxy_password) {
                (Some(username), Some(password)) => Some(
                    Credentials { username: username.clone(), password: password.clone() },
                ),
                _ => None,
            };
            Some(ProxySettings { url: url.clone(), credentials })
        },
    };
    ClientSettings { timeout_secs: args.upstream_timeout_secs, follow_redirects: false, proxy }
}

/// How failed upstream requests are tried again.
pub struct RetrySettings {
    /// The wait before the second attempt, in milliseconds.
    pub initial_backoff_ms: u64,
    /// By how much each further wait is longer than the one before.
    pub multiplier: u32,
    /// How long attempts are made, in seconds.
    pub max_elapsed_time_secs: u64,
    /// How long all attempts together may take, in seconds.
    pub hard_timeout_secs: u64,
}

/// Failed requests are tried again as the configuration asks for.
pub open spec fn are_retry_settings(args: Args, settings: RetrySettings) -> bool {
    &&& settings.initial_backoff_ms == args.initial_backoff_ms
    &&& settings.multiplier == 2
    &&& settings.max_elapsed_time_secs == args.max_elapsed_time_secs
    &&& settings.hard_timeout_secs == args.hard_timeout_secs
}

/// The way of trying again that the configuration asks for: with every attempt
/// the wait doubles.
pub fn retry_settings(args: &Args) -> (settings: RetrySettings)
    ensures
        are_retry_settings(*args, settings),
{
    RetrySettings {
        initial_backoff_ms: args.initial_backoff_ms,
        multiplier: 2,
        max_elapsed_time_secs: args.max_elapsed_time_secs,
        hard_timeout_secs: args.hard_timeout_secs,
    }
}

/// The state has the fields of these default headers. Where two keys differ in
/// letter case only, the order of their values is left open.
pub open spec fn has_default_headers(state: AppState, headers: Map<Seq<char>, Seq<char>>) -> bool {
    exists|order: Seq<(Seq<char>, Seq<Seq<char>>)>|
        {
            &&& distinct_names(order)
            &&& table_of(order) == single_values(headers)
            &&& header_fields(state.default_headers) == #[trigger] table_fields(order)
        }
}

/// There may be more default headers than a header map has room for.
pub open spec fn too_many_headers(headers: Map<Seq<char>, Seq<char>>) -> bool {
    exists|order: Seq<(Seq<char>, Seq<Seq<char>>)>|
        {
            &&& distinct_names(order)
            &&& table_of(order) == single_values(headers)
            &&& name_count(#[trigger] table_fields(order)) > MAX_HEADER_NAMES
        }
}

/// Makes the state with which requests are handled.
pub fn start(args: Args) -> (state: Result<AppState, String>)
    ensures
        state is Ok ==> state->Ok_0.cfg == args,
        match args.default_headers {
            None => state is Ok && header_fields(state->Ok_0.default_headers) == no_fields(),
            Some(text) => match json_string_object(text@) {
                Err(error) => {
                    &&& state is Err
                    &&& state->Err_0@ == "Invalid DEFAULT_HEADERS: "@ + error
                },
                Ok(headers) => match state {
                    Ok(made) => has_default_headers(made, headers),
                    Err(message) => {
                        &&& too_many_headers(headers)
                        &&& message@ == "Invalid DEFAULT_HEADERS: "@ + "max size reached"@
                    },
                },
            },
        },
{
    match parse_default_headers(args.default_headers.as_ref()) {
        Err(message) => Err(message),
        Ok(table) => match hashmap_to_headers(&table) {
            Ok(default_headers) => Ok(AppState { cfg: args, default_headers }),
            Err(reason) => Err("Invalid DEFAULT_HEADERS: ".to_string().concat(reason.as_str())),
        },
    }
}

} // verus!
