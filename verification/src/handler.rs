//! Handling a request: where it goes, what is sent upstream, what counts as a
//! failure, and what the client is answered.

use axum::http::{HeaderMap, Method, StatusCode};
use vstd::prelude::*;

use crate::build_response::{
    build_buffered_response, build_cached_response, build_streaming_response, built, is_crowded,
    is_hit, with_cache_mark,
};
use crate::cache::{
    cache_response, cached_form, is_cached_form, try_get_cached_response, CacheLookup, CacheWrite,
};
use crate::headers::{
    append_field, contains_header, field_views, fields_of, first_value, get_header, header_fields,
    header_list, header_text, header_value_text, lemma_fields_of_names, lemma_fields_of_take,
    name_count, name_text, parse_header_name, parsed_header_name, try_append_header, Fields,
    MAX_HEADER_NAMES,
};
use crate::models::{AppState, Args, BodyView, HandlerResult, UpstreamError};
use crate::response::is_status_code;
use crate::text::{
    ascii_lower, parse_u64, parsed_u64, trim_trailing_slashes, without_trailing_slashes,
};
use crate::utils::{
    cache_key, end_to_end, error_response, filter_headers, generate_cache_key, text_fields,
};

verus! {

// Methods and status codes

/// The methods that are idempotent.
pub open spec fn is_idempotent(method: Seq<char>) -> bool {
    ||| method == "GET"@
    ||| method == "HEAD"@
    ||| method == "OPTIONS"@
    ||| method == "TRACE"@
    ||| method == "QUERY"@
    ||| method == "PUT"@
    ||| method == "DELETE"@
}

/// `Method::is_idempotent`: true of the safe methods, which are `GET`, `HEAD`,
/// `OPTIONS`, `TRACE` and `QUERY`, and of `PUT` and `DELETE`. A text that is no
/// method is none of them.
#[verifier::external_body]
fn method_is_idempotent(method: &str) -> (idempotent: bool)
    ensures
        idempotent == is_idempotent(method@),
{
    match Method::from_bytes(method.as_bytes()) {
        Ok(method) => method.is_idempotent(),
        Err(_) => false,
    }
}

/// The standard reason phrase of a status code.
pub uninterp spec fn reason_phrase(status: u16) -> Option<Seq<char>>;

/// `StatusCode::canonical_reason`: the standard reason phrase of a status code,
/// where it has one. A number that is no status code has none.
#[verifier::external_body]
fn canonical_reason(status: u16) -> (reason: Option<String>)
    ensures
        match reason {
            Some(phrase) => reason_phrase(status) == Some(phrase@),
            None => reason_phrase(status) is None,
        },
{
    let status = StatusCode::from_u16(status).ok()?;
    status.canonical_reason().map(|reason| reason.to_string())
}

/// The three digits of a status code.
pub open spec fn status_digits(status: u16) -> Seq<char> {
    seq![
        ('0' as u32 + status / 100) as char,
        ('0' as u32 + status / 10 % 10) as char,
        ('0' as u32 + status % 10) as char,
    ]
}

/// How a status is named in an error: code and reason phrase, then the phrase
/// once more.
pub open spec fn status_text(status: u16, reason: Option<Seq<char>>) -> Seq<char> {
    match reason {
        Some(phrase) => status_digits(status) + " "@ + phrase + ": "@ + phrase,
        None => status_digits(status) + " <unknown status code>: Unknown"@,
    }
}

/// Names a status with the given reason phrase.
pub fn describe_status(status: u16, reason: Option<String>) -> (text: String)
    requires
        is_status_code(status),
    ensures
        text@ == status_text(
            status,
            match reason {
                Some(phrase) => Some(phrase@),
                None => None,
            },
        ),
{
    let mut text = String::new();
    text.push((48 + (status / 100) as u8) as char);
    text.push((48 + (status / 10 % 10) as u8) as char);
    text.push((48 + (status % 10) as u8) as char);
    assert(text@ =~= status_digits(status));
    match reason {
        Some(phrase) => {
            text.append(" ");
            text.append(phrase.as_str());
            text.append(": ");
            text.append(phrase.as_str());
        },
        None => {
            text.append(" <unknown status code>: Unknown");
        },
    }
    text
}

/// The statuses that count as a failure of the upstream: too many requests, and
/// every server error.
pub open spec fn is_retryable(status: u16) -> bool {
    status == 429 || 500 <= status <= 599
}

/// Whether a response with this status is retried. Client errors other than too
/// many requests are returned at once.
pub fn should_retry_status(status: u16) -> (retry: bool)
    ensures
        retry == is_retryable(status),
{
    status == 429 || (500 <= status && status <= 599)
}

/// An answer of the upstream; its body is yet to come.
pub struct UpstreamAnswer {
    pub status: u16,
    pub headers: HeaderMap,
}

/// How one attempt at the upstream ended.
pub enum Attempt {
    /// The upstream answered.
    Answered(UpstreamAnswer),
    /// The request failed, with the reason.
    Failed(String),
}

impl Attempt {
    /// An answer has a status code.
    pub open spec fn is_valid(self) -> bool {
        match self {
            Attempt::Answered(answer) => is_status_code(answer.status),
            Attempt::Failed(_) => true,
        }
    }
}

/// Whether another attempt is made after this one, as long as there is time.
pub open spec fn is_retried(attempt: Attempt) -> bool {
    match attempt {
        Attempt::Answered(answer) => is_retryable(answer.status),
        Attempt::Failed(_) => true,
    }
}

/// What an attempt amounts to.
pub open spec fn is_attempt_outcome(
    attempt: Attempt,
    outcome: Result<UpstreamAnswer, UpstreamError>,
) -> bool {
    match attempt {
        Attempt::Answered(answer) => if is_retryable(answer.status) {
            &&& outcome matches Err(UpstreamError::BadStatus(text))
            &&& text@ == status_text(answer.status, reason_phrase(answer.status))
        } else {
            outcome == Ok::<UpstreamAnswer, UpstreamError>(answer)
        },
        Attempt::Failed(reason) => {
            &&& outcome matches Err(UpstreamError::RequestFailed(text))
            &&& text@ == reason@
        },
    }
}

/// Judges an attempt: the answer to be passed on, or the failure to be retried.
pub fn attempt_outcome(attempt: Attempt) -> (outcome: Result<UpstreamAnswer, UpstreamError>)
    requires
        attempt.is_valid(),
    ensures
        is_attempt_outcome(attempt, outcome),
{
    match attempt {
        Attempt::Answered(answer) => {
            if should_retry_status(answer.status) {
                Err(
                    UpstreamError::BadStatus(
                        describe_status(answer.status, canonical_reason(answer.status)),
                    ),
                )
            } else {
                Ok(answer)
            }
        },
        Attempt::Failed(reason) => Err(UpstreamError::RequestFailed(reason)),
    }
}

// Requests

/// A request of a client.
pub struct ProxyRequest {
    pub method: String,
    /// Path and query.
    pub uri: String,
    pub headers: HeaderMap,
    pub body: Vec<u8>,
}

/// A request to the upstream.
pub struct UpstreamRequest {
    pub method: String,
    pub url: String,
    pub headers: HeaderMap,
    pub body: Vec<u8>,
}

/// Where a request goes and how the cache takes part.
pub struct Route {
    pub upstream_url: String,
    pub cache_key: String,
    /// Whether the cache may answer the request and keep its response.
    pub cacheable: bool,
}

/// The upstream URL of a request: the base without the slashes at its end, then
/// path and query.
pub open spec fn upstream_url(base: Seq<char>, uri: Seq<char>) -> Seq<char> {
    without_trailing_slashes(base) + uri
}

/// The responses of which requests may be cached: those of idempotent methods,
/// or all of them.
pub open spec fn is_cacheable(cfg: Args, method: Seq<char>) -> bool {
    cfg.skip_idempotency_check || is_idempotent(method)
}

/// A route is that of a request with this method and URI.
pub open spec fn is_route(cfg: Args, method: Seq<char>, uri: Seq<char>, route: Route) -> bool {
    &&& route.upstream_url@ == upstream_url(cfg.external_api_base@, uri)
    &&& route.cache_key@ == cache_key(method, upstream_url(cfg.external_api_base@, uri))
    &&& route.cacheable == is_cacheable(cfg, method)
}

/// Finds the route of a request.
pub fn route_request(cfg: &Args, method: &str, uri: &str) -> (route: Route)
    ensures
        is_route(*cfg, method@, uri@, route),
{
    let upstream_url = trim_trailing_slashes(cfg.external_api_base.as_str()).concat(uri);
    let cache_key = generate_cache_key(method, upstream_url.as_str());
    let cacheable = cfg.skip_idempotency_check || method_is_idempotent(method);
    Route { upstream_url, cache_key, cacheable }
}

/// Fields with further ones added under the names that they do not have.
pub open spec fn merged(fields: Fields, more: Fields) -> Fields {
    Map::new(
        |name: Seq<char>| fields.contains_key(name) || more.contains_key(name),
        |name: Seq<char>|
            if fields.contains_key(name) {
                fields[name]
            } else {
                more[name]
            },
    )
}

/// The fields of an upstream request: those of the client without the hop-by-hop
/// headers, and the default headers whose name the client did not send.
pub open spec fn upstream_fields(defaults: Fields, incoming: Fields) -> Fields {
    merged(end_to_end(incoming), defaults)
}

/// The headers of an upstream request, where one header map has room for them.
fn upstream_headers(default_headers: &HeaderMap, incoming_headers: &HeaderMap) -> (headers: Option<
    HeaderMap,
>)
    ensures
        match headers {
            Some(map) => header_fields(map) == upstream_fields(
                header_fields(*default_headers),
                header_fields(*incoming_headers),
            ),
            None => name_count(
                upstream_fields(header_fields(*default_headers), header_fields(*incoming_headers)),
            ) > MAX_HEADER_NAMES,
        },
{
    let mut headers = filter_headers(incoming_headers);
    let list = header_list(default_headers);
    let ghost incoming = header_fields(*incoming_headers);
    let ghost kept = end_to_end(incoming);
    let ghost views = field_views(list@);
    proof {
        vstd::set_lib::lemma_set_subset_finite(incoming.dom(), kept.dom());
    }
    let mut allowed: Vec<bool> = Vec::new();
    for i in 0..list.len()
        invariant
            header_fields(headers) == kept,
            allowed@.len() == i,
            forall|k: int|
                0 <= k < i ==> #[trigger] allowed@[k] == !kept.contains_key(
                    name_text(list@[k].name),
                ),
    {
        allowed.push(!contains_header(&headers, &list[i].name));
    }
    assert(views.take(0) =~= Seq::empty());
    assert(header_fields(headers) =~= merged(kept, fields_of(views.take(0))));
    for i in 0..list.len()
        invariant
            views == field_views(list@),
            fields_of(views) == header_fields(*default_headers),
            kept == end_to_end(header_fields(*incoming_headers)),
            kept.dom().finite(),
            allowed@.len() == list@.len(),
            forall|k: int|
                0 <= k < list@.len() ==> #[trigger] allowed@[k] == !kept.contains_key(
                    name_text(list@[k].name),
                ),
            header_fields(headers) == merged(kept, fields_of(views.take(i as int))),
    {
        let ghost seen = fields_of(views.take(i as int));
        let ghost field = views[i as int];
        proof {
            assert(field == list@[i as int]@);
            lemma_fields_of_take(views, i as int);
        }
        if allowed[i] {
            if try_append_header(&mut headers, &list[i].name, &list[i].value).is_err() {
                proof {
                    lemma_merged_prefix(kept, views, i as int);
                }
                return None;
            }
            assert(append_field(merged(kept, seen), field.0, field.1) =~= merged(
                kept,
                append_field(seen, field.0, field.1),
            ));
        } else {
            assert(merged(kept, seen) =~= merged(kept, append_field(seen, field.0, field.1)));
        }
    }
    assert(views.take(views.len() as int) =~= views);
    Some(headers)
}

/// With the first fields of a list added there are no more names than with all
/// of them.
proof fn lemma_merged_prefix(kept: Fields, list: Seq<(Seq<char>, Seq<u8>)>, i: int)
    requires
        kept.dom().finite(),
        0 <= i <= list.len(),
    ensures
        name_count(merged(kept, fields_of(list.take(i)))) <= name_count(
            merged(kept, fields_of(list)),
        ),
{
    let front = list.take(i);
    lemma_fields_of_names(front);
    lemma_fields_of_names(list);
    let some = merged(kept, fields_of(front)).dom();
    let all = merged(kept, fields_of(list)).dom();
    assert(all =~= kept.dom().union(fields_of(list).dom()));
    assert forall|n: Seq<char>| some.contains(n) implies all.contains(n) by {
        if fields_of(front).contains_key(n) {
            let k = choose|k: int| 0 <= k < front.len() && (#[trigger] front[k]).0 == n;
            assert(list[k].0 == n);
        }
    }
    vstd::set_lib::lemma_len_subset(some, all);
}

/// An upstream request is that of a client's request on a route.
pub open spec fn is_upstream_request(
    defaults: Fields,
    request: ProxyRequest,
    url: Seq<char>,
    upstream: UpstreamRequest,
) -> bool {
    &&& upstream.method@ == request.method@
    &&& upstream.url@ == url
    &&& header_fields(upstream.headers) == upstream_fields(defaults, header_fields(request.headers))
    &&& upstream.body@ == request.body@
}

/// The request that is sent upstream for a request of a client, where one header
/// map has room for its headers. Up to `MAX_HEADER_NAMES` names it has.
pub fn make_upstream_request(
    default_headers: &HeaderMap,
    request: ProxyRequest,
    url: &str,
) -> (upstream: Option<UpstreamRequest>)
    ensures
        match upstream {
            Some(made) => is_upstream_request(header_fields(*default_headers), request, url@, made),
            None => name_count(
                upstream_fields(header_fields(*default_headers), header_fields(request.headers)),
            ) > MAX_HEADER_NAMES,
        },
{
    match upstream_headers(default_headers, &request.headers) {
        Some(headers) => Some(
            UpstreamRequest {
                method: request.method,
                url: url.to_string(),
                headers,
                body: request.body,
            },
        ),
        None => None,
    }
}

// Responses

/// The length that a response announces: the first `content-length` value, where
/// it is the text of a number.
pub open spec fn announced_length(fields: Fields) -> Option<u64> {
    match first_value(fields, "content-length"@) {
        Some(value) => match header_value_text(value) {
            Some(text) => parsed_u64(text),
            None => None,
        },
        None => None,
    }
}

/// Reads the length that a response announces.
pub fn content_length(headers: &HeaderMap) -> (length: Option<u64>)
    ensures
        length == announced_length(header_fields(*headers)),
{
    proof {
        reveal_strlit("content-length");
        assert(ascii_lower("content-length"@) =~= "content-length"@);
        assert(parsed_header_name("content-length"@) == Some("content-length"@));
    }
    match parse_header_name("content-length") {
        Some(name) => match get_header(headers, &name) {
            Some(value) => match header_text(&value) {
                Some(text) => parse_u64(text.as_str()),
                None => None,
            },
            None => None,
        },
        None => None,
    }
}

/// A response is passed on as it arrives where it announces more than the limit.
/// A limit of 0 is none.
pub open spec fn is_streamed(max_body_size: u64, length: Option<u64>) -> bool {
    max_body_size > 0 && length is Some && length->0 > max_body_size
}

/// Whether a response is passed on as it arrives.
pub fn should_stream(max_body_size: u64, length: Option<u64>) -> (stream: bool)
    ensures
        stream == is_streamed(max_body_size, length),
{
    match length {
        Some(length) => max_body_size > 0 && length > max_body_size,
        None => false,
    }
}

/// A response is cached where its request is cacheable, its status is a success
/// or a redirection, and its body is within the limit. A limit of 0 is none.
pub open spec fn is_cached(cacheable: bool, status: u16, max_body_size: u64, size: nat) -> bool {
    &&& cacheable
    &&& 200 <= status <= 399
    &&& max_body_size == 0 || size <= max_body_size
}

/// Whether a response is cached.
pub fn should_cache(cacheable: bool, status: u16, max_body_size: u64, size: usize) -> (cache: bool)
    ensures
        cache == is_cached(cacheable, status, max_body_size, size as nat),
{
    cacheable && 200 <= status && status <= 399 && (max_body_size == 0 || size as u64
        <= max_body_size)
}

// The course of a request

/// What is to be done next for a request.
pub enum Step {
    /// Look up the cache under the key of the route.
    LookUpCache { request: ProxyRequest, route: Route },
    /// Wait until the rate limit permits a request.
    AwaitPermit { upstream: UpstreamRequest, route: Route },
    /// Send the request upstream, once.
    Send { upstream: UpstreamRequest, route: Route },
    /// Wait before another attempt, or find that the time for them is over.
    BackOff { upstream: UpstreamRequest, route: Route, error: UpstreamError },
    /// Read the body of the upstream response to its end.
    ReadBody { route: Route, status: u16, headers: HeaderMap },
    /// Write to the cache.
    WriteCache { write: CacheWrite, response: HandlerResult },
    /// Answer the client.
    Respond { response: HandlerResult },
    /// Give up: no header map has room for the headers of the upstream request.
    Unforwardable,
}

/// What a step came to.
pub enum Event {
    /// The cache was looked up.
    CacheReply(CacheLookup),
    /// The rate limit permits a request.
    PermitGranted,
    /// The request was sent.
    Attempted(Attempt),
    /// The wait before another attempt is over, or there is no time for one.
    BackedOff { again: bool },
    /// The time for all attempts is up, as the text says.
    TimedOut(String),
    /// The body was read, or reading it failed for this reason.
    BodyRead(Result<Vec<u8>, String>),
    /// The cache was written to.
    CacheWritten,
}

impl Step {
    /// The step comes to events of this kind. The time for all attempts may be up
    /// during any part of one.
    pub open spec fn awaits(self, event: Event) -> bool {
        match self {
            Step::LookUpCache { .. } => event is CacheReply,
            Step::AwaitPermit { .. } => event is PermitGranted || event is TimedOut,
            Step::Send { .. } => event is TimedOut || (event matches Event::Attempted(attempt)
                && attempt.is_valid()),
            Step::BackOff { .. } => event is BackedOff || event is TimedOut,
            Step::ReadBody { .. } => event is BodyRead,
            Step::WriteCache { .. } => event is CacheWritten,
            Step::Respond { .. } => false,
            Step::Unforwardable => false,
        }
    }
}

/// A result is an error with this status and message.
pub open spec fn is_error(result: HandlerResult, status: u16, message: Seq<char>) -> bool {
    &&& result is Err
    &&& result->Err_0.0 == status
    &&& result->Err_0.1@ == message
}

/// A step sends a client's request upstream. Where no header map has room for
/// the headers, it gives up.
pub open spec fn forwards(
    defaults: Fields,
    request: ProxyRequest,
    route: Route,
    next: Step,
) -> bool {
    match next {
        Step::AwaitPermit { upstream, route: kept } => {
            &&& kept == route
            &&& is_upstream_request(defaults, request, route.upstream_url@, upstream)
        },
        Step::Unforwardable => name_count(
            upstream_fields(defaults, header_fields(request.headers)),
        ) > MAX_HEADER_NAMES,
        _ => false,
    }
}

/// The first step for a request: the cache is asked where it may answer, else
/// the request goes upstream.
pub open spec fn begins(state: AppState, request: ProxyRequest, next: Step) -> bool {
    if is_cacheable(state.cfg, request.method@) {
        &&& next is LookUpCache
        &&& next->LookUpCache_request == request
        &&& is_route(state.cfg, request.method@, request.uri@, next->LookUpCache_route)
    } else {
        exists|route: Route|
            {
                &&& #[trigger] is_route(state.cfg, request.method@, request.uri@, route)
                &&& forwards(header_fields(state.default_headers), request, route, next)
            }
    }
}

/// The step after the cache was looked up: an entry answers the request,
/// everything else sends it upstream.
pub open spec fn follows_lookup(
    state: AppState,
    request: ProxyRequest,
    route: Route,
    lookup: CacheLookup,
    next: Step,
) -> bool {
    match lookup {
        CacheLookup::Found(cached) => {
            &&& next is Respond
            &&& is_hit(next->Respond_response, cached)
        },
        _ => forwards(header_fields(state.default_headers), request, route, next),
    }
}

/// The step after an answer of the upstream that is passed on: a large response
/// goes to the client as it arrives, and any other is read.
pub open spec fn follows_answer(
    state: AppState,
    route: Route,
    answer: UpstreamAnswer,
    next: Step,
) -> bool {
    let fields = header_fields(answer.headers);
    if is_streamed(state.cfg.max_body_size, announced_length(fields)) {
        &&& next is Respond
        &&& built(
            next->Respond_response,
            answer.status,
            with_cache_mark(end_to_end(fields), "STREAM"@),
            BodyView::Upstream,
            is_crowded(with_cache_mark(end_to_end(fields), "STREAM"@)),
        )
    } else {
        next == Step::ReadBody { route, status: answer.status, headers: answer.headers }
    }
}

/// The step after an attempt: an answer that is passed on, or a wait before
/// another attempt.
pub open spec fn follows_attempt(
    state: AppState,
    upstream: UpstreamRequest,
    route: Route,
    attempt: Attempt,
    next: Step,
) -> bool {
    if is_retried(attempt) {
        next matches Step::BackOff { upstream: same, route: kept, error } && same == upstream
            && kept == route && is_attempt_outcome(attempt, Err(error))
    } else {
        follows_answer(state, route, attempt->Answered_0, next)
    }
}

/// The step after the wait for another attempt: the same request once more, or,
/// without time for it, the last failure.
pub open spec fn follows_backoff(
    upstream: UpstreamRequest,
    route: Route,
    error: UpstreamError,
    again: bool,
    next: Step,
) -> bool {
    if again {
        next == Step::AwaitPermit { upstream, route }
    } else {
        &&& next is Respond
        &&& is_error(next->Respond_response, 502, "Upstream error: "@ + error.text())
    }
}

/// The step after the time for all attempts is up.
pub open spec fn follows_timeout(text: Seq<char>, next: Step) -> bool {
    &&& next is Respond
    &&& is_error(next->Respond_response, 504, "Timeout: "@ + text)
}

/// The answer to a request whose upstream response was read to its end.
pub open spec fn is_miss(
    result: HandlerResult,
    status: u16,
    fields: Fields,
    body: Seq<u8>,
) -> bool {
    built(
        result,
        status,
        with_cache_mark(end_to_end(fields), "MISS"@),
        BodyView::Bytes(body),
        is_crowded(with_cache_mark(end_to_end(fields), "MISS"@)),
    )
}

/// A write puts a response into the cache under the key of a route.
pub open spec fn is_cache_write(
    cfg: Args,
    route: Route,
    status: u16,
    fields: Fields,
    body: Seq<u8>,
    write: CacheWrite,
) -> bool {
    &&& write.key@ == route.cache_key@
    &&& write.ttl_secs == cfg.cache_ttl_secs
    &&& is_cached_form(write.entry, status, text_fields(end_to_end(fields)), body)
}

/// The step after the body of an upstream response was read: the response goes
/// to the client, and into the cache first where it is to be cached.
pub open spec fn follows_body(
    state: AppState,
    route: Route,
    status: u16,
    headers: HeaderMap,
    read: Result<Vec<u8>, String>,
    next: Step,
) -> bool {
    let fields = header_fields(headers);
    match read {
        Err(reason) => {
            &&& next is Respond
            &&& is_error(next->Respond_response, 502, "Error reading upstream: "@ + reason@)
        },
        Ok(body) => if is_cached(
            route.cacheable,
            status,
            state.cfg.max_body_size,
            body@.len(),
        ) {
            &&& next is WriteCache
            &&& is_cache_write(
                state.cfg,
                route,
                status,
                fields,
                body@,
                next->WriteCache_write,
            )
            &&& is_miss(next->WriteCache_response, status, fields, body@)
        } else {
            &&& next is Respond
            &&& is_miss(next->Respond_response, status, fields, body@)
        },
    }
}

/// How the course of a request goes on after a step came to an event.
pub open spec fn follows(state: AppState, step: Step, event: Event, next: Step) -> bool {
    match (step, event) {
        (Step::LookUpCache { request, route }, Event::CacheReply(lookup)) => {
            follows_lookup(state, request, route, lookup, next)
        },
        (Step::AwaitPermit { upstream, route }, Event::PermitGranted) => {
            next == Step::Send { upstream, route }
        },
        (Step::Send { upstream, route }, Event::Attempted(attempt)) => {
            follows_attempt(state, upstream, route, attempt, next)
        },
        (Step::BackOff { upstream, route, error }, Event::BackedOff { again }) => {
            follows_backoff(upstream, route, error, again, next)
        },
        (Step::AwaitPermit { .. }, Event::TimedOut(text)) => follows_timeout(text@, next),
        (Step::Send { .. }, Event::TimedOut(text)) => follows_timeout(text@, next),
        (Step::BackOff { .. }, Event::TimedOut(text)) => follows_timeout(text@, next),
        (Step::ReadBody { route, status, headers }, Event::BodyRead(read)) => {
            follows_body(state, route, status, headers, read, next)
        },
        (Step::WriteCache { response, .. }, Event::CacheWritten) => {
            next == Step::Respond { response }
        },
        _ => false,
    }
}

/// Sends a client's request upstream.
fn forward(state: &AppState, request: ProxyRequest, route: Route) -> (next: Step)
    ensures
        forwards(header_fields(state.default_headers), request, route, next),
{
    match make_upstream_request(&state.default_headers, request, route.upstream_url.as_str()) {
        Some(upstream) => Step::AwaitPermit { upstream, route },
        None => Step::Unforwardable,
    }
}

/// Takes up a request.
pub fn begin_request(state: &AppState, request: ProxyRequest) -> (next: Step)
    ensures
        begins(*state, request, next),
{
    let route = route_request(&state.cfg, request.method.as_str(), request.uri.as_str());
    if route.cacheable {
        Step::LookUpCache { request, route }
    } else {
        forward(state, request, route)
    }
}

/// Goes on after the cache was looked up.
fn after_lookup(
    state: &AppState,
    request: ProxyRequest,
    route: Route,
    lookup: CacheLookup,
) -> (next: Step)
    ensures
        follows_lookup(*state, request, route, lookup, next),
{
    match try_get_cached_response(lookup) {
        Some(cached) => Step::Respond { response: build_cached_response(cached) },
        None => forward(state, request, route),
    }
}

/// Goes on after an attempt.
fn after_attempt(
    state: &AppState,
    upstream: UpstreamRequest,
    route: Route,
    attempt: Attempt,
) -> (next: Step)
    requires
        attempt.is_valid(),
    ensures
        follows_attempt(*state, upstream, route, attempt, next),
{
    match attempt_outcome(attempt) {
        Ok(answer) => {
            if should_stream(state.cfg.max_body_size, content_length(&answer.headers)) {
                Step::Respond { response: build_streaming_response(answer.status, &answer.headers) }
            } else {
                Step::ReadBody { route, status: answer.status, headers: answer.headers }
            }
        },
        Err(error) => Step::BackOff { upstream, route, error },
    }
}

/// Goes on after the wait for another attempt.
fn after_backoff(
    upstream: UpstreamRequest,
    route: Route,
    error: UpstreamError,
    again: bool,
) -> (next: Step)
    ensures
        follows_backoff(upstream, route, error, again, next),
{
    if again {
        Step::AwaitPermit { upstream, route }
    } else {
        Step::Respond {
            response: Err(
                error_response(
                    502,
                    "Upstream error: ".to_string().concat(error.message().as_str()),
                ),
            ),
        }
    }
}

/// Goes on after the time for all attempts is up.
fn after_timeout(text: String) -> (next: Step)
    ensures
        follows_timeout(text@, next),
{
    Step::Respond {
        response: Err(error_response(504, "Timeout: ".to_string().concat(text.as_str()))),
    }
}

/// Goes on after the body of an upstream response was read.
fn after_body(
    state: &AppState,
    route: Route,
    status: u16,
    headers: HeaderMap,
    read: Result<Vec<u8>, String>,
) -> (next: Step)
    ensures
        follows_body(*state, route, status, headers, read, next),
{
    match read {
        Err(reason) => Step::Respond {
            response: Err(
                error_response(502, "Error reading upstream: ".to_string().concat(reason.as_str())),
            ),
        },
        Ok(body) => {
            if should_cache(route.cacheable, status, state.cfg.max_body_size, body.len()) {
                let entry = cached_form(status, &headers, &body);
                let write = cache_response(
                    route.cache_key.as_str(),
                    entry,
                    state.cfg.cache_ttl_secs,
                );
                let response = build_buffered_response(status, &headers, body);
                Step::WriteCache { write, response }
            } else {
                Step::Respond { response: build_buffered_response(status, &headers, body) }
            }
        },
    }
}

/// Handles a request step by step: from a step and what it came to, the next
/// step.
pub fn proxy_handler(state: &AppState, step: Step, event: Event) -> (next: Step)
    requires
        step.awaits(event),
    ensures
        follows(*state, step, event, next),
{
    match (step, event) {
        (Step::LookUpCache { request, route }, Event::CacheReply(lookup)) => {
            after_lookup(state, request, route, lookup)
        },
        (Step::AwaitPermit { upstream, route }, Event::PermitGranted) => {
            Step::Send { upstream, route }
        },
        (Step::Send { upstream, route }, Event::Attempted(attempt)) => {
            after_attempt(state, upstream, route, attempt)
        },
        (Step::BackOff { upstream, route, error }, Event::BackedOff { again }) => {
            after_backoff(upstream, route, error, again)
        },
        (Step::AwaitPermit { .. }, Event::TimedOut(text)) => after_timeout(text),
        (Step::Send { .. }, Event::TimedOut(text)) => after_timeout(text),
        (Step::BackOff { .. }, Event::TimedOut(text)) => after_timeout(text),
        (Step::ReadBody { route, status, headers }, Event::BodyRead(read)) => {
            after_body(state, route, status, headers, read)
        },
        (Step::WriteCache { response, .. }, Event::CacheWritten) => Step::Respond { response },
        (other, _) => other,
    }
}

} // verus!
