//! What holds of the proxy as a whole.

use axum::http::HeaderMap;
use vstd::prelude::*;
use vstd::utf8::{encode_utf8, is_ascii_chars};

use crate::build_response::{built, is_crowded, with_cache_mark};
use crate::cache::{is_cached_form, law_stored_bodies_are_restored, CacheLookup};
use crate::entrypoint::has_default_headers;
use crate::handler::{
    announced_length, begins, follows, follows_answer, follows_body, follows_lookup, forwards,
    is_attempt_outcome, is_cache_write, is_cacheable, is_cached, is_error, is_miss, is_retried,
    is_retryable, is_route, is_streamed, is_upstream_request, reason_phrase, status_text,
    upstream_fields, upstream_url, Attempt, Event, ProxyRequest, Route, Step, UpstreamAnswer,
    UpstreamRequest,
};
use crate::headers::{
    append_fields, header_fields, header_value_text, is_header_name, is_header_name_char,
    is_header_value_byte, is_token_char, is_visible_ascii, name_count, parsed_header_name,
    parsed_header_value, values_at, Fields, MAX_HEADER_NAMES,
};
use crate::models::{
    distinct_names, lemma_table_of_entries, table_of, AppState, BodyView, CachedResponse,
    HandlerResult, UpstreamError,
};
use crate::response::{extended, is_status_code, HeadView};
use crate::text::{
    ascii_lower, hex_digit, lemma_ascii_lower_idempotent, lower_hex, without_trailing_slashes,
};
use crate::utils::{
    cache_key, cache_key_input, end_to_end, header_values, hop_by_hop, sha256_digest, single_values,
    table_fields, text_fields, text_values,
};

verus! {

// Headers

/// Whether a header is a hop-by-hop header does not depend on its letter case.
pub proof fn law_hop_by_hop_ignores_case(a: Seq<char>, b: Seq<char>)
    requires
        ascii_lower(a) == ascii_lower(b),
    ensures
        hop_by_hop(a) == hop_by_hop(b),
        hop_by_hop(ascii_lower(a)) == hop_by_hop(a),
{
    lemma_ascii_lower_idempotent(a);
}

/// What was filtered once stays as it is when it is filtered again.
pub proof fn law_filtering_twice_is_filtering_once(fields: Fields)
    ensures
        end_to_end(end_to_end(fields)) == end_to_end(fields),
{
    assert(end_to_end(end_to_end(fields)) =~= end_to_end(fields));
}

/// Every header of a client goes upstream with all its values, except the
/// hop-by-hop headers; of those only what the default headers give is sent.
pub proof fn law_request_headers_are_preserved(defaults: Fields, incoming: Fields, name: Seq<char>)
    ensures
        incoming.contains_key(name) && !hop_by_hop(name) ==> upstream_fields(
            defaults,
            incoming,
        ).contains_key(name) && upstream_fields(defaults, incoming)[name] == incoming[name],
        hop_by_hop(name) ==> values_at(upstream_fields(defaults, incoming), name) == values_at(
            defaults,
            name,
        ),
{
}

/// A default header is added unless the client sent an end-to-end header of the
/// same name, which overrides it.
pub proof fn law_default_headers_are_added(defaults: Fields, incoming: Fields, name: Seq<char>)
    requires
        defaults.contains_key(name),
    ensures
        upstream_fields(defaults, incoming).contains_key(name),
        upstream_fields(defaults, incoming)[name] == if incoming.contains_key(name) && !hop_by_hop(
            name,
        ) {
            incoming[name]
        } else {
            defaults[name]
        },
{
}

/// Nothing else goes upstream: a header that neither the client nor the default
/// headers gave is not sent.
pub proof fn law_no_header_is_made_up(defaults: Fields, incoming: Fields, name: Seq<char>)
    requires
        !defaults.contains_key(name),
        !incoming.contains_key(name),
    ensures
        !upstream_fields(defaults, incoming).contains_key(name),
{
}

// Responses

/// A response that is built has the exact status it was built from, all values
/// of every end-to-end header and no hop-by-hop header. Only `X-Cache` has one
/// more value, its last one.
pub proof fn law_responses_are_preserved(
    result: HandlerResult,
    status: u16,
    fields: Fields,
    mark: Seq<char>,
    body: BodyView,
    crowded: bool,
    name: Seq<char>,
)
    requires
        built(result, status, with_cache_mark(end_to_end(fields), mark), body, crowded),
        result is Ok,
    ensures
        result->Ok_0.status == status,
        result->Ok_0.body@ == body,
        name != "x-cache"@ && !hop_by_hop(name) ==> values_at(result->Ok_0.fields(), name)
            == values_at(fields, name),
        name != "x-cache"@ && hop_by_hop(name) ==> !result->Ok_0.fields().contains_key(name),
        values_at(result->Ok_0.fields(), "x-cache"@) == values_at(fields, "x-cache"@).push(
            encode_utf8(mark),
        ),
{
    assert(!hop_by_hop("x-cache"@)) by {
        lemma_x_cache_is_end_to_end();
    }
}

/// `X-Cache` is no hop-by-hop header.
pub proof fn lemma_x_cache_is_end_to_end()
    ensures
        !hop_by_hop("x-cache"@),
{
    reveal_strlit("x-cache");
    reveal_strlit("host");
    reveal_strlit("connection");
    reveal_strlit("keep-alive");
    reveal_strlit("transfer-encoding");
    reveal_strlit("upgrade");
    reveal_strlit("proxy-authorization");
    reveal_strlit("proxy-authenticate");
    reveal_strlit("te");
    reveal_strlit("trailer");
    let lower = ascii_lower("x-cache"@);
    assert(lower[0] == 'x');
    assert("host"@[0] == 'h');
    assert("connection"@[0] == 'c');
    assert("keep-alive"@[0] == 'k');
    assert("transfer-encoding"@[0] == 't');
    assert("upgrade"@[0] == 'u');
    assert("proxy-authorization"@[0] == 'p');
    assert("proxy-authenticate"@[0] == 'p');
    assert("te"@[0] == 't');
    assert("trailer"@[0] == 't');
}

/// A response with a status code and no more names than fit for certain is
/// built.
pub proof fn law_responses_are_built(
    result: HandlerResult,
    status: u16,
    fields: Fields,
    body: BodyView,
    crowded: bool,
)
    requires
        built(result, status, fields, body, crowded),
        is_status_code(status),
        !crowded,
    ensures
        result is Ok,
{
}

// Retries

/// An attempt is tried again exactly where the request failed, the upstream had
/// too many requests, or the upstream had an error of its own. Every other
/// answer is passed on at once: success, redirection and the other client
/// errors.
pub proof fn law_only_upstream_failures_are_retried(
    attempt: Attempt,
    outcome: Result<UpstreamAnswer, UpstreamError>,
)
    requires
        is_attempt_outcome(attempt, outcome),
    ensures
        outcome is Err <==> is_retried(attempt),
        is_retried(attempt) <==> match attempt {
            Attempt::Failed(_) => true,
            Attempt::Answered(answer) => answer.status == 429 || answer.status / 100 == 5,
        },
        attempt matches Attempt::Answered(answer) ==> (answer.status / 100 == 2 || answer.status
            / 100 == 3 || answer.status / 100 == 4 && answer.status != 429 ==> outcome == Ok::<
            UpstreamAnswer,
            UpstreamError,
        >(answer)),
{
}

// Streaming

/// A response that announces more than the limit goes to the client as it
/// arrives, marked `STREAM`: it is neither read nor cached. Any other answer of
/// the upstream is read. Without a limit nothing is streamed.
pub proof fn law_large_responses_are_streamed(
    state: AppState,
    route: Route,
    answer: UpstreamAnswer,
    next: Step,
)
    requires
        follows_answer(state, route, answer, next),
    ensures
        is_streamed(
            state.cfg.max_body_size,
            announced_length(header_fields(answer.headers)),
        ) ==> {
            &&& next is Respond
            &&& next->Respond_response is Ok ==> {
                &&& next->Respond_response->Ok_0.body@ is Upstream
                &&& next->Respond_response->Ok_0.status == answer.status
                &&& values_at(next->Respond_response->Ok_0.fields(), "x-cache"@).last()
                    == encode_utf8("STREAM"@)
            }
        },
        !is_streamed(
            state.cfg.max_body_size,
            announced_length(header_fields(answer.headers)),
        ) ==> next is ReadBody,
        state.cfg.max_body_size == 0 ==> next is ReadBody,
{
}

// The course of a request

/// A course of a request: it begins as it should, and every step is followed by
/// what its event brings about.
pub open spec fn is_course(
    state: AppState,
    request: ProxyRequest,
    steps: Seq<Step>,
    events: Seq<Event>,
) -> bool {
    &&& steps.len() == events.len() + 1
    &&& begins(state, request, steps[0])
    &&& forall|i: int|
        0 <= i < events.len() ==> steps[i].awaits(#[trigger] events[i]) && follows(
            state,
            steps[i],
            events[i],
            steps[i + 1],
        )
}

/// How far a step is from the end, if no attempt is made again.
pub open spec fn steps_left(step: Step) -> int {
    match step {
        Step::LookUpCache { .. } => 6,
        Step::AwaitPermit { .. } => 5,
        Step::Send { .. } => 4,
        Step::BackOff { .. } => 3,
        Step::ReadBody { .. } => 2,
        Step::WriteCache { .. } => 1,
        Step::Respond { .. } => 0,
        Step::Unforwardable => 0,
    }
}

/// How many of the events have another attempt made.
pub open spec fn retries(events: Seq<Event>) -> nat
    decreases events.len(),
{
    if events.len() == 0 {
        0
    } else {
        retries(events.drop_last()) + if events.last() == (Event::BackedOff { again: true }) {
            1nat
        } else {
            0
        }
    }
}

/// Every event brings a request nearer to its end, but for another attempt.
proof fn lemma_steps_left_falls(
    state: AppState,
    request: ProxyRequest,
    steps: Seq<Step>,
    events: Seq<Event>,
    i: int,
)
    requires
        is_course(state, request, steps, events),
        0 <= i < steps.len(),
    ensures
        steps_left(steps[i]) <= 6 - i + 3 * retries(events.take(i)),
    decreases i,
{
    if i > 0 {
        lemma_steps_left_falls(state, request, steps, events, i - 1);
        let event = events[i - 1];
        assert(follows(state, steps[i - 1], event, steps[i]));
        assert(events.take(i).drop_last() =~= events.take(i - 1));
        assert(events.take(i).last() == event);
    }
}

/// Every request comes to an end, after six events at most and three more for
/// each further attempt: a step that waits for nothing more answers the client,
/// or gives up on headers that no header map has room for.
pub proof fn law_every_request_ends(
    state: AppState,
    request: ProxyRequest,
    steps: Seq<Step>,
    events: Seq<Event>,
)
    requires
        is_course(state, request, steps, events),
    ensures
        events.len() <= 6 + 3 * retries(events),
        (forall|event: Event| !steps.last().awaits(event)) <==> (steps.last() is Respond
            || steps.last() is Unforwardable),
{
    lemma_steps_left_falls(state, request, steps, events, steps.len() - 1);
    assert(events.take(events.len() as int) =~= events);
    if forall|event: Event| !steps.last().awaits(event) {
        let last = steps.last();
        assert(!last.awaits(Event::CacheWritten));
        let lookup = Event::CacheReply(CacheLookup::Disabled);
        assert(!last.awaits(lookup));
        let timeout = Event::TimedOut(arbitrary());
        assert(!last.awaits(timeout));
        let read = Event::BodyRead(Err(arbitrary()));
        assert(!last.awaits(read));
    }
}

/// What is sent upstream belongs to a request.
pub open spec fn is_sent_for(
    state: AppState,
    request: ProxyRequest,
    upstream: UpstreamRequest,
    route: Route,
) -> bool {
    &&& is_upstream_request(
        header_fields(state.default_headers),
        request,
        route.upstream_url@,
        upstream,
    )
    &&& is_route(state.cfg, request.method@, request.uri@, route)
}

/// What every step of a request has to do with the request.
pub open spec fn belongs_to(state: AppState, request: ProxyRequest, step: Step) -> bool {
    match step {
        Step::LookUpCache { request: kept, route } => {
            &&& kept == request
            &&& is_cacheable(state.cfg, request.method@)
            &&& is_route(state.cfg, request.method@, request.uri@, route)
        },
        Step::AwaitPermit { upstream, route } => is_sent_for(state, request, upstream, route),
        Step::Send { upstream, route } => is_sent_for(state, request, upstream, route),
        Step::BackOff { upstream, route, .. } => is_sent_for(state, request, upstream, route),
        Step::ReadBody { route, .. } => is_route(
            state.cfg,
            request.method@,
            request.uri@,
            route,
        ),
        Step::WriteCache { write, .. } => {
            &&& is_cacheable(state.cfg, request.method@)
            &&& write.key@ == cache_key(
                request.method@,
                upstream_url(state.cfg.external_api_base@, request.uri@),
            )
            &&& write.ttl_secs == state.cfg.cache_ttl_secs
            &&& 200 <= write.entry.status <= 399
        },
        _ => true,
    }
}

/// Throughout its course a request stays the same: what is looked up, sent and
/// written belongs to it. The upstream is sent the client's method, body, path
/// and query, and the cache is asked and written under one key only.
pub proof fn law_steps_belong_to_the_request(
    state: AppState,
    request: ProxyRequest,
    steps: Seq<Step>,
    events: Seq<Event>,
    i: int,
)
    requires
        is_course(state, request, steps, events),
        0 <= i < steps.len(),
    ensures
        belongs_to(state, request, steps[i]),
    decreases i,
{
    if i > 0 {
        law_steps_belong_to_the_request(state, request, steps, events, i - 1);
        let event = events[i - 1];
        assert(follows(state, steps[i - 1], event, steps[i]));
    }
}

/// A request that is not cacheable never touches the cache.
pub proof fn law_uncacheable_requests_leave_the_cache_alone(
    state: AppState,
    request: ProxyRequest,
    steps: Seq<Step>,
    events: Seq<Event>,
    i: int,
)
    requires
        is_course(state, request, steps, events),
        !is_cacheable(state.cfg, request.method@),
        0 <= i < steps.len(),
    ensures
        !(steps[i] is LookUpCache),
        !(steps[i] is WriteCache),
{
    law_steps_belong_to_the_request(state, request, steps, events, i);
}

/// A request that the cache answers is not sent upstream: its course ends there.
pub proof fn law_a_hit_ends_the_request(
    state: AppState,
    request: ProxyRequest,
    steps: Seq<Step>,
    events: Seq<Event>,
)
    requires
        is_course(state, request, steps, events),
        events.len() > 0,
        events[0] matches Event::CacheReply(lookup) && lookup is Found,
    ensures
        steps.len() == 2,
        steps[1] is Respond,
        steps[1]->Respond_response is Ok ==> values_at(
            steps[1]->Respond_response->Ok_0.fields(),
            "x-cache"@,
        ).last() == encode_utf8("HIT"@),
{
    assert(follows(state, steps[0], events[0], steps[1]));
    if events.len() > 1 {
        let second = events[1];
        assert(steps[1].awaits(second));
    }
}

/// A cache that is switched off, cannot be reached, fails, has nothing or has
/// something unreadable lets a request go upstream just like a request that is
/// not cacheable.
pub proof fn law_cache_trouble_is_a_miss(
    state: AppState,
    request: ProxyRequest,
    route: Route,
    lookup: CacheLookup,
    next: Step,
)
    requires
        follows_lookup(state, request, route, lookup, next),
        !(lookup is Found),
    ensures
        forwards(header_fields(state.default_headers), request, route, next),
{
}

/// A request goes upstream where one header map has room for its headers for
/// certain.
pub proof fn law_requests_are_forwarded(
    state: AppState,
    request: ProxyRequest,
    route: Route,
    next: Step,
)
    requires
        forwards(header_fields(state.default_headers), request, route, next),
        name_count(
            upstream_fields(header_fields(state.default_headers), header_fields(request.headers)),
        ) <= MAX_HEADER_NAMES,
    ensures
        next is AwaitPermit,
{
}

/// A response is written to the cache exactly where the request is cacheable,
/// the status is a success or a redirection and the body is within the limit.
/// The client is answered the same either way.
pub proof fn law_what_is_cached(
    state: AppState,
    route: Route,
    status: u16,
    headers: HeaderMap,
    body: Vec<u8>,
    next: Step,
)
    requires
        follows_body(state, route, status, headers, Ok(body), next),
    ensures
        next is WriteCache <==> is_cached(
            route.cacheable,
            status,
            state.cfg.max_body_size,
            body@.len(),
        ),
        next is WriteCache ==> is_cache_write(
            state.cfg,
            route,
            status,
            header_fields(headers),
            body@,
            next->WriteCache_write,
        ) && is_miss(next->WriteCache_response, status, header_fields(headers), body@),
        !(next is WriteCache) ==> next is Respond && is_miss(
            next->Respond_response,
            status,
            header_fields(headers),
            body@,
        ),
{
}

// Attempts

/// The attempts among the events, in order.
pub open spec fn attempts_of(events: Seq<Event>) -> Seq<Attempt>
    decreases events.len(),
{
    if events.len() == 0 {
        Seq::empty()
    } else {
        match events.last() {
            Event::Attempted(attempt) => attempts_of(events.drop_last()).push(attempt),
            _ => attempts_of(events.drop_last()),
        }
    }
}

/// How many of the events are permits of the rate limit.
pub open spec fn permits(events: Seq<Event>) -> nat
    decreases events.len(),
{
    if events.len() == 0 {
        0
    } else {
        permits(events.drop_last()) + if events.last() is PermitGranted {
            1nat
        } else {
            0
        }
    }
}

/// How many of the steps send a request upstream.
pub open spec fn requests_sent(steps: Seq<Step>) -> nat
    decreases steps.len(),
{
    if steps.len() == 0 {
        0
    } else {
        requests_sent(steps.drop_last()) + if steps.last() is Send {
            1nat
        } else {
            0
        }
    }
}

/// Every one of the attempts is retried.
pub open spec fn all_retried(attempts: Seq<Attempt>) -> bool {
    forall|i: int| 0 <= i < attempts.len() ==> is_retried(#[trigger] attempts[i])
}

/// How a step stands to the attempts made before it.
pub open spec fn fits_attempts(step: Step, attempts: Seq<Attempt>) -> bool {
    match step {
        Step::LookUpCache { .. } => attempts.len() == 0,
        Step::AwaitPermit { .. } => all_retried(attempts),
        Step::Send { .. } => all_retried(attempts),
        Step::BackOff { error, .. } => {
            &&& attempts.len() > 0
            &&& all_retried(attempts)
            &&& is_attempt_outcome(attempts.last(), Err(error))
        },
        Step::ReadBody { status, headers, .. } => {
            &&& attempts.len() > 0
            &&& all_retried(attempts.drop_last())
            &&& !is_retried(attempts.last())
            &&& attempts.last() == Attempt::Answered(UpstreamAnswer { status, headers })
        },
        _ => true,
    }
}

/// A request is sent only with a permit, one for each attempt, and again only
/// while every attempt so far was to be retried. What is read then is the answer
/// of the last attempt.
pub proof fn law_each_attempt_has_one_permit(
    state: AppState,
    request: ProxyRequest,
    steps: Seq<Step>,
    events: Seq<Event>,
    i: int,
)
    requires
        is_course(state, request, steps, events),
        0 <= i < steps.len(),
        steps_left(steps[i]) >= 2,
    ensures
        permits(events.take(i)) == attempts_of(events.take(i)).len() + if steps[i] is Send {
            1int
        } else {
            0
        },
        requests_sent(steps.take(i)) == attempts_of(events.take(i)).len(),
        steps[i] is Send ==> i > 0 && events[i - 1] is PermitGranted,
        fits_attempts(steps[i], attempts_of(events.take(i))),
    decreases i,
{
    if i > 0 {
        let event = events[i - 1];
        assert(steps[i - 1].awaits(event));
        assert(follows(state, steps[i - 1], event, steps[i]));
        law_each_attempt_has_one_permit(state, request, steps, events, i - 1);
        let before = attempts_of(events.take(i - 1));
        let after = attempts_of(events.take(i));
        assert(events.take(i).drop_last() =~= events.take(i - 1));
        assert(events.take(i).last() == event);
        assert(steps.take(i).drop_last() =~= steps.take(i - 1));
        assert(steps.take(i).last() == steps[i - 1]);
        if let Event::Attempted(attempt) = event {
            assert(after == before.push(attempt));
            assert(after.drop_last() =~= before);
        }
    } else {
        assert(events.take(0) =~= Seq::empty());
        assert(steps.take(0) =~= Seq::empty());
    }
}

/// An answer that is not retried is passed on at once, streamed or to be read.
/// Every attempt before it was to be retried, and each one, this one too, was one
/// request with one permit.
pub proof fn law_an_answer_is_passed_on_at_once(
    state: AppState,
    request: ProxyRequest,
    steps: Seq<Step>,
    events: Seq<Event>,
    i: int,
    answer: UpstreamAnswer,
)
    requires
        is_course(state, request, steps, events),
        0 <= i < events.len(),
        events[i] == Event::Attempted(Attempt::Answered(answer)),
        !is_retryable(answer.status),
    ensures
        steps[i] is Send,
        follows_answer(state, steps[i]->Send_route, answer, steps[i + 1]),
        all_retried(attempts_of(events.take(i))),
        permits(events.take(i + 1)) == attempts_of(events.take(i)).len() + 1,
        requests_sent(steps.take(i + 1)) == attempts_of(events.take(i)).len() + 1,
{
    let event = events[i];
    assert(steps[i].awaits(event));
    assert(follows(state, steps[i], event, steps[i + 1]));
    law_each_attempt_has_one_permit(state, request, steps, events, i);
    assert(events.take(i + 1).drop_last() =~= events.take(i));
    assert(events.take(i + 1).last() == event);
    assert(steps.take(i + 1).drop_last() =~= steps.take(i));
    assert(steps.take(i + 1).last() == steps[i]);
}

/// Where attempts were retried until one succeeded and its body was read, there
/// were exactly as many requests and permits as attempts, all but the last of
/// which were to be retried. The client gets, and the cache is given, what the
/// last one brought: its status, its end-to-end headers, a `Location` among
/// them, and its body. Nothing of the earlier attempts is in either.
pub proof fn law_only_the_last_attempt_is_passed_on(
    state: AppState,
    request: ProxyRequest,
    steps: Seq<Step>,
    events: Seq<Event>,
    i: int,
    body: Vec<u8>,
)
    requires
        is_course(state, request, steps, events),
        0 <= i < events.len(),
        events[i] == Event::BodyRead(Ok(body)),
    ensures
        attempts_of(events).len() > 0,
        all_retried(attempts_of(events).drop_last()),
        requests_sent(steps) == attempts_of(events).len(),
        permits(events) == attempts_of(events).len(),
        attempts_of(events).last() matches Attempt::Answered(answer) && {
            &&& !is_retryable(answer.status)
            &&& match steps[i + 1] {
                Step::WriteCache { write, response } => {
                    &&& write.key@ == cache_key(
                        request.method@,
                        upstream_url(state.cfg.external_api_base@, request.uri@),
                    )
                    &&& is_cached_form(
                        write.entry,
                        answer.status,
                        text_fields(end_to_end(header_fields(answer.headers))),
                        body@,
                    )
                    &&& is_miss(response, answer.status, header_fields(answer.headers), body@)
                },
                Step::Respond { response } => is_miss(
                    response,
                    answer.status,
                    header_fields(answer.headers),
                    body@,
                ),
                _ => false,
            }
        },
{
    let event = events[i];
    assert(steps[i].awaits(event));
    assert(follows(state, steps[i], event, steps[i + 1]));
    law_each_attempt_has_one_permit(state, request, steps, events, i);
    law_steps_belong_to_the_request(state, request, steps, events, i + 1);
    assert(events.take(i + 1).drop_last() =~= events.take(i));
    assert(events.take(i + 1).last() == event);
    assert(steps.take(i + 1).drop_last() =~= steps.take(i));
    assert(steps.take(i + 1).last() == steps[i]);
    assert(steps.take(i + 2).drop_last() =~= steps.take(i + 1));
    assert(steps.take(i + 2).last() == steps[i + 1]);
    assert(attempts_of(events.take(i + 1)) == attempts_of(events.take(i)));
    assert(permits(events.take(i + 1)) == permits(events.take(i)));
    assert(requests_sent(steps.take(i + 1)) == requests_sent(steps.take(i)));
    assert(requests_sent(steps.take(i + 2)) == requests_sent(steps.take(i + 1)));
    if events.len() > i + 1 {
        let written = events[i + 1];
        assert(steps[i + 1].awaits(written));
        assert(follows(state, steps[i + 1], written, steps[i + 2]));
        if events.len() > i + 2 {
            let more = events[i + 2];
            assert(steps[i + 2].awaits(more));
        }
        assert(events.drop_last() =~= events.take(i + 1));
        assert(events.last() == written);
        assert(steps.drop_last() =~= steps.take(i + 2));
        assert(steps.last() == steps[i + 2]);
    } else {
        assert(events =~= events.take(i + 1));
        assert(steps =~= steps.take(i + 2));
    }
}

/// Where there is no time for another attempt, the client is told of the last
/// one.
pub proof fn law_the_last_failure_is_reported(
    state: AppState,
    request: ProxyRequest,
    steps: Seq<Step>,
    events: Seq<Event>,
    i: int,
)
    requires
        is_course(state, request, steps, events),
        0 <= i < events.len(),
        events[i] == (Event::BackedOff { again: false }),
    ensures
        attempts_of(events.take(i)).len() > 0,
        all_retried(attempts_of(events.take(i))),
        steps[i + 1] is Respond,
        is_error(
            steps[i + 1]->Respond_response,
            502,
            "Upstream error: "@ + match attempts_of(events.take(i)).last() {
                Attempt::Answered(answer) => "Upstream returned error status: "@ + status_text(
                    answer.status,
                    reason_phrase(answer.status),
                ),
                Attempt::Failed(reason) => "Upstream request failed: "@ + reason@,
            },
        ),
{
    let event = events[i];
    assert(steps[i].awaits(event));
    assert(follows(state, steps[i], event, steps[i + 1]));
    law_each_attempt_has_one_permit(state, request, steps, events, i);
}

// Addresses and cache keys

/// Slashes at the end of the base URL make no difference.
pub proof fn law_slashes_at_the_base_do_not_matter(base: Seq<char>, uri: Seq<char>)
    ensures
        upstream_url(base.push('/'), uri) == upstream_url(base, uri),
        without_trailing_slashes(base).len() > 0 ==> without_trailing_slashes(base).last() != '/',
    decreases base.len(),
{
    assert(base.push('/').drop_last() =~= base);
    if base.len() > 0 && base.last() == '/' {
        law_slashes_at_the_base_do_not_matter(base.drop_last(), uri);
    }
}

/// The text of an HTTP method: a token.
pub open spec fn is_method(method: Seq<char>) -> bool {
    forall|i: int| 0 <= i < method.len() ==> is_token_char(#[trigger] method[i])
}

/// Different requests have their cache keys digested from different inputs: the
/// input tells both the method and the URL.
pub proof fn law_cache_key_inputs_tell_requests_apart(
    method: Seq<char>,
    url: Seq<char>,
    other_method: Seq<char>,
    other_url: Seq<char>,
)
    requires
        is_method(method),
        is_method(other_method),
        cache_key_input(method, url) == cache_key_input(other_method, other_url),
    ensures
        method == other_method,
        url == other_url,
{
    let input = cache_key_input(method, url);
    lemma_method_bytes(method);
    lemma_method_bytes(other_method);
    let a = encode_utf8(method);
    let b = encode_utf8(other_method);
    assert(input[a.len() as int] == 58);
    assert(cache_key_input(other_method, other_url)[b.len() as int] == 58);
    if a.len() < b.len() {
        assert(input[a.len() as int] == b[a.len() as int]);
    }
    if b.len() < a.len() {
        assert(input[b.len() as int] == a[b.len() as int]);
    }
    assert(a =~= input.take(a.len() as int));
    assert(b =~= cache_key_input(other_method, other_url).take(b.len() as int));
    assert(encode_utf8(url) =~= input.skip(a.len() as int + 1));
    assert(encode_utf8(other_url) =~= cache_key_input(other_method, other_url).skip(
        b.len() as int + 1,
    ));
    vstd::utf8::encode_utf8_decode_utf8(method);
    vstd::utf8::encode_utf8_decode_utf8(other_method);
    vstd::utf8::encode_utf8_decode_utf8(url);
    vstd::utf8::encode_utf8_decode_utf8(other_url);
}

/// No byte of a method is a colon.
proof fn lemma_method_bytes(method: Seq<char>)
    requires
        is_method(method),
    ensures
        forall|i: int| 0 <= i < encode_utf8(method).len() ==> #[trigger] encode_utf8(method)[i]
            != 58,
{
    assert(is_ascii_chars(method)) by {
        assert forall|i: int| 0 <= i < method.len() implies (#[trigger] method[i] as nat) < 128 by {
            assert(is_token_char(method[i]));
        }
    }
    vstd::utf8::is_ascii_chars_encode_utf8(method);
    assert forall|i: int| 0 <= i < encode_utf8(method).len() implies #[trigger] encode_utf8(
        method,
    )[i] != 58 by {
        assert(is_token_char(method[i]));
        assert(method[i] as u8 == encode_utf8(method)[i]);
    }
}

/// Two cache keys are the same only where the digests are: a key loses nothing
/// of its digest.
pub proof fn law_cache_keys_keep_the_digest(
    method: Seq<char>,
    url: Seq<char>,
    other_method: Seq<char>,
    other_url: Seq<char>,
)
    requires
        cache_key(method, url) == cache_key(other_method, other_url),
    ensures
        sha256_digest(cache_key_input(method, url)) == sha256_digest(
            cache_key_input(other_method, other_url),
        ),
{
    let a = sha256_digest(cache_key_input(method, url));
    let b = sha256_digest(cache_key_input(other_method, other_url));
    let prefix = "cache:"@.len() as int;
    assert(cache_key(method, url).skip(prefix) =~= lower_hex(a));
    assert(cache_key(other_method, other_url).skip(prefix) =~= lower_hex(b));
    lemma_lower_hex_is_injective(a, b);
}

/// Hexadecimal text determines its bytes.
proof fn lemma_lower_hex_is_injective(a: Seq<u8>, b: Seq<u8>)
    requires
        lower_hex(a) == lower_hex(b),
    ensures
        a == b,
{
    assert(lower_hex(a).len() == 2 * a.len());
    assert(lower_hex(b).len() == 2 * b.len());
    assert forall|i: int| 0 <= i < a.len() implies a[i] == b[i] by {
        assert(lower_hex(a)[2 * i] == hex_digit(a[i] as int / 16));
        assert(lower_hex(b)[2 * i] == hex_digit(b[i] as int / 16));
        assert(lower_hex(a)[2 * i + 1] == hex_digit(a[i] as int % 16));
        assert(lower_hex(b)[2 * i + 1] == hex_digit(b[i] as int % 16));
        lemma_hex_digit_is_injective(a[i] as int / 16, b[i] as int / 16);
        lemma_hex_digit_is_injective(a[i] as int % 16, b[i] as int % 16);
    }
    assert(a =~= b);
}

/// A hexadecimal digit determines its number.
proof fn lemma_hex_digit_is_injective(m: int, n: int)
    requires
        0 <= m < 16,
        0 <= n < 16,
        hex_digit(m) == hex_digit(n),
    ensures
        m == n,
{
}

/// The same request on the same configuration has the same cache key.
pub proof fn law_a_request_has_one_cache_key(
    state: AppState,
    method: Seq<char>,
    uri: Seq<char>,
    first: Route,
    second: Route,
)
    requires
        is_route(state.cfg, method, uri, first),
        is_route(state.cfg, method, uri, second),
    ensures
        first.cache_key@ == second.cache_key@,
        first.upstream_url@ == second.upstream_url@,
        first.cacheable == second.cacheable,
{
}

// Tables and header fields

/// A name that one entry of a table denotes has the values of that entry.
proof fn lemma_table_fields_at(
    order: Seq<(Seq<char>, Seq<Seq<char>>)>,
    k: int,
    name: Seq<char>,
)
    requires
        0 <= k < order.len(),
        parsed_header_name(order[k].0) == Some(name),
        forall|i: int|
            0 <= i < order.len() && i != k ==> parsed_header_name((#[trigger] order[i]).0) != Some(
                name,
            ),
    ensures
        values_at(table_fields(order), name) == header_values(order[k].1),
        table_fields(order).contains_key(name) <==> header_values(order[k].1).len() > 0,
    decreases order.len(),
{
    let front = order.drop_last();
    assert forall|i: int| 0 <= i < front.len() && i != k implies parsed_header_name(
        (#[trigger] front[i]).0,
    ) != Some(name) by {
        assert(front[i] == order[i]);
    }
    if k < front.len() {
        assert(front[k] == order[k]);
        lemma_table_fields_at(front, k, name);
        assert(parsed_header_name(order[order.len() - 1].0) != Some(name));
    } else {
        lemma_table_fields_absent(front, name);
    }
    assert(values_at(table_fields(order), name) =~= header_values(order[k].1));
}

/// A name that no entry of a table denotes is absent.
proof fn lemma_table_fields_absent(order: Seq<(Seq<char>, Seq<Seq<char>>)>, name: Seq<char>)
    requires
        forall|i: int|
            0 <= i < order.len() ==> parsed_header_name((#[trigger] order[i]).0) != Some(name),
    ensures
        !table_fields(order).contains_key(name),
    decreases order.len(),
{
    if order.len() > 0 {
        let front = order.drop_last();
        assert forall|i: int| 0 <= i < front.len() implies parsed_header_name(
            (#[trigger] front[i]).0,
        ) != Some(name) by {
            assert(front[i] == order[i]);
        }
        lemma_table_fields_absent(front, name);
        assert(parsed_header_name(order[order.len() - 1].0) != Some(name));
    }
}

/// A default header whose name no other key denotes is among the default
/// headers with its value.
pub proof fn law_default_headers_are_loaded(
    state: AppState,
    headers: Map<Seq<char>, Seq<char>>,
    key: Seq<char>,
)
    requires
        has_default_headers(state, headers),
        headers.contains_key(key),
        parsed_header_name(key) is Some,
        parsed_header_value(headers[key]) is Some,
        forall|other: Seq<char>| #[trigger]
            headers.contains_key(other) && other != key ==> parsed_header_name(other)
                != parsed_header_name(key),
    ensures
        header_fields(state.default_headers).contains_key(parsed_header_name(key)->0),
        header_fields(state.default_headers)[parsed_header_name(key)->0] == seq![
            parsed_header_value(headers[key])->0,
        ],
{
    let name = parsed_header_name(key)->0;
    let order = choose|order: Seq<(Seq<char>, Seq<Seq<char>>)>|
        {
            &&& distinct_names(order)
            &&& table_of(order) == single_values(headers)
            &&& header_fields(state.default_headers) == #[trigger] table_fields(order)
        };
    lemma_table_of_entries(order);
    assert(table_of(order).contains_key(key));
    let k = choose|k: int| 0 <= k < order.len() && (#[trigger] order[k]).0 == key;
    assert(order[k].1 == seq![headers[key]]);
    assert forall|i: int| 0 <= i < order.len() && i != k implies parsed_header_name(
        (#[trigger] order[i]).0,
    ) != Some(name) by {
        assert(table_of(order).contains_key(order[i].0));
        assert(headers.contains_key(order[i].0));
        if i < k {
            assert(order[i].0 != order[k].0);
        } else {
            assert(order[k].0 != order[i].0);
        }
    }
    lemma_table_fields_at(order, k, name);
    assert(order[k].1.drop_last() =~= Seq::empty());
    reveal_with_fuel(header_values, 2);
    assert(header_values(order[k].1) =~= seq![parsed_header_value(headers[key])->0]);
}

/// Only what the default headers hold is among them: a name that no key denotes
/// is absent.
pub proof fn law_no_default_header_is_made_up(
    state: AppState,
    headers: Map<Seq<char>, Seq<char>>,
    name: Seq<char>,
)
    requires
        has_default_headers(state, headers),
        forall|key: Seq<char>| #[trigger]
            headers.contains_key(key) ==> parsed_header_name(key) != Some(name),
    ensures
        !header_fields(state.default_headers).contains_key(name),
{
    let order = choose|order: Seq<(Seq<char>, Seq<Seq<char>>)>|
        {
            &&& distinct_names(order)
            &&& table_of(order) == single_values(headers)
            &&& header_fields(state.default_headers) == #[trigger] table_fields(order)
        };
    lemma_table_of_entries(order);
    assert forall|i: int| 0 <= i < order.len() implies parsed_header_name(
        (#[trigger] order[i]).0,
    ) != Some(name) by {
        assert(table_of(order).contains_key(order[i].0));
        assert(headers.contains_key(order[i].0));
    }
    lemma_table_fields_absent(order, name);
}

// Replay

/// Those of the values that have a text.
pub open spec fn readable_values(values: Seq<Seq<u8>>) -> Seq<Seq<u8>>
    decreases values.len(),
{
    if values.len() == 0 {
        Seq::empty()
    } else if header_value_text(values.last()) is Some {
        readable_values(values.drop_last()).push(values.last())
    } else {
        readable_values(values.drop_last())
    }
}

/// The fields without the values that have no text.
pub open spec fn readable_fields(fields: Fields) -> Fields {
    Map::new(
        |name: Seq<char>| readable_values(values_at(fields, name)).len() > 0,
        |name: Seq<char>| readable_values(values_at(fields, name)),
    )
}

/// Every value has a text, and every name has a value.
pub open spec fn is_readable(fields: Fields) -> bool {
    forall|name: Seq<char>| #[trigger]
        fields.contains_key(name) ==> fields[name].len() > 0 && forall|i: int|
            0 <= i < fields[name].len() ==> header_value_text(#[trigger] fields[name][i]) is Some
}

/// A header name that is a token: it holds no quotation mark.
pub open spec fn is_token_name(name: Seq<char>) -> bool {
    is_header_name(name) && !name.contains('"')
}

/// Reading a value's text gives the value back.
proof fn lemma_text_round_trip(value: Seq<u8>)
    requires
        header_value_text(value) is Some,
    ensures
        parsed_header_value(header_value_text(value)->0) == Some(value),
{
    let text = header_value_text(value)->0;
    assert(is_ascii_chars(text)) by {
        assert forall|i: int| 0 <= i < text.len() implies (#[trigger] text[i] as nat) < 128 by {
            assert(is_visible_ascii(value[i]));
        }
    }
    vstd::utf8::is_ascii_chars_encode_utf8(text);
    assert forall|i: int| 0 <= i < value.len() implies encode_utf8(text)[i] == value[i] by {
        assert(is_visible_ascii(value[i]));
        assert(text[i] as u8 == encode_utf8(text)[i]);
    }
    assert(encode_utf8(text) =~= value);
    assert forall|i: int| 0 <= i < value.len() implies is_header_value_byte(
        #[trigger] value[i],
    ) by {
        assert(is_visible_ascii(value[i]));
    }
}

/// Reading the texts of values gives the readable values back.
proof fn lemma_texts_round_trip(values: Seq<Seq<u8>>)
    ensures
        header_values(text_values(values)) == readable_values(values),
        text_values(values).len() == readable_values(values).len(),
    decreases values.len(),
{
    if values.len() > 0 {
        lemma_texts_round_trip(values.drop_last());
        if let Some(text) = header_value_text(values.last()) {
            lemma_text_round_trip(values.last());
            let front = text_values(values.drop_last());
            assert(front.push(text).drop_last() =~= front);
        }
    }
}

/// A name that is a token denotes itself.
proof fn lemma_token_name_denotes_itself(name: Seq<char>)
    requires
        is_token_name(name),
    ensures
        parsed_header_name(name) == Some(name),
{
    assert forall|i: int| 0 <= i < name.len() implies is_token_char(#[trigger] name[i]) by {
        assert(is_header_name_char(name[i]));
        assert(name.contains(name[i]));
    }
    assert forall|i: int| 0 <= i < name.len() implies ascii_lower(name)[i] == name[i] by {
        assert(is_header_name_char(name[i]));
    }
    assert(ascii_lower(name) =~= name);
}

/// The table of the fields' texts denotes the readable fields.
proof fn lemma_fields_round_trip(order: Seq<(Seq<char>, Seq<Seq<char>>)>, fields: Fields)
    requires
        distinct_names(order),
        table_of(order) == text_fields(fields),
        forall|name: Seq<char>| #[trigger] fields.contains_key(name) ==> is_token_name(name),
    ensures
        table_fields(order) == readable_fields(fields),
{
    lemma_table_of_entries(order);
    assert forall|i: int| 0 <= i < order.len() implies parsed_header_name((#[trigger] order[i]).0)
        == Some(order[i].0) by {
        assert(table_of(order).contains_key(order[i].0));
        assert(fields.contains_key(order[i].0));
        lemma_token_name_denotes_itself(order[i].0);
    }
    let left = table_fields(order);
    let right = readable_fields(fields);
    assert forall|name: Seq<char>|
        left.contains_key(name) == right.contains_key(name) && values_at(left, name) == values_at(
            right,
            name,
        ) by {
        lemma_texts_round_trip(values_at(fields, name));
        if table_of(order).contains_key(name) {
            let k = choose|k: int| 0 <= k < order.len() && (#[trigger] order[k]).0 == name;
            assert(order[k].1 == text_values(values_at(fields, name)));
            assert forall|i: int| 0 <= i < order.len() && i != k implies parsed_header_name(
                (#[trigger] order[i]).0,
            ) != Some(name) by {
                if i < k {
                    assert(order[i].0 != order[k].0);
                } else {
                    assert(order[k].0 != order[i].0);
                }
            }
            lemma_table_fields_at(order, k, name);
        } else {
            assert forall|i: int| 0 <= i < order.len() implies parsed_header_name(
                (#[trigger] order[i]).0,
            ) != Some(name) by {
                assert(table_of(order).contains_key(order[i].0));
            }
            lemma_table_fields_absent(order, name);
        }
    }
    assert forall|name: Seq<char>| #[trigger]
        left.contains_key(name) == right.contains_key(name) by {
        assert(values_at(left, name) == values_at(right, name));
    }
    assert forall|name: Seq<char>| left.contains_key(name) implies left[name] == right[name] by {
        assert(values_at(left, name) == values_at(right, name));
    }
    assert(left.dom() =~= right.dom());
    assert(left =~= right);
}

/// Where every value has a text, the readable values are all of them.
proof fn lemma_all_readable(values: Seq<Seq<u8>>)
    requires
        forall|i: int| 0 <= i < values.len() ==> header_value_text(#[trigger] values[i]) is Some,
    ensures
        readable_values(values) == values,
    decreases values.len(),
{
    if values.len() > 0 {
        let front = values.drop_last();
        assert forall|i: int| 0 <= i < front.len() implies header_value_text(
            #[trigger] front[i],
        ) is Some by {
            assert(front[i] == values[i]);
        }
        lemma_all_readable(front);
        assert(header_value_text(values[values.len() - 1]) is Some);
        assert(front.push(values.last()) =~= values);
    } else {
        assert(readable_values(values) =~= values);
    }
}

/// Readable fields stay as they are.
proof fn lemma_readable_fields_stay(fields: Fields)
    requires
        is_readable(fields),
    ensures
        readable_fields(fields) == fields,
{
    assert forall|name: Seq<char>|
        fields.contains_key(name) == readable_fields(fields).contains_key(name) && (
        fields.contains_key(name) ==> fields[name] == readable_fields(fields)[name]) by {
        if fields.contains_key(name) {
            lemma_all_readable(fields[name]);
        }
    }
    assert(readable_fields(fields) =~= fields);
}

/// Storing headers as texts and restoring them loses nothing but the hop-by-hop
/// headers, where every value has a text.
pub proof fn law_stored_headers_are_restored(
    order: Seq<(Seq<char>, Seq<Seq<char>>)>,
    fields: Fields,
)
    requires
        distinct_names(order),
        table_of(order) == text_fields(end_to_end(fields)),
        is_readable(end_to_end(fields)),
        forall|name: Seq<char>| #[trigger] fields.contains_key(name) ==> is_token_name(name),
    ensures
        table_fields(order) == end_to_end(fields),
{
    lemma_fields_round_trip(order, end_to_end(fields));
    lemma_readable_fields_stay(end_to_end(fields));
}

/// A response that is given stored headers comes out as one that is given the
/// headers themselves, as long as they fit for certain.
pub proof fn law_stored_headers_build_the_same(
    before: Result<HeadView, Seq<char>>,
    order: Seq<(Seq<char>, Seq<Seq<char>>)>,
    fields: Fields,
    stored: Result<HeadView, Seq<char>>,
    direct: Result<HeadView, Seq<char>>,
)
    requires
        distinct_names(order),
        table_of(order) == text_fields(end_to_end(fields)),
        is_readable(end_to_end(fields)),
        forall|name: Seq<char>| #[trigger] fields.contains_key(name) ==> is_token_name(name),
        before matches Ok(head) ==> name_count(append_fields(head.fields, end_to_end(fields)))
            <= MAX_HEADER_NAMES,
        extended(before, table_fields(order), stored),
        extended(before, end_to_end(fields), direct),
    ensures
        stored == direct,
        before matches Ok(head) ==> stored == Ok::<HeadView, Seq<char>>(
            HeadView {
                status: head.status,
                fields: append_fields(head.fields, end_to_end(fields)),
            },
        ),
{
    law_stored_headers_are_restored(order, fields);
}

/// What was written to the cache for one request answers a later one: with the
/// status of the upstream response, with its end-to-end headers as far as they
/// have a text, marked `HIT`, and with its body, byte for byte. Where all values
/// have a text, no header is lost.
pub proof fn law_cached_responses_are_replayed(
    state: AppState,
    route: Route,
    status: u16,
    headers: HeaderMap,
    body: Vec<u8>,
    write: Step,
    found: CachedResponse,
    later: ProxyRequest,
    later_route: Route,
    answer: Step,
)
    requires
        follows_body(state, route, status, headers, Ok(body), write),
        write is WriteCache,
        found.status == write->WriteCache_write.entry.status,
        found.headers@ == write->WriteCache_write.entry.headers@,
        found.body@ == write->WriteCache_write.entry.body@,
        distinct_names(found.headers.order()),
        forall|name: Seq<char>| #[trigger]
            header_fields(headers).contains_key(name) ==> is_token_name(name),
        follows_lookup(state, later, later_route, CacheLookup::Found(found), answer),
    ensures
        answer is Respond,
        built(
            answer->Respond_response,
            status,
            with_cache_mark(readable_fields(end_to_end(header_fields(headers))), "HIT"@),
            BodyView::Bytes(body@),
            is_crowded(
                with_cache_mark(readable_fields(end_to_end(header_fields(headers))), "HIT"@),
            ),
        ),
        is_readable(end_to_end(header_fields(headers))) ==> readable_fields(
            end_to_end(header_fields(headers)),
        ) == end_to_end(header_fields(headers)),
{
    let kept = end_to_end(header_fields(headers));
    let order = found.headers.order();
    law_stored_bodies_are_restored(body@);
    lemma_fields_round_trip(order, kept);
    let replayed = readable_fields(kept);
    assert forall|name: Seq<char>| replayed.contains_key(name) implies !hop_by_hop(name) by {
        if !kept.contains_key(name) {
            assert(values_at(kept, name) =~= Seq::<Seq<u8>>::empty());
        }
    }
    assert(end_to_end(replayed) =~= replayed);
    if is_readable(kept) {
        lemma_readable_fields_stay(kept);
    }
}

/// A request whose response was cached is answered the same when it is made
/// again: the second answer has the status and the body of the first and, where
/// the values of the upstream have a text, its headers. Only `X-Cache` tells the
/// two apart. The cache is asked under the key that was written, and nothing is
/// sent upstream.
pub proof fn law_a_repeated_request_is_answered_the_same(
    state: AppState,
    first: ProxyRequest,
    first_steps: Seq<Step>,
    first_events: Seq<Event>,
    status: u16,
    headers: HeaderMap,
    body: Vec<u8>,
    i: int,
    second: ProxyRequest,
    second_steps: Seq<Step>,
    second_events: Seq<Event>,
    found: CachedResponse,
    name: Seq<char>,
)
    requires
        is_course(state, first, first_steps, first_events),
        0 <= i < first_events.len(),
        first_steps[i] matches Step::ReadBody { status: s, headers: h, .. } && s == status && h
            == headers,
        first_events[i] == Event::BodyRead(Ok(body)),
        first_steps[i + 1] is WriteCache,
        is_readable(end_to_end(header_fields(headers))),
        forall|n: Seq<char>| #[trigger]
            header_fields(headers).contains_key(n) ==> is_token_name(n),
        second.method@ == first.method@,
        second.uri@ == first.uri@,
        is_course(state, second, second_steps, second_events),
        second_events.len() > 0,
        second_events[0] == Event::CacheReply(CacheLookup::Found(found)),
        found.status == first_steps[i + 1]->WriteCache_write.entry.status,
        found.headers@ == first_steps[i + 1]->WriteCache_write.entry.headers@,
        found.body@ == first_steps[i + 1]->WriteCache_write.entry.body@,
        distinct_names(found.headers.order()),
    ensures
        second_steps[0] is LookUpCache,
        second_steps[0]->LookUpCache_route.cache_key@ == first_steps[i
            + 1]->WriteCache_write.key@,
        second_steps.len() == 2,
        second_steps[1] is Respond,
        first_steps[i + 1]->WriteCache_response is Ok && second_steps[1]->Respond_response is Ok
            ==> {
            let one = first_steps[i + 1]->WriteCache_response->Ok_0;
            let two = second_steps[1]->Respond_response->Ok_0;
            &&& two.status == one.status == status
            &&& one.body@ == BodyView::Bytes(body@)
            &&& two.body@ == BodyView::Bytes(body@)
            &&& name != "x-cache"@ ==> values_at(two.fields(), name) == values_at(
                one.fields(),
                name,
            )
            &&& values_at(one.fields(), "x-cache"@) == values_at(
                header_fields(headers),
                "x-cache"@,
            ).push(encode_utf8("MISS"@))
            &&& values_at(two.fields(), "x-cache"@) == values_at(
                header_fields(headers),
                "x-cache"@,
            ).push(encode_utf8("HIT"@))
        },
{
    let write = first_steps[i + 1];
    let route = first_steps[i]->ReadBody_route;
    let event = first_events[i];
    assert(follows(state, first_steps[i], event, write));
    law_steps_belong_to_the_request(state, first, first_steps, first_events, i + 1);
    law_steps_belong_to_the_request(state, second, second_steps, second_events, 0);
    let lookup = second_events[0];
    assert(second_steps[0].awaits(lookup));
    assert(follows(state, second_steps[0], lookup, second_steps[1]));
    law_a_hit_ends_the_request(state, second, second_steps, second_events);
    law_cached_responses_are_replayed(
        state,
        route,
        status,
        headers,
        body,
        write,
        found,
        second,
        second_steps[0]->LookUpCache_route,
        second_steps[1],
    );
    lemma_x_cache_is_end_to_end();
}

} // verus!
