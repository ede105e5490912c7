//! What the proxy guarantees, said of requests, answers, texts and numbers as
//! they are.

use axum::http::HeaderMap;
use vstd::prelude::*;
use vstd::utf8::encode_utf8;

use crate::build_response::{built, is_crowded, is_hit, with_cache_mark};
use crate::cache::{
    base64_digit, base64_group, base64_text, byte_or_zero, found_response,
    law_stored_bodies_are_restored, lemma_base64_text_at, CacheLookup,
};
use crate::entrypoint::{
    are_retry_settings, is_client_settings, is_rate_quota, too_many_headers, ClientSettings,
    RateQuota, RetrySettings,
};
use crate::handler::{
    announced_length, begins, follows, follows_answer, follows_attempt, follows_body, forwards,
    is_miss, is_route, status_text, upstream_fields, upstream_url, Attempt, Event, ProxyRequest,
    Route, Step, UpstreamAnswer, UpstreamRequest,
};
use crate::headers::{
    append_field, append_fields, fields_of, header_fields, header_value_text, is_header_value_byte,
    is_token_char, is_visible_ascii, lemma_append_fields_step, lemma_append_no_fields, no_fields,
    parsed_header_name, parsed_header_value, values_at, Fields,
};
use crate::laws::{is_course, law_steps_belong_to_the_request, lemma_x_cache_is_end_to_end};
use crate::models::{
    distinct_names, lemma_table_of_entries, table_of, AppState, Args, BodyView, CachedResponse,
    HandlerResult, UpstreamError,
};
use crate::response::{extended, is_status_code, HeadView};
use crate::text::{
    all_digits, ascii_lower, decimal_value, is_digit, lower_hex, parsed_u64, unsigned_digits,
    without_trailing_slashes,
};
use crate::utils::{
    cache_key, cache_key_input, end_to_end, entry_fields, header_values, hop_by_hop, pairs_map,
    sha256_digest, single_values, table_fields, text_fields, text_values,
};

verus! {

// Addresses

/// What is left of a base URL is its beginning, and what is cut are slashes.
proof fn lemma_cut_slashes(base: Seq<char>)
    ensures
        without_trailing_slashes(base).len() <= base.len(),
        without_trailing_slashes(base) == base.take(without_trailing_slashes(base).len() as int),
        forall|i: int|
            without_trailing_slashes(base).len() <= i < base.len() ==> #[trigger] base[i] == '/',
        without_trailing_slashes(base).len() > 0 ==> without_trailing_slashes(base).last() != '/',
    decreases base.len(),
{
    if base.len() > 0 && base.last() == '/' {
        let front = base.drop_last();
        lemma_cut_slashes(front);
        let kept = without_trailing_slashes(base);
        assert(front.take(kept.len() as int) =~= base.take(kept.len() as int));
        assert forall|i: int| kept.len() <= i < base.len() implies #[trigger] base[i] == '/' by {
            if i < front.len() {
                assert(front[i] == base[i]);
            }
        }
    } else {
        assert(base.take(base.len() as int) =~= base);
    }
}

/// The upstream URL ends with path and query of the request, character for
/// character. Before them stands all of the base URL but the slashes at its end.
pub proof fn law_upstream_urls_are_base_and_uri(base: Seq<char>, uri: Seq<char>)
    ensures
        uri.len() <= upstream_url(base, uri).len() <= base.len() + uri.len(),
        upstream_url(base, uri).skip(upstream_url(base, uri).len() - uri.len()) == uri,
        upstream_url(base, uri).take(upstream_url(base, uri).len() - uri.len()) == base.take(
            upstream_url(base, uri).len() - uri.len(),
        ),
        forall|i: int|
            upstream_url(base, uri).len() - uri.len() <= i < base.len() ==> #[trigger] base[i]
                == '/',
        upstream_url(base, uri).len() > uri.len() ==> base[upstream_url(base, uri).len() - uri.len()
            - 1] != '/',
{
    lemma_cut_slashes(base);
    let url = upstream_url(base, uri);
    let kept = without_trailing_slashes(base);
    assert(url.skip(url.len() - uri.len()) =~= uri);
    assert(url.take(url.len() - uri.len()) =~= kept);
}

/// Different paths or queries lead to different upstream URLs.
pub proof fn law_different_uris_have_different_urls(
    base: Seq<char>,
    uri: Seq<char>,
    other: Seq<char>,
)
    requires
        upstream_url(base, uri) == upstream_url(base, other),
    ensures
        uri == other,
{
    let kept = without_trailing_slashes(base);
    assert(upstream_url(base, uri).skip(kept.len() as int) =~= uri);
    assert(upstream_url(base, other).skip(kept.len() as int) =~= other);
}

/// What is sent for a request: its method, its body, and to the base URL without
/// the slashes at its end its path and query. A header of the client goes along
/// with all its values unless it is a hop-by-hop header; a default header goes
/// along where the client's does not.
pub proof fn law_what_is_sent_for_a_request(
    state: AppState,
    request: ProxyRequest,
    steps: Seq<Step>,
    events: Seq<Event>,
    i: int,
    name: Seq<char>,
)
    requires
        is_course(state, request, steps, events),
        0 <= i < steps.len(),
        steps[i] is Send,
    ensures
        steps[i]->Send_upstream.method@ == request.method@,
        steps[i]->Send_upstream.body@ == request.body@,
        ({
            let url = steps[i]->Send_upstream.url@;
            let base = state.cfg.external_api_base@;
            let cut = url.len() - request.uri@.len();
            &&& 0 <= cut <= base.len()
            &&& url == base.take(cut) + request.uri@
            &&& forall|k: int| cut <= k < base.len() ==> #[trigger] base[k] == '/'
            &&& cut > 0 ==> base[cut - 1] != '/'
        }),
        values_at(header_fields(steps[i]->Send_upstream.headers), name) == if header_fields(
            request.headers,
        ).contains_key(name) && !hop_by_hop(name) {
            header_fields(request.headers)[name]
        } else if header_fields(state.default_headers).contains_key(name) {
            header_fields(state.default_headers)[name]
        } else {
            Seq::empty()
        },
        header_fields(steps[i]->Send_upstream.headers).contains_key(name) <==> (header_fields(
            request.headers,
        ).contains_key(name) && !hop_by_hop(name)) || header_fields(
            state.default_headers,
        ).contains_key(name),
{
    law_steps_belong_to_the_request(state, request, steps, events, i);
    let base = state.cfg.external_api_base@;
    law_upstream_urls_are_base_and_uri(base, request.uri@);
    let url = steps[i]->Send_upstream.url@;
    let cut = url.len() - request.uri@.len();
    assert(url =~= url.take(cut) + url.skip(cut));
}

// Headers

/// Exactly these nine headers, in any letter case, are hop-by-hop headers. Every
/// other one is not.
pub proof fn law_these_headers_are_hop_by_hop(name: Seq<char>)
    ensures
        hop_by_hop(name) <==> seq![
            "host"@,
            "connection"@,
            "keep-alive"@,
            "transfer-encoding"@,
            "upgrade"@,
            "proxy-authorization"@,
            "proxy-authenticate"@,
            "te"@,
            "trailer"@,
        ].contains(ascii_lower(name)),
{
    let nine = seq![
        "host"@,
        "connection"@,
        "keep-alive"@,
        "transfer-encoding"@,
        "upgrade"@,
        "proxy-authorization"@,
        "proxy-authenticate"@,
        "te"@,
        "trailer"@,
    ];
    assert(nine[0] == "host"@ && nine[1] == "connection"@ && nine[2] == "keep-alive"@);
    assert(nine[3] == "transfer-encoding"@ && nine[4] == "upgrade"@);
    assert(nine[5] == "proxy-authorization"@ && nine[6] == "proxy-authenticate"@);
    assert(nine[7] == "te"@ && nine[8] == "trailer"@);
}

/// A header whose name is none of the nine goes upstream with all its values, as
/// the client sent it, and is part of a response with all its values.
pub proof fn law_other_headers_pass(defaults: Fields, fields: Fields, name: Seq<char>)
    requires
        fields.contains_key(name),
        ascii_lower(name) != "host"@,
        ascii_lower(name) != "connection"@,
        ascii_lower(name) != "keep-alive"@,
        ascii_lower(name) != "transfer-encoding"@,
        ascii_lower(name) != "upgrade"@,
        ascii_lower(name) != "proxy-authorization"@,
        ascii_lower(name) != "proxy-authenticate"@,
        ascii_lower(name) != "te"@,
        ascii_lower(name) != "trailer"@,
    ensures
        upstream_fields(defaults, fields).contains_key(name),
        upstream_fields(defaults, fields)[name] == fields[name],
        end_to_end(fields).contains_key(name),
        end_to_end(fields)[name] == fields[name],
{
}

/// Filtering takes the hop-by-hop headers out and leaves all others as they are.
pub proof fn law_filtering_takes_out_hop_by_hop_headers(fields: Fields, name: Seq<char>)
    ensures
        end_to_end(fields).contains_key(name) <==> fields.contains_key(name) && !hop_by_hop(name),
        end_to_end(fields).contains_key(name) ==> end_to_end(fields)[name] == fields[name],
{
}

/// A response that can still be built keeps its status, and each name has the
/// added values behind those from before. With at most 6553 names it can be built.
/// One that cannot be built stays so.
pub proof fn law_added_headers_come_last(
    before: Result<HeadView, Seq<char>>,
    more: Fields,
    after: Result<HeadView, Seq<char>>,
    name: Seq<char>,
)
    requires
        extended(before, more, after),
    ensures
        before is Err ==> after == before,
        before matches Ok(head) ==> {
            &&& head.fields.dom().union(more.dom()).len() <= 6553 ==> after is Ok
            &&& after matches Err(reason) ==> reason == "max size reached"@
            &&& after matches Ok(made) ==> {
                &&& made.status == head.status
                &&& values_at(made.fields, name) == values_at(head.fields, name) + values_at(
                    more,
                    name,
                )
            }
        },
{
    if let Ok(head) = before {
        assert(append_fields(head.fields, more).dom() =~= head.fields.dom().union(more.dom()));
        assert(values_at(append_fields(head.fields, more), name) =~= values_at(head.fields, name)
            + values_at(more, name));
    }
}

/// Lower case changes the letters `A` to `Z` and nothing else.
pub proof fn law_lower_case_changes_capital_letters_only(text: Seq<char>, i: int)
    requires
        0 <= i < text.len(),
    ensures
        ascii_lower(text).len() == text.len(),
        ascii_lower(text)[i] as int == if 65 <= text[i] as int <= 90 {
            text[i] as int + 32
        } else {
            text[i] as int
        },
{
}

/// The values of a name after one more field are those from before, and the new
/// value behind them if it has the name.
pub proof fn law_appended_values_come_last(
    fields: Fields,
    name: Seq<char>,
    value: Seq<u8>,
    other: Seq<char>,
)
    ensures
        values_at(append_field(fields, name, value), name) == values_at(fields, name).push(value),
        other != name ==> values_at(append_field(fields, name, value), other) == values_at(
            fields,
            other,
        ),
{
}

/// The fields of two lists one after the other are those of the first with those
/// of the second behind them.
pub proof fn law_lists_of_fields_add_up(
    first: Seq<(Seq<char>, Seq<u8>)>,
    second: Seq<(Seq<char>, Seq<u8>)>,
    name: Seq<char>,
)
    ensures
        fields_of(first + second) == append_fields(fields_of(first), fields_of(second)),
        values_at(fields_of(first + second), name) == values_at(fields_of(first), name) + values_at(
            fields_of(second),
            name,
        ),
    decreases second.len(),
{
    if second.len() == 0 {
        assert(first + second =~= first);
        lemma_append_no_fields(fields_of(first));
        assert(values_at(fields_of(first), name) + Seq::<Seq<u8>>::empty() =~= values_at(
            fields_of(first),
            name,
        ));
    } else {
        let front = second.drop_last();
        law_lists_of_fields_add_up(first, front, name);
        assert((first + second).drop_last() =~= first + front);
        lemma_append_fields_step(
            fields_of(first),
            fields_of(front),
            second.last().0,
            second.last().1,
        );
        assert(values_at(append_fields(fields_of(first), fields_of(second)), name) =~= values_at(
            fields_of(first),
            name,
        ) + values_at(fields_of(second), name));
    }
}

// What is asked of the cache, and what is given to it

/// With the switch that caches all methods on, every request asks the cache
/// first. With it off, exactly the requests with an idempotent method do.
pub proof fn law_which_requests_ask_the_cache(state: AppState, request: ProxyRequest, next: Step)
    requires
        begins(state, request, next),
    ensures
        state.cfg.skip_idempotency_check ==> next is LookUpCache,
        !state.cfg.skip_idempotency_check ==> (next is LookUpCache <==> request.method@ == "GET"@
            || request.method@ == "HEAD"@ || request.method@ == "OPTIONS"@ || request.method@
            == "TRACE"@ || request.method@ == "QUERY"@ || request.method@ == "PUT"@
            || request.method@ == "DELETE"@),
        !(next is LookUpCache) ==> next is AwaitPermit || next is Unforwardable,
        next matches Step::LookUpCache { request: kept, route } ==> {
            let base = state.cfg.external_api_base@;
            let url = route.upstream_url@;
            let cut = url.len() - request.uri@.len();
            &&& kept == request
            &&& route.cache_key@ == cache_key(request.method@, url)
            &&& 0 <= cut <= base.len()
            &&& url == base.take(cut) + request.uri@
            &&& forall|k: int| cut <= k < base.len() ==> #[trigger] base[k] == '/'
            &&& cut > 0 ==> base[cut - 1] != '/'
        },
        next is Unforwardable ==> !(header_fields(state.default_headers).dom().finite()
            && header_fields(request.headers).dom().finite() && header_fields(
            state.default_headers,
        ).dom().len() + header_fields(request.headers).dom().len() <= 6553),
{
    let base = state.cfg.external_api_base@;
    law_upstream_urls_are_base_and_uri(base, request.uri@);
    let url = upstream_url(base, request.uri@);
    let cut = url.len() - request.uri@.len();
    assert(url =~= url.take(cut) + url.skip(cut));
    if next is Unforwardable {
        lemma_room_upstream(header_fields(state.default_headers), header_fields(request.headers));
    }
}

/// The cache may take part in the requests of a route exactly where it is asked
/// for them.
pub proof fn law_which_routes_are_cacheable(
    cfg: Args,
    method: Seq<char>,
    uri: Seq<char>,
    route: Route,
)
    requires
        is_route(cfg, method, uri, route),
    ensures
        cfg.skip_idempotency_check ==> route.cacheable,
        !cfg.skip_idempotency_check ==> (route.cacheable <==> method == "GET"@ || method == "HEAD"@
            || method == "OPTIONS"@ || method == "TRACE"@ || method == "QUERY"@ || method == "PUT"@
            || method == "DELETE"@),
        route.cache_key@ == cache_key(method, route.upstream_url@),
        route.upstream_url@.len() >= uri.len(),
        route.upstream_url@.skip(route.upstream_url@.len() - uri.len()) == uri,
        route.upstream_url@.take(route.upstream_url@.len() - uri.len()).is_prefix_of(
            cfg.external_api_base@,
        ),
{
    law_upstream_urls_are_base_and_uri(cfg.external_api_base@, uri);
}

/// A response whose body was read goes into the cache exactly where its request
/// is cacheable, its status is from 200 to 399, and its body is no longer than
/// the limit, if there is one. Then the client is answered; else at once.
pub proof fn law_what_goes_into_the_cache(
    state: AppState,
    route: Route,
    status: u16,
    headers: HeaderMap,
    body: Vec<u8>,
    next: Step,
    name: Seq<char>,
)
    requires
        follows_body(state, route, status, headers, Ok(body), next),
    ensures
        next is WriteCache <==> route.cacheable && 200 <= status && status <= 399 && (
        state.cfg.max_body_size == 0 || body@.len() <= state.cfg.max_body_size),
        !(next is WriteCache) ==> next is Respond,
        next matches Step::WriteCache { write, .. } ==> {
            &&& write.key@ == route.cache_key@
            &&& write.ttl_secs == state.cfg.cache_ttl_secs
            &&& write.entry.status == status
            &&& write.entry.body@ == base64_text(body@)
            &&& write.entry.headers@.contains_key(name) <==> !hop_by_hop(name) && text_values(
                values_at(header_fields(headers), name),
            ).len() > 0
            &&& write.entry.headers@.contains_key(name) ==> write.entry.headers@[name]
                == text_values(values_at(header_fields(headers), name))
        },
{
    if hop_by_hop(name) || !header_fields(headers).contains_key(name) {
        assert(values_at(end_to_end(header_fields(headers)), name) =~= Seq::empty());
    }
}

/// In the course of a request, a response whose body was read goes into the cache
/// exactly where the method is idempotent or all methods are cached, the status
/// is from 200 to 399, and the body is no longer than the limit, if there is one.
pub proof fn law_which_responses_are_cached(
    state: AppState,
    request: ProxyRequest,
    steps: Seq<Step>,
    events: Seq<Event>,
    i: int,
    body: Vec<u8>,
)
    requires
        is_course(state, request, steps, events),
        0 <= i < events.len(),
        events[i] == Event::BodyRead(Ok(body)),
    ensures
        steps[i] is ReadBody,
        steps[i + 1] is WriteCache <==> (state.cfg.skip_idempotency_check || request.method@
            == "GET"@ || request.method@ == "HEAD"@ || request.method@ == "OPTIONS"@
            || request.method@ == "TRACE"@ || request.method@ == "QUERY"@ || request.method@
            == "PUT"@ || request.method@ == "DELETE"@) && 200 <= steps[i]->ReadBody_status
            && steps[i]->ReadBody_status <= 399 && (state.cfg.max_body_size == 0 || body@.len()
            <= state.cfg.max_body_size),
{
    let event = events[i];
    assert(steps[i].awaits(event));
    assert(follows(state, steps[i], event, steps[i + 1]));
    law_steps_belong_to_the_request(state, request, steps, events, i);
}

// Streaming

/// The decimal digits of a number as bytes, without leading zeros.
pub open spec fn decimal_bytes(n: nat) -> Seq<u8>
    decreases n,
{
    if n < 10 {
        seq![(48 + n) as u8]
    } else {
        decimal_bytes(n / 10).push((48 + n % 10) as u8)
    }
}

/// The digits of a number denote it.
proof fn lemma_decimal_bytes(n: nat)
    ensures
        decimal_bytes(n).len() > 0,
        forall|i: int|
            0 <= i < decimal_bytes(n).len() ==> 48 <= #[trigger] decimal_bytes(n)[i] <= 57,
        decimal_value(decimal_bytes(n).map_values(|b: u8| b as char)) == n,
    decreases n,
{
    let text = decimal_bytes(n).map_values(|b: u8| b as char);
    if n < 10 {
        assert(text.drop_last() =~= Seq::empty());
        assert(decimal_value(text.drop_last()) == 0);
        assert(text.last() as u32 - '0' as u32 == n);
    } else {
        lemma_decimal_bytes(n / 10);
        let front = decimal_bytes(n / 10).map_values(|b: u8| b as char);
        assert(text.drop_last() =~= front);
        assert(text.last() as u32 - '0' as u32 == n % 10);
    }
}

/// A response announces the number that its first `content-length` value writes
/// in decimal, whatever number it is, and nothing without such a header.
pub proof fn law_announced_lengths_are_read(fields: Fields, n: u64)
    ensures
        fields.contains_key("content-length"@) && fields["content-length"@][0] == decimal_bytes(
            n as nat,
        ) ==> announced_length(fields) == Some(n),
        !fields.contains_key("content-length"@) ==> announced_length(fields) is None,
{
    let bytes = decimal_bytes(n as nat);
    let text = bytes.map_values(|b: u8| b as char);
    lemma_decimal_bytes(n as nat);
    assert forall|i: int| 0 <= i < bytes.len() implies is_visible_ascii(#[trigger] bytes[i]) by {}
    assert(header_value_text(bytes) == Some(text));
    assert(text[0] == bytes[0] as char);
    assert(unsigned_digits(text) == text);
    assert forall|i: int| 0 <= i < text.len() implies is_digit(#[trigger] text[i]) by {
        assert(text[i] == bytes[i] as char);
    }
}

/// The announced length is what the first `content-length` value says as a text,
/// where all its bytes are visible ASCII, spaces or tabs, and none otherwise.
pub proof fn law_lengths_are_announced_in_text(fields: Fields, value: Seq<u8>, text: Seq<char>)
    requires
        fields.contains_key("content-length"@),
        fields["content-length"@][0] == value,
        text.len() == value.len(),
        forall|i: int| 0 <= i < text.len() ==> #[trigger] text[i] as int == value[i],
    ensures
        announced_length(fields) == if forall|i: int|
            0 <= i < value.len() ==> 32 <= #[trigger] value[i] <= 126 || value[i] == 9 {
            parsed_u64(text)
        } else {
            None
        },
{
    let chars = value.map_values(|b: u8| b as char);
    assert forall|i: int| 0 <= i < text.len() implies text[i] == chars[i] by {
        assert(text[i] as int == value[i]);
        assert(chars[i] == value[i] as char);
    }
    assert(text =~= chars);
    if forall|i: int| 0 <= i < value.len() ==> 32 <= #[trigger] value[i] <= 126 || value[i] == 9 {
        assert forall|i: int| 0 <= i < value.len() implies is_visible_ascii(
            #[trigger] value[i],
        ) by {
            assert(32 <= value[i] <= 126 || value[i] == 9);
        }
    } else {
        let i = choose|i: int|
            0 <= i < value.len() && !(32 <= #[trigger] value[i] <= 126 || value[i] == 9);
        assert(!is_visible_ascii(value[i]));
    }
}

/// An answer of the upstream is streamed exactly where it announces more bytes
/// than the limit, however many more, and there is a limit. Every other answer is
/// read.
pub proof fn law_answers_over_the_limit_are_streamed(
    state: AppState,
    route: Route,
    answer: UpstreamAnswer,
    next: Step,
    n: u64,
)
    requires
        follows_answer(state, route, answer, next),
    ensures
        header_fields(answer.headers).contains_key("content-length"@) && header_fields(
            answer.headers,
        )["content-length"@][0] == decimal_bytes(n as nat) ==> {
            &&& state.cfg.max_body_size > 0 && n > state.cfg.max_body_size ==> next is Respond
            &&& state.cfg.max_body_size == 0 || n <= state.cfg.max_body_size ==> next
                == Step::ReadBody { route, status: answer.status, headers: answer.headers }
        },
        announced_length(header_fields(answer.headers)) matches Some(length) ==> (next is Respond
            <==> state.cfg.max_body_size > 0 && length > state.cfg.max_body_size),
        announced_length(header_fields(answer.headers)) is None ==> next == (Step::ReadBody {
            route,
            status: answer.status,
            headers: answer.headers,
        }),
        !(next is Respond) ==> next is ReadBody,
{
    law_announced_lengths_are_read(header_fields(answer.headers), n);
}

/// A streamed answer has the upstream's status, body and end-to-end headers, and
/// `STREAM` as its last `X-Cache` value. With at most 6552 header names and a
/// status from 100 to 999 it is sent.
pub proof fn law_streamed_answers(
    state: AppState,
    route: Route,
    answer: UpstreamAnswer,
    next: Step,
    name: Seq<char>,
)
    requires
        follows_answer(state, route, answer, next),
        next is Respond,
        header_fields(answer.headers).dom().finite(),
    ensures
        100 <= answer.status <= 999 && header_fields(answer.headers).dom().len() <= 6552
            ==> next->Respond_response is Ok,
        next->Respond_response matches Ok(response) ==> {
            &&& response.status == answer.status
            &&& response.body@ == BodyView::Upstream
            &&& values_at(response.fields(), "x-cache"@) == values_at(
                header_fields(answer.headers),
                "x-cache"@,
            ).push(encode_utf8("STREAM"@))
            &&& name != "x-cache"@ ==> values_at(response.fields(), name) == if hop_by_hop(name) {
                Seq::empty()
            } else {
                values_at(header_fields(answer.headers), name)
            }
        },
{
    lemma_answer(
        next->Respond_response,
        answer.status,
        header_fields(answer.headers),
        "STREAM"@,
        BodyView::Upstream,
        name,
    );
}

// Answers

/// What an answer built from fields and a mark is.
proof fn lemma_answer(
    result: HandlerResult,
    status: u16,
    fields: Fields,
    mark: Seq<char>,
    body: BodyView,
    name: Seq<char>,
)
    requires
        built(
            result,
            status,
            with_cache_mark(end_to_end(fields), mark),
            body,
            is_crowded(with_cache_mark(end_to_end(fields), mark)),
        ),
        fields.dom().finite(),
    ensures
        100 <= status <= 999 && fields.dom().len() <= 6552 ==> result is Ok,
        !(100 <= status <= 999) ==> result is Err && result->Err_0.0 == 500 && result->Err_0.1@
            == "Response build error: "@ + "invalid status code"@,
        result matches Ok(response) ==> {
            &&& response.status == status
            &&& response.body@ == body
            &&& values_at(response.fields(), "x-cache"@) == values_at(fields, "x-cache"@).push(
                encode_utf8(mark),
            )
            &&& name != "x-cache"@ ==> values_at(response.fields(), name) == if hop_by_hop(name) {
                Seq::empty()
            } else {
                values_at(fields, name)
            }
        },
{
    lemma_x_cache_is_end_to_end();
    let all = with_cache_mark(end_to_end(fields), mark).dom();
    assert(all.subset_of(fields.dom().insert("x-cache"@)));
    vstd::set_lib::lemma_len_subset(all, fields.dom().insert("x-cache"@));
}

/// A buffered answer has the upstream's status, its body byte for byte, its
/// end-to-end headers, and `MISS` as its last `X-Cache` value. With at most 6552
/// header names and a status from 100 to 999 it is sent.
pub proof fn law_buffered_answers(
    result: HandlerResult,
    status: u16,
    fields: Fields,
    body: Seq<u8>,
    name: Seq<char>,
)
    requires
        is_miss(result, status, fields, body),
        fields.dom().finite(),
    ensures
        100 <= status <= 999 && fields.dom().len() <= 6552 ==> result is Ok,
        !(100 <= status <= 999) ==> result is Err && result->Err_0.0 == 500 && result->Err_0.1@
            == "Response build error: "@ + "invalid status code"@,
        result matches Ok(response) ==> {
            &&& response.status == status
            &&& response.body@ == BodyView::Bytes(body)
            &&& values_at(response.fields(), "x-cache"@) == values_at(fields, "x-cache"@).push(
                encode_utf8("MISS"@),
            )
            &&& name != "x-cache"@ ==> values_at(response.fields(), name) == if hop_by_hop(name) {
                Seq::empty()
            } else {
                values_at(fields, name)
            }
        },
{
    lemma_answer(result, status, fields, "MISS"@, BodyView::Bytes(body), name);
}

/// In the course of a request, the client is answered with what was read: the
/// status and the end-to-end headers of the upstream, and the body.
pub proof fn law_what_is_read_is_answered(
    state: AppState,
    route: Route,
    status: u16,
    headers: HeaderMap,
    body: Vec<u8>,
    next: Step,
    name: Seq<char>,
)
    requires
        follows_body(state, route, status, headers, Ok(body), next),
        header_fields(headers).dom().finite(),
    ensures
        next is WriteCache || next is Respond,
        ({
            let result = if next is WriteCache {
                next->WriteCache_response
            } else {
                next->Respond_response
            };
            &&& 100 <= status <= 999 && header_fields(headers).dom().len() <= 6552 ==> result is Ok
            &&& result matches Ok(response) ==> {
                &&& response.status == status
                &&& response.body@ == BodyView::Bytes(body@)
                &&& values_at(response.fields(), "x-cache"@) == values_at(
                    header_fields(headers),
                    "x-cache"@,
                ).push(encode_utf8("MISS"@))
                &&& name != "x-cache"@ ==> values_at(response.fields(), name) == if hop_by_hop(
                    name,
                ) {
                    Seq::empty()
                } else {
                    values_at(header_fields(headers), name)
                }
            }
        }),
{
    let result = if next is WriteCache {
        next->WriteCache_response
    } else {
        next->Respond_response
    };
    law_buffered_answers(result, status, header_fields(headers), body@, name);
}

/// An answer from the cache has the status of the entry, the end-to-end headers
/// that the entry denotes, and `HIT` as its last `X-Cache` value. Its body is the
/// bytes of which the entry holds the base64 text; a text that is the base64 text
/// of no bytes is sent itself.
pub proof fn law_answers_from_the_cache(
    result: HandlerResult,
    cached: CachedResponse,
    body: Seq<u8>,
    name: Seq<char>,
)
    requires
        is_hit(result, cached),
        table_fields(cached.headers.order()).dom().finite(),
    ensures
        100 <= cached.status <= 999 && table_fields(cached.headers.order()).dom().len() <= 6552
            ==> result is Ok,
        result matches Ok(response) ==> {
            &&& response.status == cached.status
            &&& base64_text(body) == cached.body@ ==> response.body@ == BodyView::Bytes(body)
            &&& (forall|other: Seq<u8>| #[trigger] base64_text(other) != cached.body@)
                ==> response.body@ == BodyView::Bytes(encode_utf8(cached.body@))
            &&& values_at(response.fields(), "x-cache"@) == values_at(
                table_fields(cached.headers.order()),
                "x-cache"@,
            ).push(encode_utf8("HIT"@))
            &&& name != "x-cache"@ ==> values_at(response.fields(), name) == if hop_by_hop(name) {
                Seq::empty()
            } else {
                values_at(table_fields(cached.headers.order()), name)
            }
        },
{
    lemma_x_cache_is_end_to_end();
    let fields = table_fields(cached.headers.order());
    let all = with_cache_mark(fields, "HIT"@).dom();
    assert(all.subset_of(fields.dom().insert("x-cache"@)));
    vstd::set_lib::lemma_len_subset(all, fields.dom().insert("x-cache"@));
    if base64_text(body) == cached.body@ {
        law_stored_bodies_are_restored(body);
    }
}

// Steps

/// An attempt is repeated exactly where the request failed or the status is 429
/// or from 500 to 599; the same request then waits. Otherwise its answer is
/// streamed or read.
pub proof fn law_which_attempts_are_repeated(
    state: AppState,
    upstream: UpstreamRequest,
    route: Route,
    attempt: Attempt,
    next: Step,
)
    requires
        follows_attempt(state, upstream, route, attempt, next),
    ensures
        next is BackOff <==> match attempt {
            Attempt::Failed(_) => true,
            Attempt::Answered(answer) => answer.status == 429 || 500 <= answer.status
                && answer.status <= 599,
        },
        next is BackOff ==> next->BackOff_upstream == upstream && next->BackOff_route == route,
        !(next is BackOff) ==> next is ReadBody || next is Respond,
        next is ReadBody ==> attempt == Attempt::Answered(
            UpstreamAnswer { status: next->ReadBody_status, headers: next->ReadBody_headers },
        ) && next->ReadBody_route == route,
        next matches Step::BackOff { error, .. } ==> match attempt {
            Attempt::Failed(reason) => error.text() == "Upstream request failed: "@ + reason@,
            Attempt::Answered(_) => error is BadStatus,
        },
{
}

/// What each event brings about: a permit lets the request be sent as it is, a
/// wait lets it wait for a permit again, what was written is followed by the
/// answer that was ready, and every failure is told to the client.
pub proof fn law_what_events_bring_about(state: AppState, step: Step, event: Event, next: Step)
    requires
        follows(state, step, event, next),
    ensures
        event is PermitGranted ==> step is AwaitPermit && next == (Step::Send {
            upstream: step->AwaitPermit_upstream,
            route: step->AwaitPermit_route,
        }),
        event == (Event::BackedOff { again: true }) ==> step is BackOff && next
            == (Step::AwaitPermit {
            upstream: step->BackOff_upstream,
            route: step->BackOff_route,
        }),
        event == (Event::BackedOff { again: false }) ==> step is BackOff && next is Respond
            && next->Respond_response is Err && next->Respond_response->Err_0.0 == 502
            && next->Respond_response->Err_0.1@ == "Upstream error: "@ + (
        match step->BackOff_error {
            UpstreamError::RequestFailed(reason) => "Upstream request failed: "@ + reason@,
            UpstreamError::BadStatus(status) => "Upstream returned error status: "@ + status@,
        }),
        event matches Event::TimedOut(text) ==> next is Respond && next->Respond_response is Err
            && next->Respond_response->Err_0.0 == 504 && next->Respond_response->Err_0.1@
            == "Timeout: "@ + text@,
        event matches Event::BodyRead(Err(reason)) ==> next is Respond
            && next->Respond_response is Err && next->Respond_response->Err_0.0 == 502
            && next->Respond_response->Err_0.1@ == "Error reading upstream: "@ + reason@,
        event is CacheWritten ==> step is WriteCache && next == (Step::Respond {
            response: step->WriteCache_response,
        }),
        event matches Event::CacheReply(lookup) ==> (next is Respond <==> lookup is Found) && (
        !(lookup is Found) ==> next is AwaitPermit || next is Unforwardable),
{
}

/// A request goes upstream where the client's headers and the default headers
/// have at most 6553 names together.
pub proof fn law_requests_with_room_go_upstream(
    state: AppState,
    request: ProxyRequest,
    route: Route,
    next: Step,
)
    requires
        forwards(header_fields(state.default_headers), request, route, next),
        header_fields(state.default_headers).dom().finite(),
        header_fields(request.headers).dom().finite(),
        header_fields(state.default_headers).dom().len() + header_fields(
            request.headers,
        ).dom().len() <= 6553,
    ensures
        next is AwaitPermit,
        next->AwaitPermit_route == route,
        next->AwaitPermit_upstream.method@ == request.method@,
        next->AwaitPermit_upstream.url@ == route.upstream_url@,
        next->AwaitPermit_upstream.body@ == request.body@,
{
    lemma_room_upstream(header_fields(state.default_headers), header_fields(request.headers));
}

/// Merged headers have no more names than both parts together.
proof fn lemma_room_upstream(defaults: Fields, incoming: Fields)
    ensures
        defaults.dom().finite() && incoming.dom().finite() ==> upstream_fields(
            defaults,
            incoming,
        ).dom().len() <= defaults.dom().len() + incoming.dom().len(),
{
    if defaults.dom().finite() && incoming.dom().finite() {
        let all = upstream_fields(defaults, incoming).dom();
        assert(all.subset_of(defaults.dom().union(incoming.dom())));
        vstd::set_lib::lemma_len_subset(all, defaults.dom().union(incoming.dom()));
        vstd::set_lib::lemma_len_union(defaults.dom(), incoming.dom());
    }
}

/// A request that the cache does not answer goes upstream where the client's
/// headers and the default headers have at most 6553 names together.
pub proof fn law_unanswered_requests_go_upstream(
    state: AppState,
    step: Step,
    lookup: CacheLookup,
    next: Step,
)
    requires
        follows(state, step, Event::CacheReply(lookup), next),
        !(lookup is Found),
        header_fields(state.default_headers).dom().finite(),
        header_fields(step->LookUpCache_request.headers).dom().finite(),
        header_fields(state.default_headers).dom().len() + header_fields(
            step->LookUpCache_request.headers,
        ).dom().len() <= 6553,
    ensures
        next is AwaitPermit,
        next->AwaitPermit_route == step->LookUpCache_route,
        next->AwaitPermit_upstream.method@ == step->LookUpCache_request.method@,
        next->AwaitPermit_upstream.url@ == step->LookUpCache_route.upstream_url@,
        next->AwaitPermit_upstream.body@ == step->LookUpCache_request.body@,
{
    law_requests_with_room_go_upstream(
        state,
        step->LookUpCache_request,
        step->LookUpCache_route,
        next,
    );
}

/// Whatever entry the cache has answers the request: with its status, with its
/// body, and with the end-to-end headers that it denotes.
pub proof fn law_found_entries_answer(
    state: AppState,
    step: Step,
    cached: CachedResponse,
    next: Step,
    body: Seq<u8>,
    name: Seq<char>,
)
    requires
        follows(state, step, Event::CacheReply(CacheLookup::Found(cached)), next),
        table_fields(cached.headers.order()).dom().finite(),
    ensures
        next is Respond,
        100 <= cached.status <= 999 && table_fields(cached.headers.order()).dom().len() <= 6552
            ==> next->Respond_response is Ok,
        next->Respond_response matches Ok(response) ==> {
            &&& response.status == cached.status
            &&& base64_text(body) == cached.body@ ==> response.body@ == BodyView::Bytes(body)
            &&& (forall|other: Seq<u8>| #[trigger] base64_text(other) != cached.body@)
                ==> response.body@ == BodyView::Bytes(encode_utf8(cached.body@))
            &&& values_at(response.fields(), "x-cache"@) == values_at(
                table_fields(cached.headers.order()),
                "x-cache"@,
            ).push(encode_utf8("HIT"@))
            &&& name != "x-cache"@ ==> values_at(response.fields(), name) == if hop_by_hop(name) {
                Seq::empty()
            } else {
                values_at(table_fields(cached.headers.order()), name)
            }
        },
{
    law_answers_from_the_cache(next->Respond_response, cached, body, name);
}

/// Each step waits for what it does to come about, and the steps of an attempt
/// also for the end of the time for all attempts.
pub proof fn law_which_events_are_awaited(step: Step, event: Event)
    ensures
        step.awaits(event) <==> match event {
            Event::CacheReply(_) => step is LookUpCache,
            Event::PermitGranted => step is AwaitPermit,
            Event::Attempted(Attempt::Answered(answer)) => step is Send && 100 <= answer.status
                && answer.status <= 999,
            Event::Attempted(Attempt::Failed(_)) => step is Send,
            Event::BackedOff { .. } => step is BackOff,
            Event::TimedOut(_) => step is AwaitPermit || step is Send || step is BackOff,
            Event::BodyRead(_) => step is ReadBody,
            Event::CacheWritten => step is WriteCache,
        },
{
}

/// Exactly what was found under the key counts as found.
pub proof fn law_only_what_was_found_counts(lookup: CacheLookup)
    ensures
        found_response(lookup) is Some <==> lookup is Found,
        lookup matches CacheLookup::Found(response) ==> found_response(lookup) == Some(response),
{
}

// Texts

/// The number of an answer in an error message is written in three decimal
/// digits, followed by a space, the reason phrase, a colon, a space and the
/// phrase again.
pub proof fn law_statuses_are_described(status: u16, phrase: Seq<char>)
    requires
        100 <= status <= 999,
    ensures
        ({
            let text = status_text(status, Some(phrase));
            &&& text.len() == 6 + 2 * phrase.len()
            &&& 48 <= text[0] as int <= 57 && 48 <= text[1] as int <= 57 && 48 <= text[2] as int
                <= 57
            &&& (text[0] as int - 48) * 100 + (text[1] as int - 48) * 10 + (text[2] as int - 48)
                == status
            &&& text[3] == ' '
            &&& text.subrange(4, 4 + phrase.len() as int) == phrase
            &&& text[4 + phrase.len() as int] == ':'
            &&& text[5 + phrase.len() as int] == ' '
            &&& text.skip(6 + phrase.len() as int) == phrase
        }),
        ({
            let text = status_text(status, None);
            &&& (text[0] as int - 48) * 100 + (text[1] as int - 48) * 10 + (text[2] as int - 48)
                == status
            &&& text.skip(3) == " <unknown status code>: Unknown"@
        }),
{
    reveal_strlit(" ");
    reveal_strlit(": ");
    reveal_strlit(" <unknown status code>: Unknown");
    let text = status_text(status, Some(phrase));
    assert(text.subrange(4, 4 + phrase.len() as int) =~= phrase);
    assert(text.skip(6 + phrase.len() as int) =~= phrase);
    assert(status_text(status, None).skip(3) =~= " <unknown status code>: Unknown"@);
}

/// The number that a hexadecimal digit in lower case stands for.
pub open spec fn hex_value(c: char) -> int {
    if '0' <= c <= '9' {
        c as int - 48
    } else {
        c as int - 87
    }
}

/// A cache key is `cache:` and, in lower case hexadecimal digits, two for each
/// byte, the SHA-256 digest of method, colon and URL.
pub proof fn law_cache_keys_write_the_digest(method: Seq<char>, url: Seq<char>, i: int)
    ensures
        cache_key_input(method, url) == encode_utf8(method) + seq![58u8] + encode_utf8(url),
        cache_key(method, url).take(6) == "cache:"@,
        ({
            let digest = sha256_digest(encode_utf8(method) + seq![58u8] + encode_utf8(url));
            let key = cache_key(method, url);
            &&& key.len() == 6 + 2 * digest.len()
            &&& 0 <= i < digest.len() ==> {
                let high = key[6 + 2 * i];
                let low = key[7 + 2 * i];
                &&& '0' <= high <= '9' || 'a' <= high <= 'f'
                &&& '0' <= low <= '9' || 'a' <= low <= 'f'
                &&& hex_value(high) * 16 + hex_value(low) == digest[i]
            }
        }),
{
    reveal_strlit("cache:");
    let digest = sha256_digest(cache_key_input(method, url));
    let key = cache_key(method, url);
    assert(key.take(6) =~= "cache:"@);
    if 0 <= i < digest.len() {
        assert(key[6 + 2 * i] == lower_hex(digest)[2 * i]);
        assert(key[7 + 2 * i] == lower_hex(digest)[2 * i + 1]);
        assert((2 * i) / 2 == i && (2 * i + 1) / 2 == i);
    }
}

/// The number that a base64 digit stands for, 0 for padding.
pub open spec fn base64_value(c: char) -> int {
    if 'A' <= c <= 'Z' {
        c as int - 65
    } else if 'a' <= c <= 'z' {
        c as int - 71
    } else if '0' <= c <= '9' {
        c as int + 4
    } else if c == '+' {
        62
    } else if c == '/' {
        63
    } else {
        0
    }
}

/// Base64 text has four characters for every three bytes begun. They write the
/// number that the bytes form in base 64; bytes that are missing count as 0 and
/// leave padding.
pub proof fn law_base64_writes_the_bytes(data: Seq<u8>, g: int)
    requires
        0 <= g,
        3 * g < data.len(),
    ensures
        base64_text(data).len() % 4 == 0,
        3 * base64_text(data).len() >= 4 * data.len(),
        3 * base64_text(data).len() <= 4 * data.len() + 8,
        4 * g + 3 < base64_text(data).len(),
        ({
            let text = base64_text(data);
            let b = data[3 * g] as int * 65536 + (if 3 * g + 1 < data.len() {
                data[3 * g + 1] as int * 256
            } else {
                0
            }) + (if 3 * g + 2 < data.len() {
                data[3 * g + 2] as int
            } else {
                0
            });
            &&& base64_value(text[4 * g]) * 262144 + base64_value(text[4 * g + 1]) * 4096
                + base64_value(text[4 * g + 2]) * 64 + base64_value(text[4 * g + 3]) == b
            &&& text[4 * g + 2] == '=' <==> 3 * g + 1 >= data.len()
            &&& text[4 * g + 3] == '=' <==> 3 * g + 2 >= data.len()
        }),
{
    let text = base64_text(data);
    let group = base64_group(data, 3 * g);
    lemma_base64_text_at(data, g, 0);
    lemma_base64_text_at(data, g, 1);
    lemma_base64_text_at(data, g, 2);
    lemma_base64_text_at(data, g, 3);
    let a = byte_or_zero(data, 3 * g);
    let b = byte_or_zero(data, 3 * g + 1);
    let c = byte_or_zero(data, 3 * g + 2);
    assert(text[4 * g] == base64_digit(a / 4));
    assert(text[4 * g + 1] == base64_digit(a % 4 * 16 + b / 16));
    lemma_base64_value(a / 4);
    lemma_base64_value(a % 4 * 16 + b / 16);
    lemma_base64_value(b % 16 * 4 + c / 64);
    lemma_base64_value(c % 64);
}

/// A base64 digit stands for its number and is no padding.
proof fn lemma_base64_value(n: int)
    requires
        0 <= n < 64,
    ensures
        base64_value(base64_digit(n)) == n,
        base64_digit(n) != '=',
{
}

/// One more digit multiplies a number by ten and adds the digit, as long as the
/// number fits into 64 bits. Anything else behind a number makes it none.
pub proof fn law_numbers_grow_by_digits(text: Seq<char>, v: u64, c: char)
    requires
        parsed_u64(text) == Some(v),
    ensures
        parsed_u64(text.push(c)) == if 48 <= c as int <= 57 && 10 * v + (c as int - 48)
            <= 18_446_744_073_709_551_615 {
            Some((10 * v + (c as int - 48)) as u64)
        } else {
            None
        },
{
    let digits = unsigned_digits(text);
    let more = text.push(c);
    assert(unsigned_digits(more) =~= digits.push(c));
    assert(digits.push(c).drop_last() =~= digits);
    if is_digit(c) {
        assert forall|i: int| 0 <= i < digits.push(c).len() implies is_digit(
            #[trigger] digits.push(c)[i],
        ) by {
            if i < digits.len() {
                assert(is_digit(digits[i]));
            }
        }
    } else {
        assert(!is_digit(digits.push(c)[digits.len() as int]));
    }
}

/// A text that is no number becomes none by more characters behind it, but for
/// the empty text and the plus sign.
pub proof fn law_what_is_no_number_stays_none(text: Seq<char>, c: char)
    requires
        parsed_u64(text) is None,
        text.len() > 0,
        text != seq!['+'],
    ensures
        parsed_u64(text.push(c)) is None,
{
    let digits = unsigned_digits(text);
    let more = text.push(c);
    if text[0] == '+' {
        assert(text.len() > 1) by {
            if text.len() == 1 {
                assert(text =~= seq!['+']);
            }
        }
    }
    assert(unsigned_digits(more) =~= digits.push(c));
    assert(digits.push(c).drop_last() =~= digits);
    if parsed_u64(more) is Some {
        assert forall|i: int| 0 <= i < digits.len() implies is_digit(#[trigger] digits[i]) by {
            assert(is_digit(digits.push(c)[i]));
        }
        assert(is_digit(digits.push(c)[digits.len() as int]));
        assert(all_digits(digits));
        assert(decimal_value(digits) <= decimal_value(digits.push(c)));
    }
}

/// One character is a number where it is a digit. A plus sign may stand before a
/// number, and only one.
pub proof fn law_where_numbers_begin(c: char, text: Seq<char>)
    ensures
        parsed_u64(seq![c]) == if 48 <= c as int <= 57 {
            Some((c as int - 48) as u64)
        } else {
            None
        },
        parsed_u64(Seq::empty()) is None,
        text.len() == 0 || text[0] != '+' ==> parsed_u64(seq!['+'] + text) == parsed_u64(text),
        text.len() > 0 && text[0] == '+' ==> parsed_u64(seq!['+'] + text) is None,
{
    let one = seq![c];
    assert(one.drop_last() =~= Seq::empty());
    assert(decimal_value(one.drop_last()) == 0);
    if c == '+' {
        assert(unsigned_digits(one) =~= Seq::empty());
    } else if is_digit(c) {
        assert(all_digits(one));
    } else {
        assert(!is_digit(one[0]));
    }
    let signed = seq!['+'] + text;
    assert(unsigned_digits(signed) =~= text);
    if text.len() > 0 && text[0] == '+' {
        assert(!is_digit(text[0]));
    }
}

/// The texts of values are those of the first ones and then those of the rest. A
/// value has a text exactly where all its bytes are visible ASCII, spaces or tabs,
/// and the text is its bytes.
pub proof fn law_texts_of_values(values: Seq<Seq<u8>>, value: Seq<u8>)
    ensures
        text_values(Seq::empty()) == Seq::<Seq<char>>::empty(),
        (forall|i: int|
            0 <= i < value.len() ==> 32 <= #[trigger] value[i] <= 126 || value[i] == 9) ==> {
            &&& text_values(values.push(value)).len() == text_values(values).len() + 1
            &&& text_values(values.push(value)).drop_last() == text_values(values)
            &&& text_values(values.push(value)).last().len() == value.len()
            &&& forall|i: int|
                0 <= i < value.len() ==> #[trigger] text_values(values.push(value)).last()[i] as int
                    == value[i]
        },
        !(forall|i: int|
            0 <= i < value.len() ==> 32 <= #[trigger] value[i] <= 126 || value[i] == 9)
            ==> text_values(values.push(value)) == text_values(values),
{
    assert(values.push(value).drop_last() =~= values);
    assert(values.push(value).last() == value);
    if forall|i: int| 0 <= i < value.len() ==> 32 <= #[trigger] value[i] <= 126 || value[i] == 9 {
        assert forall|i: int| 0 <= i < value.len() implies is_visible_ascii(
            #[trigger] value[i],
        ) by {
            assert(32 <= value[i] <= 126 || value[i] == 9);
        }
        let text = value.map_values(|b: u8| b as char);
        assert(header_value_text(value) == Some(text));
        assert(text_values(values.push(value)) == text_values(values).push(text));
        assert(text_values(values).push(text).drop_last() =~= text_values(values));
        assert forall|i: int| 0 <= i < value.len() implies #[trigger] text_values(
            values.push(value),
        ).last()[i] as int == value[i] by {
            assert(is_visible_ascii(value[i]));
            assert(text[i] == value[i] as char);
        }
    } else {
        let i = choose|i: int|
            0 <= i < value.len() && !(32 <= #[trigger] value[i] <= 126 || value[i] == 9);
        assert(!is_visible_ascii(value[i]));
    }
}

/// A table of texts has a name where a value of the name has a text, with these
/// texts.
pub proof fn law_tables_hold_the_texts(fields: Fields, name: Seq<char>)
    ensures
        text_fields(fields).contains_key(name) <==> text_values(values_at(fields, name)).len() > 0,
        text_fields(fields).contains_key(name) ==> text_fields(fields)[name] == text_values(
            values_at(fields, name),
        ),
{
}

/// The header values of texts are those of the first ones and then those of the
/// rest. A text is a header value exactly where none of its bytes is a control
/// character other than the tab.
pub proof fn law_values_of_texts(texts: Seq<Seq<char>>, text: Seq<char>)
    ensures
        header_values(Seq::empty()) == Seq::<Seq<u8>>::empty(),
        header_values(texts.push(text)) == if forall|i: int|
            0 <= i < encode_utf8(text).len() ==> (#[trigger] encode_utf8(text)[i] >= 32
                && encode_utf8(text)[i] != 127) || encode_utf8(text)[i] == 9 {
            header_values(texts).push(encode_utf8(text))
        } else {
            header_values(texts)
        },
{
    assert(texts.push(text).drop_last() =~= texts);
    assert(texts.push(text).last() == text);
    let bytes = encode_utf8(text);
    if forall|i: int|
        0 <= i < bytes.len() ==> (#[trigger] bytes[i] >= 32 && bytes[i] != 127) || bytes[i] == 9 {
        assert forall|i: int| 0 <= i < bytes.len() implies is_header_value_byte(
            #[trigger] bytes[i],
        ) by {
            assert((bytes[i] >= 32 && bytes[i] != 127) || bytes[i] == 9);
        }
        assert(parsed_header_value(text) == Some(bytes));
    } else {
        let i = choose|i: int|
            0 <= i < bytes.len() && !((#[trigger] bytes[i] >= 32 && bytes[i] != 127) || bytes[i]
                == 9);
        assert(!is_header_value_byte(bytes[i]));
    }
}

/// A text is a header name exactly where it has 1 to 65535 characters, each of
/// which is an ASCII letter or digit or one of fifteen signs.
pub proof fn law_which_texts_are_header_names(text: Seq<char>)
    ensures
        parsed_header_name(text) is Some <==> 1 <= text.len() <= 65535 && forall|i: int|
            0 <= i < text.len() ==> {
                let c = #[trigger] text[i];
                ||| 'a' <= c <= 'z' || 'A' <= c <= 'Z' || '0' <= c <= '9'
                ||| c == '!' || c == '#' || c == '$' || c == '%' || c == '&' || c == '\''
                ||| c == '*' || c == '+' || c == '-' || c == '.' || c == '^' || c == '_'
                ||| c == '`' || c == '|' || c == '~'
            },
        parsed_header_name(text) matches Some(name) ==> name == ascii_lower(text),
{
    if forall|i: int|
        0 <= i < text.len() ==> {
            let c = #[trigger] text[i];
            ||| 'a' <= c <= 'z' || 'A' <= c <= 'Z' || '0' <= c <= '9'
            ||| c == '!' || c == '#' || c == '$' || c == '%' || c == '&' || c == '\''
            ||| c == '*' || c == '+' || c == '-' || c == '.' || c == '^' || c == '_'
            ||| c == '`' || c == '|' || c == '~'
        } {
        assert forall|i: int| 0 <= i < text.len() implies is_token_char(#[trigger] text[i]) by {}
    }
    if parsed_header_name(text) is Some {
        assert forall|i: int| 0 <= i < text.len() implies {
            let c = #[trigger] text[i];
            ||| 'a' <= c <= 'z' || 'A' <= c <= 'Z' || '0' <= c <= '9'
            ||| c == '!' || c == '#' || c == '$' || c == '%' || c == '&' || c == '\''
            ||| c == '*' || c == '+' || c == '-' || c == '.' || c == '^' || c == '_'
            ||| c == '`' || c == '|' || c == '~'
        } by {
            assert(is_token_char(text[i]));
        }
    }
}

/// A table with one more entry denotes the values of that entry behind those
/// from before, under the entry's name in lower case, and nothing else changes.
pub proof fn law_entries_add_their_values(
    entries: Seq<(Seq<char>, Seq<Seq<char>>)>,
    entry: (Seq<char>, Seq<Seq<char>>),
    name: Seq<char>,
)
    ensures
        table_fields(Seq::empty()) == no_fields(),
        values_at(table_fields(entries.push(entry)), name) == if parsed_header_name(entry.0)
            == Some(name) {
            values_at(table_fields(entries), name) + header_values(entry.1)
        } else {
            values_at(table_fields(entries), name)
        },
{
    assert(entries.push(entry).drop_last() =~= entries);
    assert(entries.push(entry).last() == entry);
    let before = values_at(table_fields(entries), name);
    let after = values_at(table_fields(entries.push(entry)), name);
    if parsed_header_name(entry.0) == Some(name) {
        assert(after =~= before + header_values(entry.1));
    } else {
        assert(values_at(entry_fields(entry.0, entry.1), name) =~= Seq::empty());
        assert(after =~= before);
    }
}

// The start

/// Each key of a list of pairs has the value of its last pair.
pub proof fn law_the_last_pair_of_a_key_counts(pairs: Seq<(String, String)>, i: int)
    requires
        0 <= i < pairs.len(),
        forall|j: int| i < j < pairs.len() ==> (#[trigger] pairs[j]).0@ != pairs[i].0@,
    ensures
        pairs_map(pairs).contains_key(pairs[i].0@),
        pairs_map(pairs)[pairs[i].0@] == pairs[i].1@,
        single_values(pairs_map(pairs)).contains_key(pairs[i].0@),
        single_values(pairs_map(pairs))[pairs[i].0@] == seq![pairs[i].1@],
    decreases pairs.len(),
{
    let front = pairs.drop_last();
    if i < front.len() {
        assert(front[i] == pairs[i]);
        assert forall|j: int| i < j < front.len() implies (#[trigger] front[j]).0@
            != front[i].0@ by {
            assert(front[j] == pairs[j]);
        }
        law_the_last_pair_of_a_key_counts(front, i);
        assert(pairs[pairs.len() - 1].0@ != pairs[i].0@);
    }
}

/// A list of pairs has no other keys than those of its pairs.
pub proof fn law_no_key_is_made_up(pairs: Seq<(String, String)>, key: Seq<char>)
    requires
        forall|i: int| 0 <= i < pairs.len() ==> (#[trigger] pairs[i]).0@ != key,
    ensures
        !pairs_map(pairs).contains_key(key),
        !single_values(pairs_map(pairs)).contains_key(key),
    decreases pairs.len(),
{
    if pairs.len() > 0 {
        let front = pairs.drop_last();
        assert forall|i: int| 0 <= i < front.len() implies (#[trigger] front[i]).0@ != key by {
            assert(front[i] == pairs[i]);
        }
        law_no_key_is_made_up(front, key);
        assert(pairs[pairs.len() - 1].0@ != key);
    }
}

/// Entries with distinct names make a table with as many names, and denote no
/// more header names.
proof fn lemma_names_of_entries(order: Seq<(Seq<char>, Seq<Seq<char>>)>)
    requires
        distinct_names(order),
    ensures
        table_of(order).dom().finite(),
        table_of(order).dom().len() == order.len(),
        table_fields(order).dom().finite(),
        table_fields(order).dom().len() <= order.len(),
    decreases order.len(),
{
    if order.len() > 0 {
        let front = order.drop_last();
        let entry = order.last();
        assert forall|i: int, j: int| 0 <= i < j < front.len() implies (#[trigger] front[i]).0 != (
        #[trigger] front[j]).0 by {
            assert(front[i] == order[i] && front[j] == order[j]);
        }
        lemma_names_of_entries(front);
        lemma_table_of_entries(front);
        assert(!table_of(front).contains_key(entry.0)) by {
            if table_of(front).contains_key(entry.0) {
                let i = choose|i: int| 0 <= i < front.len() && (#[trigger] front[i]).0 == entry.0;
                assert(order[i].0 != order[order.len() - 1].0);
            }
        }
        assert(table_of(order).dom() =~= table_of(front).dom().insert(entry.0));
        let more = entry_fields(entry.0, entry.1).dom();
        let one = match parsed_header_name(entry.0) {
            Some(name) => table_fields(front).dom().insert(name),
            None => table_fields(front).dom(),
        };
        assert(table_fields(order).dom() =~= table_fields(front).dom().union(more));
        assert(table_fields(order).dom().subset_of(one));
        vstd::set_lib::lemma_len_subset(table_fields(order).dom(), one);
        vstd::set_lib::lemma_set_subset_finite(one, table_fields(order).dom());
    }
}

/// Up to 6553 default headers are not too many.
pub proof fn law_few_default_headers_fit(headers: Map<Seq<char>, Seq<char>>)
    requires
        headers.dom().finite(),
        headers.dom().len() <= 6553,
    ensures
        !too_many_headers(headers),
{
    assert forall|order: Seq<(Seq<char>, Seq<Seq<char>>)>|
        distinct_names(order) && table_of(order) == single_values(headers) implies #[trigger]
        table_fields(order).dom().len() <= 6553 by {
        lemma_names_of_entries(order);
        assert(single_values(headers).dom() =~= headers.dom());
    }
}

/// The rate limit is the configured one, both of whose numbers must be positive;
/// the rate is looked at first.
pub proof fn law_rate_limits_are_as_configured(args: Args, quota: Result<RateQuota, String>)
    requires
        is_rate_quota(args, quota),
    ensures
        quota is Ok <==> args.rate_limit_per_sec >= 1 && args.rate_limit_burst >= 1,
        quota matches Ok(made) ==> made.per_second == args.rate_limit_per_sec && made.burst
            == args.rate_limit_burst,
        quota matches Err(message) ==> (args.rate_limit_per_sec == 0 ==> message@
            == "rate_limit_per_sec must be positive"@) && (args.rate_limit_per_sec != 0
            ==> message@ == "rate_limit_burst must be positive"@),
{
}

/// Upstream requests are made as configured, and redirects are left to the
/// client. The configured proxy is used, with credentials exactly where both a
/// user name and a password are configured.
pub proof fn law_clients_are_as_configured(args: Args, settings: ClientSettings)
    requires
        is_client_settings(args, settings),
    ensures
        settings.timeout_secs == args.upstream_timeout_secs,
        settings.follow_redirects == false,
        settings.proxy is Some <==> args.proxy_url is Some,
        settings.proxy matches Some(proxy) ==> {
            &&& proxy.url@ == args.proxy_url->0@
            &&& proxy.credentials is Some <==> args.proxy_username is Some && args.proxy_password
                is Some
            &&& proxy.credentials matches Some(credentials) ==> credentials.username@
                == args.proxy_username->0@ && credentials.password@ == args.proxy_password->0@
        },
{
}

/// Attempts are repeated as configured, with waits that double.
pub proof fn law_retries_are_as_configured(args: Args, settings: RetrySettings)
    requires
        are_retry_settings(args, settings),
    ensures
        settings.initial_backoff_ms == args.initial_backoff_ms,
        settings.multiplier == 2,
        settings.max_elapsed_time_secs == args.max_elapsed_time_secs,
        settings.hard_timeout_secs == args.hard_timeout_secs,
{
}

/// The numbers from 100 to 999 are status codes.
pub proof fn law_which_numbers_are_status_codes(code: u16)
    ensures
        is_status_code(code) <==> 100 <= code && code <= 999,
{
}

} // verus!
