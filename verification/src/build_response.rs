//! The responses to the client: from the cache, streamed, or buffered.

use axum::http::HeaderMap;
use vstd::prelude::*;
use vstd::utf8::encode_utf8;

use crate::cache::{restore_body, stored_body};
use crate::headers::{
    append_field, append_fields, header_fields, is_header_value, lemma_append_fields_step,
    lemma_append_no_fields, lemma_name_count_grows, name_count, no_fields, parse_header_name,
    parse_header_value, parsed_header_name, Fields, MAX_HEADER_NAMES,
};
use crate::models::{BodyView, CachedResponse, HandlerResult, ResponseBody};
use crate::response::{extended, is_status_code, ResponseBuilder};
use crate::text::ascii_lower;
use crate::utils::{
    add_headers_to_response, end_to_end, hashmap_to_headers, lemma_extended_twice, table_fields,
};

verus! {

/// The fields with one more `X-Cache` value, which says how the response came
/// about.
pub open spec fn with_cache_mark(fields: Fields, mark: Seq<char>) -> Fields {
    append_field(fields, "x-cache"@, encode_utf8(mark))
}

/// A result is this response. A code that is no status code makes it an internal
/// server error instead, and so may more header names than fit for certain.
pub open spec fn built(
    result: HandlerResult,
    status: u16,
    fields: Fields,
    body: BodyView,
    crowded: bool,
) -> bool {
    if !is_status_code(status) {
        is_build_error(result, "invalid status code"@)
    } else {
        ||| {
            &&& result is Ok
            &&& result->Ok_0.status == status
            &&& result->Ok_0.fields() == fields
            &&& result->Ok_0.body@ == body
        }
        ||| crowded && is_build_error(result, "max size reached"@)
    }
}

/// A result is the internal server error for a response that cannot be built.
pub open spec fn is_build_error(result: HandlerResult, reason: Seq<char>) -> bool {
    &&& result is Err
    &&& result->Err_0.0 == 500
    &&& result->Err_0.1@ == "Response build error: "@ + reason
}

/// Whether there are more names than fit for certain.
pub open spec fn is_crowded(fields: Fields) -> bool {
    name_count(fields) > MAX_HEADER_NAMES
}

/// Adds the `X-Cache` header.
fn add_cache_mark(builder: ResponseBuilder, mark: &str) -> (added: ResponseBuilder)
    requires
        is_header_value(encode_utf8(mark@)),
    ensures
        extended(builder@, no_fields().insert("x-cache"@, seq![encode_utf8(mark@)]), added@),
        builder@ is Ok ==> builder@->Ok_0.fields.dom().finite(),
{
    proof {
        reveal_strlit("X-Cache");
        reveal_strlit("x-cache");
        assert(ascii_lower("X-Cache"@) =~= "x-cache"@);
        assert(parsed_header_name("X-Cache"@) == Some("x-cache"@));
    }
    match (parse_header_name("X-Cache"), parse_header_value(mark)) {
        (Some(name), Some(value)) => builder.header(&name, &value),
        _ => {
            assert(false);
            builder
        },
    }
}

/// Builds a response from upstream headers, marked as how it came about.
fn build_marked_response(
    status: u16,
    headers: &HeaderMap,
    mark: &str,
    body: ResponseBody,
) -> (result: HandlerResult)
    requires
        is_header_value(encode_utf8(mark@)),
    ensures
        built(
            result,
            status,
            with_cache_mark(end_to_end(header_fields(*headers)), mark@),
            body@,
            is_crowded(with_cache_mark(end_to_end(header_fields(*headers)), mark@)),
        ),
{
    let ghost kept = end_to_end(header_fields(*headers));
    let ghost one = no_fields().insert("x-cache"@, seq![encode_utf8(mark@)]);
    let first = ResponseBuilder::new().status(status);
    let ghost before = first@;
    let second = add_headers_to_response(first, headers);
    let ghost between = second@;
    let third = add_cache_mark(second, mark);
    proof {
        lemma_extended_twice(before, kept, between, one, third@);
        lemma_append_fields_step(kept, no_fields(), "x-cache"@, encode_utf8(mark@));
        lemma_append_no_fields(kept);
        assert(append_field(no_fields(), "x-cache"@, encode_utf8(mark@)) =~= one);
        lemma_append_no_fields(append_fields(kept, one));
    }
    third.body(body)
}

/// The text `MISS` and its like are header values.
proof fn lemma_marks_are_values()
    ensures
        is_header_value(encode_utf8("HIT"@)),
        is_header_value(encode_utf8("MISS"@)),
        is_header_value(encode_utf8("STREAM"@)),
{
    reveal_strlit("HIT");
    reveal_strlit("MISS");
    reveal_strlit("STREAM");
    vstd::utf8::is_ascii_chars_encode_utf8("HIT"@);
    vstd::utf8::is_ascii_chars_encode_utf8("MISS"@);
    vstd::utf8::is_ascii_chars_encode_utf8("STREAM"@);
}

/// The response to a client whose upstream response is passed on as it arrives.
pub fn build_streaming_response(status: u16, headers: &HeaderMap) -> (result: HandlerResult)
    ensures
        built(
            result,
            status,
            with_cache_mark(end_to_end(header_fields(*headers)), "STREAM"@),
            BodyView::Upstream,
            is_crowded(with_cache_mark(end_to_end(header_fields(*headers)), "STREAM"@)),
        ),
{
    proof {
        lemma_marks_are_values();
    }
    build_marked_response(status, headers, "STREAM", ResponseBody::Upstream)
}

/// The response to a client whose upstream response was read to its end.
pub fn build_buffered_response(status: u16, headers: &HeaderMap, body: Vec<u8>) -> (result:
    HandlerResult)
    ensures
        built(
            result,
            status,
            with_cache_mark(end_to_end(header_fields(*headers)), "MISS"@),
            BodyView::Bytes(body@),
            is_crowded(with_cache_mark(end_to_end(header_fields(*headers)), "MISS"@)),
        ),
{
    proof {
        lemma_marks_are_values();
    }
    build_marked_response(status, headers, "MISS", ResponseBody::Bytes(body))
}

/// A result answers a request from a cache entry: with the status and the headers
/// of the entry, marked `HIT`, and the body that its text stands for.
pub open spec fn is_hit(result: HandlerResult, cached: CachedResponse) -> bool {
    built(
        result,
        cached.status,
        with_cache_mark(end_to_end(table_fields(cached.headers.order())), "HIT"@),
        BodyView::Bytes(stored_body(cached.body@)),
        is_crowded(with_cache_mark(table_fields(cached.headers.order()), "HIT"@)),
    )
}

/// The response to a client whose request the cache answers: the status, the
/// headers and the body of the entry.
pub fn build_cached_response(cached: CachedResponse) -> (result: HandlerResult)
    ensures
        is_hit(result, cached),
{
    let ghost all = table_fields(cached.headers.order());
    let ghost kept = end_to_end(all);
    let ghost value = encode_utf8("HIT"@);
    let ghost one = no_fields().insert("x-cache"@, seq![value]);
    let first = ResponseBuilder::new().status(cached.status);
    let ghost before = first@;
    let second = match hashmap_to_headers(&cached.headers) {
        Ok(headers) => add_headers_to_response(first, &headers),
        Err(reason) => first.fail(reason),
    };
    let ghost between = second@;
    proof {
        lemma_marks_are_values();
    }
    let third = add_cache_mark(second, "HIT");
    proof {
        vstd::set_lib::lemma_set_subset_finite(all.dom(), kept.dom());
        assert(append_field(no_fields(), "x-cache"@, value) =~= one);
        lemma_append_fields_step(kept, no_fields(), "x-cache"@, value);
        lemma_append_fields_step(all, no_fields(), "x-cache"@, value);
        lemma_append_no_fields(kept);
        lemma_append_no_fields(all);
        lemma_append_no_fields(append_fields(kept, one));
        lemma_name_count_grows(all, one);
        vstd::set_lib::lemma_len_subset(
            append_fields(kept, one).dom(),
            append_fields(all, one).dom(),
        );
        if extended(before, kept, between) {
            lemma_extended_twice(before, kept, between, one, third@);
        }
    }
    third.body(ResponseBody::Bytes(restore_body(cached.body.as_str())))
}

} // verus!
