//! Cache entries: how one is made, looked up and written.

use axum::http::HeaderMap;
use base64::Engine;
use vstd::prelude::*;
use vstd::utf8::encode_utf8;

use crate::headers::header_fields;
use crate::models::{CachedResponse, TextTable};
use crate::utils::{end_to_end, filter_headers, headers_to_hashmap, text_fields};

verus! {

/// The base64 digit of a number below sixty-four, in the standard alphabet.
pub open spec fn base64_digit(n: int) -> char {
    if n < 26 {
        ('A' as u32 + n) as char
    } else if n < 52 {
        ('a' as u32 + (n - 26)) as char
    } else if n < 62 {
        ('0' as u32 + (n - 52)) as char
    } else if n == 62 {
        '+'
    } else {
        '/'
    }
}

/// The byte at a position, 0 behind the end.
pub open spec fn byte_or_zero(data: Seq<u8>, i: int) -> int {
    if i < data.len() {
        data[i] as int
    } else {
        0
    }
}

/// The four base64 characters of the three bytes from a position on: the digits
/// of the number that the bytes form, and padding for what bytes that are missing
/// would have determined.
pub open spec fn base64_group(data: Seq<u8>, start: int) -> Seq<char> {
    let a = byte_or_zero(data, start);
    let b = byte_or_zero(data, start + 1);
    let c = byte_or_zero(data, start + 2);
    seq![
        base64_digit(a / 4),
        base64_digit(a % 4 * 16 + b / 16),
        if start + 1 < data.len() {
            base64_digit(b % 16 * 4 + c / 64)
        } else {
            '='
        },
        if start + 2 < data.len() {
            base64_digit(c % 64)
        } else {
            '='
        },
    ]
}

/// The base64 text of a byte sequence, in the standard alphabet with padding:
/// four characters for every three bytes begun.
pub open spec fn base64_text(data: Seq<u8>) -> Seq<char> {
    Seq::new(4 * ((data.len() + 2) / 3), |i: int| base64_group(data, i / 4 * 3)[i % 4])
}

/// `base64::Engine::encode` of the standard engine: the base64 text of the data.
/// A slice is never so long that the length of its text overflows.
#[verifier::external_body]
fn base64_encode(data: &[u8]) -> (text: String)
    ensures
        text@ == base64_text(data@),
{
    base64::engine::general_purpose::STANDARD.encode(data)
}

/// `base64::Engine::decode` of the standard engine: the data of which the text is
/// the base64 text, where there is such data. Padding must be complete, and no
/// bit behind the data may be set.
#[verifier::external_body]
fn base64_decode(text: &str) -> (data: Option<Vec<u8>>)
    ensures
        match data {
            Some(bytes) => base64_text(bytes@) == text@,
            None => forall|bytes: Seq<u8>| #[trigger] base64_text(bytes) != text@,
        },
{
    base64::engine::general_purpose::STANDARD.decode(text).ok()
}

/// A base64 digit determines its number and is no padding.
proof fn lemma_base64_digit_is_injective(m: int, n: int)
    requires
        0 <= m < 64,
        0 <= n < 64,
    ensures
        base64_digit(m) == base64_digit(n) ==> m == n,
        base64_digit(m) != '=',
{
}

/// Where the four characters of a group stand in the text.
pub proof fn lemma_base64_text_at(data: Seq<u8>, g: int, j: int)
    requires
        0 <= g < (data.len() + 2) / 3,
        0 <= j < 4,
    ensures
        base64_text(data)[4 * g + j] == base64_group(data, 3 * g)[j],
{
    assert((4 * g + j) / 4 == g);
    assert((4 * g + j) % 4 == j);
    assert(4 * g + j < 4 * ((data.len() + 2) / 3));
}

/// The same text has the same groups.
proof fn lemma_base64_groups_agree(a: Seq<u8>, b: Seq<u8>, g: int)
    requires
        base64_text(a) == base64_text(b),
        0 <= g < (a.len() + 2) / 3,
        0 <= g < (b.len() + 2) / 3,
    ensures
        base64_group(a, 3 * g) == base64_group(b, 3 * g),
{
    let left = base64_group(a, 3 * g);
    let right = base64_group(b, 3 * g);
    assert forall|j: int| 0 <= j < 4 implies left[j] == right[j] by {
        lemma_base64_text_at(a, g, j);
        lemma_base64_text_at(b, g, j);
    }
    assert(left =~= right);
}

/// The text that the cache holds of a body determines the body.
pub proof fn law_cached_text_determines_the_body(a: Seq<u8>, b: Seq<u8>)
    requires
        base64_text(a) == base64_text(b),
    ensures
        a == b,
{
    assert(base64_text(a).len() == 4 * ((a.len() + 2) / 3));
    assert(base64_text(b).len() == 4 * ((b.len() + 2) / 3));
    let groups = (a.len() + 2) / 3;
    if groups > 0 {
        lemma_base64_groups_agree(a, b, groups - 1);
        lemma_base64_group_determines_bytes(a, b, 3 * (groups - 1));
    }
    assert(a.len() == b.len());
    assert forall|i: int| 0 <= i < a.len() implies a[i] == b[i] by {
        let g = i / 3;
        lemma_base64_groups_agree(a, b, g);
        lemma_base64_group_determines_bytes(a, b, 3 * g);
    }
    assert(a =~= b);
}

/// Four base64 characters determine the bytes that they stand for, and how many
/// these are.
proof fn lemma_base64_group_determines_bytes(a: Seq<u8>, b: Seq<u8>, start: int)
    requires
        0 <= start < a.len(),
        start < b.len(),
        base64_group(a, start) == base64_group(b, start),
    ensures
        a[start] == b[start],
        start + 1 < a.len() <==> start + 1 < b.len(),
        start + 1 < a.len() ==> a[start + 1] == b[start + 1],
        start + 2 < a.len() <==> start + 2 < b.len(),
        start + 2 < a.len() ==> a[start + 2] == b[start + 2],
{
    let (a0, a1, a2) = (
        byte_or_zero(a, start),
        byte_or_zero(a, start + 1),
        byte_or_zero(a, start + 2),
    );
    let (b0, b1, b2) = (
        byte_or_zero(b, start),
        byte_or_zero(b, start + 1),
        byte_or_zero(b, start + 2),
    );
    let left = base64_group(a, start);
    let right = base64_group(b, start);
    assert(left[0] == right[0] && left[1] == right[1] && left[2] == right[2] && left[3]
        == right[3]);
    lemma_base64_digit_is_injective(a0 / 4, b0 / 4);
    lemma_base64_digit_is_injective(a0 % 4 * 16 + a1 / 16, b0 % 4 * 16 + b1 / 16);
    lemma_base64_digit_is_injective(a1 % 16 * 4 + a2 / 64, b1 % 16 * 4 + b2 / 64);
    lemma_base64_digit_is_injective(b1 % 16 * 4 + b2 / 64, a1 % 16 * 4 + a2 / 64);
    lemma_base64_digit_is_injective(a2 % 64, b2 % 64);
    lemma_base64_digit_is_injective(b2 % 64, a2 % 64);
}

/// The body that a cache entry's text stands for: the bytes of which it is the
/// base64 text. A text that is the base64 text of no bytes stands for itself.
pub open spec fn stored_body(text: Seq<char>) -> Seq<u8> {
    if exists|body: Seq<u8>| #[trigger] base64_text(body) == text {
        choose|body: Seq<u8>| #[trigger] base64_text(body) == text
    } else {
        encode_utf8(text)
    }
}

/// The base64 text of a body stands for that body.
pub proof fn law_stored_bodies_are_restored(body: Seq<u8>)
    ensures
        stored_body(base64_text(body)) == body,
{
    law_cached_text_determines_the_body(stored_body(base64_text(body)), body);
}

/// Restores the body that a cache entry's text stands for.
pub fn restore_body(text: &str) -> (body: Vec<u8>)
    ensures
        body@ == stored_body(text@),
{
    match base64_decode(text) {
        Some(body) => {
            proof {
                law_stored_bodies_are_restored(body@);
            }
            body
        },
        None => text.as_bytes_vec(),
    }
}

/// A response as it goes into the cache: its status, the texts of its headers
/// without the hop-by-hop headers, and a body text.
pub fn cache_entry(status: u16, headers: &HeaderMap, body: String) -> (entry: CachedResponse)
    ensures
        entry.status == status,
        entry.headers@ == text_fields(end_to_end(header_fields(*headers))),
        entry.body@ == body@,
{
    CachedResponse { status, headers: headers_to_hashmap(&filter_headers(headers)), body }
}

/// An entry is the cached form of a response: its status, the texts of its
/// headers without the hop-by-hop headers, and its body in base64.
pub open spec fn is_cached_form(
    entry: CachedResponse,
    status: u16,
    headers: TextTable,
    body: Seq<u8>,
) -> bool {
    &&& entry.status == status
    &&& entry.headers@ == headers
    &&& entry.body@ == base64_text(body)
}

/// Makes the cache entry of a response.
pub fn cached_form(status: u16, headers: &HeaderMap, body: &Vec<u8>) -> (entry: CachedResponse)
    ensures
        is_cached_form(entry, status, text_fields(end_to_end(header_fields(*headers))), body@),
{
    cache_entry(status, headers, base64_encode(body.as_slice()))
}

/// What a lookup in the cache came to.
pub enum CacheLookup {
    /// There is no cache.
    Disabled,
    /// The cache could not be reached.
    ConnectionFailed,
    /// The cache did not answer the query.
    CommandFailed,
    /// The cache has nothing under the key.
    Missing,
    /// What the cache has under the key is no cached response.
    Malformed,
    /// The cache has this response under the key.
    Found(CachedResponse),
}

/// The response that a lookup found. Everything else counts as not found.
pub open spec fn found_response(lookup: CacheLookup) -> Option<CachedResponse> {
    match lookup {
        CacheLookup::Found(response) => Some(response),
        _ => None,
    }
}

/// The response that a lookup found. Everything else counts as not found.
pub fn try_get_cached_response(lookup: CacheLookup) -> (cached: Option<CachedResponse>)
    ensures
        cached == found_response(lookup),
{
    match lookup {
        CacheLookup::Found(response) => Some(response),
        _ => None,
    }
}

/// An entry to be written to the cache under a key, for so many seconds.
pub struct CacheWrite {
    pub key: String,
    pub entry: CachedResponse,
    pub ttl_secs: u64,
}

/// A write puts a response into the cache under a key, for so many seconds.
pub open spec fn is_write_of(
    write: CacheWrite,
    cache_key: Seq<char>,
    response: CachedResponse,
    ttl_secs: nat,
) -> bool {
    &&& write.key@ == cache_key
    &&& write.entry == response
    &&& write.ttl_secs == ttl_secs
}

/// The write that puts a response into the cache.
pub fn cache_response(cache_key: &str, response: CachedResponse, ttl_secs: usize) -> (write:
    CacheWrite)
    ensures
        is_write_of(write, cache_key@, response, ttl_secs as nat),
{
    CacheWrite { key: cache_key.to_string(), entry: response, ttl_secs: ttl_secs as u64 }
}

/// What a store answers under the key of a write some seconds after it, if it
/// took the write and no other under that key: what was written, until its time
/// is over, and then nothing.
pub open spec fn is_store_answer(
    write: CacheWrite,
    elapsed_secs: nat,
    lookup: CacheLookup,
) -> bool {
    if elapsed_secs < write.ttl_secs {
        &&& lookup is Found
        &&& lookup->Found_0.status == write.entry.status
        &&& lookup->Found_0.headers@ == write.entry.headers@
        &&& lookup->Found_0.body@ == write.entry.body@
    } else {
        lookup is Missing
    }
}

/// From a store that keeps what it is given for the time that it is told, a
/// cached response is got back as it was until its time is over, and not after.
pub proof fn law_cached_responses_are_found_until_they_expire(
    cache_key: Seq<char>,
    response: CachedResponse,
    ttl_secs: nat,
    write: CacheWrite,
    elapsed_secs: nat,
    lookup: CacheLookup,
)
    requires
        is_write_of(write, cache_key, response, ttl_secs),
        is_store_answer(write, elapsed_secs, lookup),
    ensures
        found_response(lookup) is Some <==> elapsed_secs < ttl_secs,
        found_response(lookup) matches Some(found) ==> {
            &&& found.status == response.status
            &&& found.headers@ == response.headers@
            &&& found.body@ == response.body@
        },
{
}

} // verus!
