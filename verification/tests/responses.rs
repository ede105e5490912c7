use aoxy::build_response::{
    build_buffered_response, build_cached_response, build_streaming_response,
};
use aoxy::cache::{
    cache_entry, cache_response, cached_form, restore_body, try_get_cached_response, CacheLookup,
};
use aoxy::models::{CachedResponse, HeaderTable, ResponseBody};
use aoxy::response::ResponseBuilder;
use aoxy::utils::{
    add_cached_headers_to_response, add_headers_to_response, filter_headers, headers_to_hashmap,
};
use axum::http::{HeaderMap, HeaderValue};

fn sample_headers() -> HeaderMap {
    let mut headers = HeaderMap::new();
    headers.append("content-type", HeaderValue::from_static("text/plain"));
    headers.append("set-cookie", HeaderValue::from_static("a=1"));
    headers.append("set-cookie", HeaderValue::from_static("b=2"));
    headers.append("connection", HeaderValue::from_static("close"));
    headers
}

fn all_values(map: &HeaderMap, name: &str) -> Vec<Vec<u8>> {
    map.get_all(name).iter().map(|value| value.as_bytes().to_vec()).collect()
}

fn bytes_of(body: ResponseBody) -> Option<Vec<u8>> {
    match body {
        ResponseBody::Bytes(bytes) => Some(bytes),
        ResponseBody::Upstream => None,
    }
}

#[test]
fn buffered_responses_are_misses() {
    let response = build_buffered_response(404, &sample_headers(), b"gone".to_vec()).unwrap();
    assert_eq!(response.status, 404);
    assert_eq!(all_values(&response.headers, "x-cache"), vec![b"MISS".to_vec()]);
    assert_eq!(all_values(&response.headers, "set-cookie"), vec![b"a=1".to_vec(), b"b=2".to_vec()]);
    assert!(!response.headers.contains_key("connection"));
    assert_eq!(response.headers.len(), 4);
    assert_eq!(bytes_of(response.body), Some(b"gone".to_vec()));
}

#[test]
fn streamed_responses_keep_the_upstream_body() {
    let response = build_streaming_response(206, &sample_headers()).unwrap();
    assert_eq!(response.status, 206);
    assert_eq!(all_values(&response.headers, "x-cache"), vec![b"STREAM".to_vec()]);
    assert_eq!(all_values(&response.headers, "content-type"), vec![b"text/plain".to_vec()]);
    assert_eq!(bytes_of(response.body), None);
}

#[test]
fn the_mark_comes_last() {
    let mut headers = HeaderMap::new();
    headers.append("x-cache", HeaderValue::from_static("Hit from elsewhere"));
    let response = build_buffered_response(200, &headers, Vec::new()).unwrap();
    assert_eq!(
        all_values(&response.headers, "x-cache"),
        vec![b"Hit from elsewhere".to_vec(), b"MISS".to_vec()]
    );
}

#[test]
fn a_number_that_is_no_status_cannot_be_sent() {
    let cached = CachedResponse { status: 99, headers: HeaderTable::new(), body: "".to_string() };
    let error = build_cached_response(cached).err().unwrap();
    assert_eq!(error, (500, "Response build error: invalid status code".to_string()));
    assert!(build_buffered_response(1000, &HeaderMap::new(), Vec::new()).is_err());
    assert!(build_streaming_response(0, &HeaderMap::new()).is_err());
    assert!(build_streaming_response(999, &HeaderMap::new()).is_ok());
}

#[test]
fn cached_responses_are_hits() {
    let mut headers = HeaderTable::new();
    headers.append("content-type".to_string(), "text/plain".to_string());
    headers.append("host".to_string(), "example.com".to_string());
    headers.append("not a name".to_string(), "x".to_string());
    let cached = CachedResponse { status: 301, headers, body: "aGVsbG8=".to_string() };
    let response = build_cached_response(cached).unwrap();
    assert_eq!(response.status, 301);
    assert_eq!(all_values(&response.headers, "x-cache"), vec![b"HIT".to_vec()]);
    assert_eq!(all_values(&response.headers, "content-type"), vec![b"text/plain".to_vec()]);
    assert_eq!(response.headers.len(), 2);
    assert_eq!(bytes_of(response.body), Some(b"hello".to_vec()));
}

#[test]
fn cache_entries_hold_base64_bodies() {
    let pairs: [(&[u8], &str); 8] = [
        (b"", ""),
        (b"f", "Zg=="),
        (b"fo", "Zm8="),
        (b"foo", "Zm9v"),
        (b"foob", "Zm9vYg=="),
        (b"fooba", "Zm9vYmE="),
        (b"foobar", "Zm9vYmFy"),
        (&[251, 255, 191], "+/+/"),
    ];
    for (body, text) in pairs {
        let entry = cached_form(200, &sample_headers(), &body.to_vec());
        assert_eq!(entry.body, text);
        assert_eq!(entry.status, 200);
    }
}

#[test]
fn cache_entries_hold_end_to_end_headers() {
    let entry = cache_entry(203, &sample_headers(), "text".to_string());
    assert_eq!(entry.status, 203);
    assert_eq!(entry.body, "text");
    assert_eq!(
        entry.headers.get("set-cookie"),
        Some(&vec!["a=1".to_string(), "b=2".to_string()])
    );
    assert_eq!(entry.headers.get("connection"), None);
    assert_eq!(entry.headers.entries().len(), 2);
}

#[test]
fn a_cached_response_is_replayed() {
    let headers = sample_headers();
    let entry = cached_form(200, &headers, &b"hello".to_vec());
    let replayed = build_cached_response(entry).unwrap();
    let first = build_buffered_response(200, &headers, b"hello".to_vec()).unwrap();
    assert_eq!(replayed.status, first.status);
    for name in ["content-type", "set-cookie"] {
        assert_eq!(all_values(&replayed.headers, name), all_values(&first.headers, name));
    }
    assert_eq!(replayed.headers.len(), first.headers.len());
    assert_eq!(bytes_of(replayed.body), bytes_of(first.body));
}

#[test]
fn only_an_entry_counts_as_found() {
    for lookup in [
        CacheLookup::Disabled,
        CacheLookup::ConnectionFailed,
        CacheLookup::CommandFailed,
        CacheLookup::Missing,
        CacheLookup::Malformed,
    ] {
        assert!(try_get_cached_response(lookup).is_none());
    }
    let entry = CachedResponse { status: 204, headers: HeaderTable::new(), body: "".to_string() };
    assert_eq!(try_get_cached_response(CacheLookup::Found(entry)).unwrap().status, 204);
}

#[test]
fn cache_writes_name_key_and_lifetime() {
    let entry = CachedResponse { status: 200, headers: HeaderTable::new(), body: "eA==".to_string() };
    let write = cache_response("cache:ab", entry, 600);
    assert_eq!(write.key, "cache:ab");
    assert_eq!(write.ttl_secs, 600);
    assert_eq!(write.entry.body, "eA==");
    assert_eq!(write.entry.status, 200);
}

#[test]
fn cached_bodies_are_decoded() {
    let all: Vec<u8> = (0..=255).collect();
    for body in [Vec::new(), vec![0], vec![255, 254], b"foo".to_vec(), all] {
        let entry = cached_form(200, &HeaderMap::new(), &body);
        let response = build_cached_response(entry).unwrap();
        assert_eq!(bytes_of(response.body), Some(body));
    }
}

#[test]
fn other_cached_texts_are_sent_as_they_are() {
    for text in ["!", "Zg", "Zg=", "Zh==", "Z", "Zg==\n", "=", "Zm9v=", "-_-_", "\u{e9}", "Zg==Zg=="] {
        let cached =
            CachedResponse { status: 203, headers: HeaderTable::new(), body: text.to_string() };
        let response = build_cached_response(cached).unwrap();
        assert_eq!(response.status, 203);
        assert_eq!(bytes_of(response.body), Some(text.as_bytes().to_vec()));
        assert_eq!(restore_body(text), text.as_bytes().to_vec());
    }
    assert_eq!(restore_body("Zg=="), b"f".to_vec());
}

#[test]
fn stored_headers_build_the_same_response() {
    let headers = sample_headers();
    let table = headers_to_hashmap(&filter_headers(&headers));
    let direct = add_headers_to_response(ResponseBuilder::new().status(201), &headers);
    let stored = add_cached_headers_to_response(ResponseBuilder::new().status(201), &table);
    let direct = direct.body(ResponseBody::Upstream).unwrap();
    let stored = stored.body(ResponseBody::Upstream).unwrap();
    assert_eq!(stored.status, direct.status);
    assert_eq!(stored.headers, direct.headers);
}
