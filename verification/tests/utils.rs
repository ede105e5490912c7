use aoxy::models::{HeaderTable, ResponseBody};
use aoxy::response::ResponseBuilder;
use aoxy::utils::{
    add_cached_headers_to_response, add_headers_to_response, cache_key_bytes, cache_key_of_digest,
    default_headers_table, error_response, filter_headers, generate_cache_key, hashmap_to_headers,
    headers_to_hashmap, is_hop_by_hop_header, parse_default_headers,
};
use axum::http::{HeaderMap, HeaderName, HeaderValue};

fn strings(texts: &[&str]) -> Vec<String> {
    texts.iter().map(|text| text.to_string()).collect()
}

fn all_values(map: &HeaderMap, name: &str) -> Vec<Vec<u8>> {
    map.get_all(name).iter().map(|value| value.as_bytes().to_vec()).collect()
}

#[test]
fn hop_by_hop_names() {
    let hops = [
        "host",
        "connection",
        "keep-alive",
        "transfer-encoding",
        "upgrade",
        "proxy-authorization",
        "proxy-authenticate",
        "te",
        "trailer",
    ];
    for name in hops {
        assert!(is_hop_by_hop_header(name));
        assert!(is_hop_by_hop_header(&name.to_ascii_uppercase()));
    }
    assert!(is_hop_by_hop_header("Transfer-Encoding"));
    for name in ["accept", "", "hosts", "x-cache", "trailers", "content-length", "te "] {
        assert!(!is_hop_by_hop_header(name));
    }
}

#[test]
fn cache_key_is_a_sha256_digest() {
    assert_eq!(
        generate_cache_key("GET", "https://api.example.com/v1?a=b"),
        "cache:9f18ebb7b864d172c2719fbd50998b1a4fe990ec7e8a62a19becfe3c1069d39c"
    );
}

#[test]
fn cache_keys_differ_by_method_and_url() {
    let key = generate_cache_key("GET", "http://a/");
    assert_eq!(key, generate_cache_key("GET", "http://a/"));
    assert_ne!(key, generate_cache_key("HEAD", "http://a/"));
    assert_ne!(key, generate_cache_key("GET", "http://a/b"));
    assert_eq!(key.len(), 70);
}

#[test]
fn cache_key_input_is_method_colon_url() {
    assert_eq!(cache_key_bytes("GET", "http://a/"), b"GET:http://a/".to_vec());
    assert_eq!(cache_key_bytes("", ""), b":".to_vec());
}

#[test]
fn cache_key_writes_the_digest_in_hex() {
    assert_eq!(cache_key_of_digest(&[0, 15, 171, 255]), "cache:000fabff");
    assert_eq!(cache_key_of_digest(&[]), "cache:");
}

#[test]
fn filtering_keeps_every_end_to_end_value() {
    let mut headers = HeaderMap::new();
    headers.append("host", HeaderValue::from_static("example.com"));
    headers.append("set-cookie", HeaderValue::from_static("a=1"));
    headers.append("set-cookie", HeaderValue::from_static("b=2"));
    headers.append("te", HeaderValue::from_static("trailers"));
    headers.append("x-raw", HeaderValue::from_bytes(&[200, 201]).unwrap());
    let filtered = filter_headers(&headers);
    assert_eq!(filtered.len(), 3);
    assert_eq!(all_values(&filtered, "set-cookie"), vec![b"a=1".to_vec(), b"b=2".to_vec()]);
    assert_eq!(all_values(&filtered, "x-raw"), vec![vec![200, 201]]);
    assert!(!filtered.contains_key("host"));
    assert!(!filtered.contains_key("te"));
}

#[test]
fn filtering_twice_changes_nothing_more() {
    let mut headers = HeaderMap::new();
    headers.append("upgrade", HeaderValue::from_static("h2c"));
    headers.append("accept", HeaderValue::from_static("*/*"));
    let once = filter_headers(&headers);
    assert_eq!(filter_headers(&once), once);
    assert_eq!(filter_headers(&HeaderMap::new()), HeaderMap::new());
}

#[test]
fn tables_hold_the_texts_of_values() {
    let mut headers = HeaderMap::new();
    headers.append("Set-Cookie", HeaderValue::from_static("a=1"));
    headers.append("set-cookie", HeaderValue::from_static("b=\t2"));
    headers.append("x-raw", HeaderValue::from_bytes(&[200]).unwrap());
    headers.append("x-mixed", HeaderValue::from_bytes(&[201]).unwrap());
    headers.append("x-mixed", HeaderValue::from_static("seen"));
    let table = headers_to_hashmap(&headers);
    assert_eq!(table.get("set-cookie"), Some(&strings(&["a=1", "b=\t2"])));
    assert_eq!(table.get("x-raw"), None);
    assert_eq!(table.get("x-mixed"), Some(&strings(&["seen"])));
    assert_eq!(table.get("Set-Cookie"), None);
    assert_eq!(table.entries().len(), 2);
}

#[test]
fn tables_become_header_maps() {
    let mut table = HeaderTable::new();
    table.insert("X-One".to_string(), strings(&["a", "b\n", "c"]));
    table.insert("no name".to_string(), strings(&["a"]));
    table.insert("".to_string(), strings(&["a"]));
    table.insert("x-none".to_string(), strings(&["\u{7f}"]));
    table.insert("x-wide".to_string(), strings(&["\u{e9}"]));
    let map = hashmap_to_headers(&table).unwrap();
    assert_eq!(all_values(&map, "x-one"), vec![b"a".to_vec(), b"c".to_vec()]);
    assert_eq!(all_values(&map, "x-wide"), vec![vec![0xc3, 0xa9]]);
    assert_eq!(map.len(), 3);
}

#[test]
fn many_names_fit_into_one_response() {
    let mut headers = HeaderMap::new();
    for i in 0..6553 {
        let name = format!("x-{}", i);
        headers.append(HeaderName::try_from(name).unwrap(), HeaderValue::from_static("v"));
    }
    let mut builder = ResponseBuilder::new();
    builder = add_headers_to_response(builder, &headers);
    let response = builder.header(&HeaderName::from_static("x-last"), &HeaderValue::from_static("v")).body(ResponseBody::Bytes(Vec::new())).unwrap();
    assert_eq!(response.headers.keys_len(), 6554);
}

#[test]
fn a_full_builder_cannot_be_finished() {
    let mut builder = ResponseBuilder::new();
    for i in 0..40000 {
        let name = HeaderName::try_from(format!("x-{}", i)).unwrap();
        builder = builder.header(&name, &HeaderValue::from_static("v"));
    }
    let error = builder.body(ResponseBody::Upstream).err().unwrap();
    assert_eq!(error, (500, "Response build error: max size reached".to_string()));
}

#[test]
fn response_headers_leave_out_hop_by_hop() {
    let mut headers = HeaderMap::new();
    headers.append("connection", HeaderValue::from_static("close"));
    headers.append("location", HeaderValue::from_static("/there"));
    let name = HeaderName::from_static("location");
    let builder = ResponseBuilder::new().header(&name, &HeaderValue::from_static("/here"));
    let builder = add_headers_to_response(builder, &headers);
    let response = builder.body(ResponseBody::Upstream).unwrap();
    assert_eq!(response.status, 200);
    assert_eq!(
        all_values(&response.headers, "location"),
        vec![b"/here".to_vec(), b"/there".to_vec()]
    );
    assert_eq!(response.headers.len(), 2);
}

#[test]
fn cached_headers_skip_what_is_no_header() {
    let mut table = HeaderTable::new();
    table.insert("Content-Type".to_string(), strings(&["text/plain"]));
    table.insert("Host".to_string(), strings(&["kept"]));
    table.insert("bad name".to_string(), strings(&["x"]));
    table.insert("x-bad".to_string(), strings(&["a\r\n"]));
    let builder = add_cached_headers_to_response(ResponseBuilder::new(), &table);
    let response = builder.body(ResponseBody::Bytes(vec![1])).unwrap();
    assert_eq!(all_values(&response.headers, "content-type"), vec![b"text/plain".to_vec()]);
    assert_eq!(all_values(&response.headers, "host"), vec![b"kept".to_vec()]);
    assert_eq!(response.headers.len(), 2);
}

#[test]
fn default_headers_come_from_json() {
    let json = "{\"Authorization\":\"Bearer token123\",\"X-API-Key\":\"key456\"}".to_string();
    let table = parse_default_headers(Some(&json)).unwrap();
    assert_eq!(table.get("Authorization"), Some(&strings(&["Bearer token123"])));
    assert_eq!(table.get("X-API-Key"), Some(&strings(&["key456"])));
    assert_eq!(table.entries().len(), 2);
}

#[test]
fn default_headers_may_be_absent() {
    assert_eq!(parse_default_headers(None).unwrap().entries().len(), 0);
    assert_eq!(parse_default_headers(Some(&"{}".to_string())).unwrap().entries().len(), 0);
}

#[test]
fn default_headers_must_be_an_object_of_strings() {
    for json in ["", "[]", "{\"a\":1}", "{\"a\":\"b\"", "null"] {
        let error = parse_default_headers(Some(&json.to_string())).err().unwrap();
        assert!(error.starts_with("Invalid DEFAULT_HEADERS: "));
        assert!(error.len() > "Invalid DEFAULT_HEADERS: ".len());
    }
    assert_eq!(
        parse_default_headers(Some(&"".to_string())).err().unwrap(),
        "Invalid DEFAULT_HEADERS: EOF while parsing a value at line 1 column 0"
    );
}

#[test]
fn a_repeated_key_keeps_its_last_value() {
    let pairs = vec![
        ("a".to_string(), "1".to_string()),
        ("b".to_string(), "2".to_string()),
        ("a".to_string(), "3".to_string()),
    ];
    let table = default_headers_table(Ok(pairs)).unwrap();
    assert_eq!(table.get("a"), Some(&strings(&["3"])));
    assert_eq!(table.get("b"), Some(&strings(&["2"])));
    let error = default_headers_table(Err("why".to_string())).err().unwrap();
    assert_eq!(error, "Invalid DEFAULT_HEADERS: why");
}

#[test]
fn error_responses_carry_status_and_message() {
    assert_eq!(error_response(502, "no".to_string()), (502, "no".to_string()));
}

/// A name that a header map takes as a static text without looking at its bytes.
const ODD_NAME: &str = "x-odd name-0123456789-0123456789-0123456789-0123456789-0123456789-0123456789";

#[test]
fn odd_names_are_carried_along() {
    let mut headers = HeaderMap::new();
    headers.append(ODD_NAME, HeaderValue::from_static("1"));
    headers.append(ODD_NAME, HeaderValue::from_static("2"));
    headers.append("te", HeaderValue::from_static("x"));
    assert_eq!(headers.keys_len(), 2);
    let filtered = filter_headers(&headers);
    assert_eq!(filtered.len(), 2);
    let builder = add_headers_to_response(ResponseBuilder::new(), &headers);
    let response = builder.body(ResponseBody::Upstream).unwrap();
    assert_eq!(response.headers, filtered);
    let table = headers_to_hashmap(&headers);
    assert_eq!(table.entries().len(), 2);
    assert_eq!(hashmap_to_headers(&table).unwrap().keys_len(), 1);
}

#[test]
fn sensitive_values_stay_sensitive() {
    let mut value = HeaderValue::from_static("secret");
    value.set_sensitive(true);
    let mut headers = HeaderMap::new();
    headers.append("x-key", value);
    assert!(filter_headers(&headers).get("x-key").unwrap().is_sensitive());
    let builder = add_headers_to_response(ResponseBuilder::new(), &headers);
    let response = builder.body(ResponseBody::Upstream).unwrap();
    assert!(response.headers.get("x-key").unwrap().is_sensitive());
}
