use aoxy::cache::CacheLookup;
use aoxy::entrypoint::{client_settings, rate_quota, retry_settings, start};
use aoxy::handler::{
    attempt_outcome, begin_request, content_length, describe_status, make_upstream_request,
    proxy_handler, route_request, should_cache, should_retry_status, should_stream, Attempt, Event,
    ProxyRequest, Route, Step, UpstreamAnswer,
};
use aoxy::models::{AppState, Args, CachedResponse, HeaderTable, ResponseBody, UpstreamError};
use axum::http::{HeaderMap, HeaderValue};

fn sample_state() -> AppState {
    let mut args = Args::for_upstream("https://api.example.com/".to_string());
    args.default_headers = Some("{\"X-Api-Key\":\"key456\",\"Accept\":\"text/html\"}".to_string());
    start(args).unwrap()
}

fn sample_request(method: &str) -> ProxyRequest {
    let mut headers = HeaderMap::new();
    headers.append("host", HeaderValue::from_static("proxy.local"));
    headers.append("accept", HeaderValue::from_static("*/*"));
    ProxyRequest {
        method: method.to_string(),
        uri: "/v1/items?page=2".to_string(),
        headers,
        body: b"question".to_vec(),
    }
}

fn sample_route(cacheable: bool) -> Route {
    Route {
        upstream_url: "https://api.example.com/v1".to_string(),
        cache_key: "cache:key".to_string(),
        cacheable,
    }
}

fn all_values(map: &HeaderMap, name: &str) -> Vec<Vec<u8>> {
    map.get_all(name).iter().map(|value| value.as_bytes().to_vec()).collect()
}

fn error_of(step: Step) -> (u16, String) {
    match step {
        Step::Respond { response } => response.err().unwrap(),
        _ => panic!("no answer"),
    }
}

fn answered(status: u16, headers: HeaderMap) -> Event {
    Event::Attempted(Attempt::Answered(UpstreamAnswer { status, headers }))
}

fn attempted(status: u16) -> Attempt {
    Attempt::Answered(UpstreamAnswer { status, headers: HeaderMap::new() })
}

/// Takes a request to the step that sends it.
fn sending(state: &AppState, step: Step) -> Step {
    let step = proxy_handler(state, step, Event::PermitGranted);
    assert!(matches!(step, Step::Send { .. }));
    step
}

fn reading(status: u16, route: Route) -> Step {
    Step::ReadBody { route, status, headers: HeaderMap::new() }
}

#[test]
fn retried_statuses() {
    for status in [429, 500, 501, 502, 503, 504, 599] {
        assert!(should_retry_status(status));
    }
    for status in [100, 200, 204, 301, 307, 400, 401, 404, 408, 428, 430, 499, 600] {
        assert!(!should_retry_status(status));
    }
}

#[test]
fn statuses_are_described() {
    assert_eq!(describe_status(503, Some("Busy".to_string())), "503 Busy: Busy");
    assert_eq!(describe_status(599, None), "599 <unknown status code>: Unknown");
    assert_eq!(describe_status(100, None), "100 <unknown status code>: Unknown");
}

#[test]
fn attempts_are_judged() {
    assert!(matches!(attempt_outcome(attempted(200)), Ok(UpstreamAnswer { status: 200, .. })));
    assert!(matches!(attempt_outcome(attempted(302)), Ok(UpstreamAnswer { status: 302, .. })));
    assert!(matches!(attempt_outcome(attempted(404)), Ok(UpstreamAnswer { status: 404, .. })));
    match attempt_outcome(attempted(503)) {
        Err(UpstreamError::BadStatus(text)) => {
            assert_eq!(text, "503 Service Unavailable: Service Unavailable")
        }
        _ => panic!("not retried"),
    }
    match attempt_outcome(attempted(429)) {
        Err(UpstreamError::BadStatus(text)) => {
            assert_eq!(text, "429 Too Many Requests: Too Many Requests")
        }
        _ => panic!("not retried"),
    }
    match attempt_outcome(attempted(555)) {
        Err(UpstreamError::BadStatus(text)) => {
            assert_eq!(text, "555 <unknown status code>: Unknown")
        }
        _ => panic!("not retried"),
    }
    match attempt_outcome(Attempt::Failed("reset".to_string())) {
        Err(UpstreamError::RequestFailed(text)) => assert_eq!(text, "reset"),
        _ => panic!("not retried"),
    }
}

#[test]
fn status_descriptions_match_their_display() {
    for code in 500..600u16 {
        let status = axum::http::StatusCode::from_u16(code).unwrap();
        let expected = format!("{}: {}", status, status.canonical_reason().unwrap_or("Unknown"));
        match attempt_outcome(attempted(code)) {
            Err(UpstreamError::BadStatus(text)) => assert_eq!(text, expected),
            _ => panic!("not retried"),
        }
    }
}

#[test]
fn idempotent_methods_are_cacheable() {
    let mut args = Args::for_upstream("http://a///".to_string());
    for method in ["GET", "HEAD", "OPTIONS", "TRACE", "QUERY", "PUT", "DELETE"] {
        assert!(route_request(&args, method, "/").cacheable);
    }
    for method in ["POST", "PATCH", "CONNECT", "get", "", "G T"] {
        assert!(!route_request(&args, method, "/").cacheable);
    }
    args.skip_idempotency_check = true;
    assert!(route_request(&args, "POST", "/").cacheable);
}

#[test]
fn routes_join_base_and_uri() {
    let route = route_request(&Args::for_upstream("http://a/b//".to_string()), "GET", "/c?d=e");
    assert_eq!(route.upstream_url, "http://a/b/c?d=e");
    assert_eq!(route.cache_key, aoxy::utils::generate_cache_key("GET", "http://a/b/c?d=e"));
    let bare = route_request(&Args::for_upstream("http://a/b".to_string()), "GET", "/c?d=e");
    assert_eq!(bare.cache_key, route.cache_key);
}

#[test]
fn incoming_headers_override_default_headers() {
    let mut defaults = HeaderMap::new();
    defaults.append("accept", HeaderValue::from_static("text/html"));
    defaults.append("x-many", HeaderValue::from_static("1"));
    defaults.append("x-many", HeaderValue::from_static("2"));
    defaults.append("host", HeaderValue::from_static("default.host"));
    let request = sample_request("POST");
    let upstream = make_upstream_request(&defaults, request, "http://a/").unwrap();
    assert_eq!(upstream.method, "POST");
    assert_eq!(upstream.url, "http://a/");
    assert_eq!(upstream.body, b"question".to_vec());
    assert_eq!(all_values(&upstream.headers, "accept"), vec![b"*/*".to_vec()]);
    assert_eq!(all_values(&upstream.headers, "x-many"), vec![b"1".to_vec(), b"2".to_vec()]);
    assert_eq!(all_values(&upstream.headers, "host"), vec![b"default.host".to_vec()]);
    assert_eq!(upstream.headers.len(), 4);
}

#[test]
fn hop_by_hop_headers_are_not_forwarded() {
    let upstream = make_upstream_request(&HeaderMap::new(), sample_request("GET"), "http://a/").unwrap();
    assert!(!upstream.headers.contains_key("host"));
    assert_eq!(upstream.headers.len(), 1);
}

#[test]
fn headers_without_room_are_not_forwarded() {
    let mut defaults = HeaderMap::new();
    let mut request = sample_request("GET");
    for i in 0..16000 {
        let mine = axum::http::HeaderName::try_from(format!("x-{}", i)).unwrap();
        let theirs = axum::http::HeaderName::try_from(format!("y-{}", i)).unwrap();
        request.headers.append(mine, HeaderValue::from_static("v"));
        defaults.append(theirs, HeaderValue::from_static("v"));
    }
    assert!(make_upstream_request(&defaults, request, "http://a/").is_none());
}

#[test]
fn content_length_is_the_first_number() {
    let mut headers = HeaderMap::new();
    assert_eq!(content_length(&headers), None);
    headers.append("content-length", HeaderValue::from_static("17"));
    headers.append("content-length", HeaderValue::from_static("18"));
    assert_eq!(content_length(&headers), Some(17));
    headers.insert("content-length", HeaderValue::from_static("many"));
    assert_eq!(content_length(&headers), None);
    headers.insert("content-length", HeaderValue::from_bytes(&[200]).unwrap());
    assert_eq!(content_length(&headers), None);
}

#[test]
fn streaming_needs_a_limit_and_a_length() {
    assert!(should_stream(10, Some(11)));
    assert!(!should_stream(10, Some(10)));
    assert!(!should_stream(10, None));
    assert!(!should_stream(0, Some(u64::MAX)));
}

#[test]
fn caching_needs_success_and_size() {
    assert!(should_cache(true, 200, 10, 10));
    assert!(should_cache(true, 399, 0, 1000));
    assert!(!should_cache(true, 200, 10, 11));
    assert!(!should_cache(true, 199, 10, 1));
    assert!(!should_cache(true, 400, 10, 1));
    assert!(!should_cache(false, 200, 10, 1));
}

#[test]
fn cacheable_requests_ask_the_cache_first() {
    match begin_request(&sample_state(), sample_request("GET")) {
        Step::LookUpCache { request, route } => {
            assert_eq!(request.uri, "/v1/items?page=2");
            assert_eq!(route.upstream_url, "https://api.example.com/v1/items?page=2");
            assert!(route.cacheable);
        }
        _ => panic!("the cache was not asked"),
    }
}

#[test]
fn other_requests_go_upstream_at_once() {
    match begin_request(&sample_state(), sample_request("POST")) {
        Step::AwaitPermit { upstream, route } => {
            assert_eq!(upstream.url, "https://api.example.com/v1/items?page=2");
            assert_eq!(all_values(&upstream.headers, "x-api-key"), vec![b"key456".to_vec()]);
            assert_eq!(all_values(&upstream.headers, "accept"), vec![b"*/*".to_vec()]);
            assert!(!route.cacheable);
        }
        _ => panic!("not forwarded"),
    }
}

#[test]
fn a_hit_answers_the_request() {
    let step = begin_request(&sample_state(), sample_request("GET"));
    let entry = CachedResponse { status: 200, headers: HeaderTable::new(), body: "eA==".to_string() };
    match proxy_handler(&sample_state(), step, Event::CacheReply(CacheLookup::Found(entry))) {
        Step::Respond { response } => {
            let response = response.ok().unwrap();
            assert_eq!(all_values(&response.headers, "x-cache"), vec![b"HIT".to_vec()]);
            assert!(matches!(response.body, ResponseBody::Bytes(bytes) if bytes == b"x".to_vec()));
        }
        _ => panic!("not answered"),
    }
}

#[test]
fn cache_trouble_lets_the_request_pass() {
    for lookup in [
        CacheLookup::Disabled,
        CacheLookup::ConnectionFailed,
        CacheLookup::CommandFailed,
        CacheLookup::Missing,
        CacheLookup::Malformed,
    ] {
        let step = begin_request(&sample_state(), sample_request("GET"));
        match proxy_handler(&sample_state(), step, Event::CacheReply(lookup)) {
            Step::AwaitPermit { upstream, .. } => assert_eq!(upstream.method, "GET"),
            _ => panic!("not forwarded"),
        }
    }
}

#[test]
fn upstream_trouble_is_reported() {
    let state = sample_state();
    let timeout = || Event::TimedOut("deadline has elapsed".to_string());
    let answer = (504, "Timeout: deadline has elapsed".to_string());
    let waiting = begin_request(&state, sample_request("POST"));
    assert_eq!(error_of(proxy_handler(&state, waiting, timeout())), answer);
    let sent = sending(&state, begin_request(&state, sample_request("POST")));
    assert_eq!(error_of(proxy_handler(&state, sent, timeout())), answer);
    let sent = sending(&state, begin_request(&state, sample_request("POST")));
    let failed = proxy_handler(&state, sent, Event::Attempted(attempted(503)));
    assert_eq!(error_of(proxy_handler(&state, failed, timeout())), answer);
    let sent = sending(&state, begin_request(&state, sample_request("POST")));
    let failed = proxy_handler(&state, sent, Event::Attempted(attempted(503)));
    assert_eq!(
        error_of(proxy_handler(&state, failed, Event::BackedOff { again: false })),
        (
            502,
            "Upstream error: Upstream returned error status: \
             503 Service Unavailable: Service Unavailable"
                .to_string()
        )
    );
    let broken = reading(200, sample_route(true));
    let event = Event::BodyRead(Err("connection reset".to_string()));
    assert_eq!(
        error_of(proxy_handler(&state, broken, event)),
        (502, "Error reading upstream: connection reset".to_string())
    );
}

#[test]
fn large_responses_are_streamed() {
    let mut state = sample_state();
    state.cfg.max_body_size = 100;
    let mut headers = HeaderMap::new();
    headers.append("content-length", HeaderValue::from_static("101"));
    let step = sending(&state, begin_request(&state, sample_request("POST")));
    match proxy_handler(&state, step, answered(200, headers.clone())) {
        Step::Respond { response } => {
            let response = response.ok().unwrap();
            assert_eq!(all_values(&response.headers, "x-cache"), vec![b"STREAM".to_vec()]);
            assert!(matches!(response.body, ResponseBody::Upstream));
        }
        _ => panic!("not streamed"),
    }
    state.cfg.max_body_size = 0;
    let step = sending(&state, begin_request(&state, sample_request("POST")));
    assert!(matches!(
        proxy_handler(&state, step, answered(200, headers)),
        Step::ReadBody { status: 200, .. }
    ));
}

#[test]
fn cacheable_responses_are_written() {
    let state = sample_state();
    let event = Event::BodyRead(Ok(b"foo".to_vec()));
    match proxy_handler(&state, reading(301, sample_route(true)), event) {
        Step::WriteCache { write, response } => {
            assert_eq!(write.key, "cache:key");
            assert_eq!(write.ttl_secs, 600);
            assert_eq!(write.entry.status, 301);
            assert_eq!(write.entry.body, "Zm9v");
            let next = proxy_handler(
                &state,
                Step::WriteCache { write, response },
                Event::CacheWritten,
            );
            match next {
                Step::Respond { response } => assert_eq!(response.ok().unwrap().status, 301),
                _ => panic!("not answered"),
            }
        }
        _ => panic!("not written"),
    }
}

#[test]
fn other_responses_are_not_written() {
    let mut state = sample_state();
    for (status, cacheable) in [(200, false), (404, true), (500, true)] {
        let event = Event::BodyRead(Ok(b"foo".to_vec()));
        match proxy_handler(&state, reading(status, sample_route(cacheable)), event) {
            Step::Respond { response } => {
                let response = response.ok().unwrap();
                assert_eq!(response.status, status);
                assert_eq!(all_values(&response.headers, "x-cache"), vec![b"MISS".to_vec()]);
            }
            _ => panic!("not answered"),
        }
    }
    state.cfg.max_body_size = 2;
    let event = Event::BodyRead(Ok(b"foo".to_vec()));
    assert!(matches!(
        proxy_handler(&state, reading(200, sample_route(true)), event),
        Step::Respond { .. }
    ));
}

#[test]
fn a_request_runs_to_its_end() {
    let state = sample_state();
    let mut step = begin_request(&state, sample_request("GET"));
    let mut events = 0;
    loop {
        let event = match &step {
            Step::LookUpCache { .. } => Event::CacheReply(CacheLookup::Missing),
            Step::AwaitPermit { .. } => Event::PermitGranted,
            Step::Send { .. } => answered(200, HeaderMap::new()),
            Step::BackOff { .. } => panic!("not to be retried"),
            Step::ReadBody { .. } => Event::BodyRead(Ok(Vec::new())),
            Step::WriteCache { .. } => Event::CacheWritten,
            Step::Respond { .. } => break,
            Step::Unforwardable => panic!("no room"),
        };
        step = proxy_handler(&state, step, event);
        events += 1;
    }
    assert_eq!(events, 5);
}

#[test]
fn default_headers_reach_the_state() {
    let state = sample_state();
    assert_eq!(all_values(&state.default_headers, "x-api-key"), vec![b"key456".to_vec()]);
    assert_eq!(state.default_headers.len(), 2);
    let plain = start(Args::for_upstream("http://a".to_string())).ok().unwrap();
    assert!(plain.default_headers.is_empty());
    assert_eq!(plain.cfg.external_api_base, "http://a");
}

#[test]
fn bad_default_headers_stop_the_start() {
    let mut args = Args::for_upstream("http://a".to_string());
    args.default_headers = Some("{".to_string());
    let message = start(args).err().unwrap();
    assert_eq!(
        message,
        "Invalid DEFAULT_HEADERS: EOF while parsing an object at line 1 column 1"
    );
}

#[test]
fn rate_limits_must_be_positive() {
    let mut args = Args::for_upstream("http://a".to_string());
    let quota = rate_quota(&args).ok().unwrap();
    assert_eq!((quota.per_second, quota.burst), (10, 1));
    args.rate_limit_burst = 0;
    assert_eq!(rate_quota(&args).err().unwrap(), "rate_limit_burst must be positive");
    args.rate_limit_per_sec = 0;
    assert_eq!(rate_quota(&args).err().unwrap(), "rate_limit_per_sec must be positive");
}

#[test]
fn proxies_get_credentials_when_complete() {
    let mut args = Args::for_upstream("http://a".to_string());
    args.proxy_username = Some("myuser".to_string());
    args.proxy_password = Some("mypass".to_string());
    let settings = client_settings(&args);
    assert_eq!(settings.timeout_secs, 30);
    assert!(!settings.follow_redirects);
    assert!(settings.proxy.is_none());
    args.proxy_url = Some("socks5://127.0.0.1:1080".to_string());
    let proxy = client_settings(&args).proxy.unwrap();
    assert_eq!(proxy.url, "socks5://127.0.0.1:1080");
    let credentials = proxy.credentials.unwrap();
    assert_eq!(credentials.username, "myuser");
    assert_eq!(credentials.password, "mypass");
    args.proxy_password = None;
    assert!(client_settings(&args).proxy.unwrap().credentials.is_none());
}

#[test]
fn the_last_attempt_is_passed_on() {
    let state = sample_state();
    let mut headers = HeaderMap::new();
    headers.append("location", HeaderValue::from_static("/there"));
    let mut attempts = vec![
        Attempt::Answered(UpstreamAnswer { status: 302, headers }),
        attempted(429),
        attempted(503),
        Attempt::Failed("reset".to_string()),
    ];
    let mut step = begin_request(&state, sample_request("POST"));
    let mut permits = 0;
    let mut requests = 0;
    loop {
        let event = match &step {
            Step::AwaitPermit { .. } => {
                permits += 1;
                Event::PermitGranted
            }
            Step::Send { upstream, .. } => {
                requests += 1;
                assert_eq!(permits, requests);
                assert_eq!(upstream.body, b"question".to_vec());
                Event::Attempted(attempts.pop().unwrap())
            }
            Step::BackOff { .. } => Event::BackedOff { again: true },
            _ => break,
        };
        step = proxy_handler(&state, step, event);
    }
    assert_eq!((permits, requests), (4, 4));
    assert!(matches!(step, Step::ReadBody { status: 302, .. }));
    match proxy_handler(&state, step, Event::BodyRead(Ok(b"moved".to_vec()))) {
        Step::Respond { response } => {
            let response = response.ok().unwrap();
            assert_eq!(response.status, 302);
            assert_eq!(all_values(&response.headers, "location"), vec![b"/there".to_vec()]);
            assert_eq!(response.headers.len(), 2);
        }
        _ => panic!("not answered"),
    }
}

#[test]
fn retries_follow_the_configuration() {
    let mut args = Args::for_upstream("http://a".to_string());
    args.initial_backoff_ms = 7;
    args.max_elapsed_time_secs = 8;
    args.hard_timeout_secs = 9;
    let settings = retry_settings(&args);
    assert_eq!(settings.initial_backoff_ms, 7);
    assert_eq!(settings.multiplier, 2);
    assert_eq!(settings.max_elapsed_time_secs, 8);
    assert_eq!(settings.hard_timeout_secs, 9);
}

#[test]
fn a_repeated_request_gets_the_same_answer() {
    let state = sample_state();
    let step = begin_request(&state, sample_request("GET"));
    let step = sending(
        &state,
        proxy_handler(&state, step, Event::CacheReply(CacheLookup::Missing)),
    );
    let mut headers = HeaderMap::new();
    headers.append("content-length", HeaderValue::from_static("5"));
    let step = proxy_handler(&state, step, answered(200, headers));
    let (write, first) = match proxy_handler(&state, step, Event::BodyRead(Ok(b"hello".to_vec()))) {
        Step::WriteCache { write, response } => (write, response.ok().unwrap()),
        _ => panic!("not written"),
    };
    let step = begin_request(&state, sample_request("GET"));
    match &step {
        Step::LookUpCache { route, .. } => assert_eq!(route.cache_key, write.key),
        _ => panic!("the cache was not asked"),
    }
    match proxy_handler(&state, step, Event::CacheReply(CacheLookup::Found(write.entry))) {
        Step::Respond { response } => {
            let second = response.ok().unwrap();
            assert_eq!(second.status, first.status);
            assert_eq!(
                all_values(&second.headers, "content-length"),
                all_values(&first.headers, "content-length")
            );
            assert_eq!(all_values(&second.headers, "x-cache"), vec![b"HIT".to_vec()]);
            match (first.body, second.body) {
                (ResponseBody::Bytes(one), ResponseBody::Bytes(two)) => assert_eq!(one, two),
                _ => panic!("not buffered"),
            }
        }
        _ => panic!("not answered"),
    }
}

#[test]
fn sensitive_defaults_stay_sensitive_upstream() {
    let mut value = HeaderValue::from_static("secret");
    value.set_sensitive(true);
    let mut defaults = HeaderMap::new();
    defaults.append("x-key", value);
    let upstream = make_upstream_request(&defaults, sample_request("GET"), "http://a/").unwrap();
    assert!(upstream.headers.get("x-key").unwrap().is_sensitive());
}
