use aoxy::models::{clone_strings, Args, HeaderTable, UpstreamError};
use aoxy::text::{parse_u64, same_text, to_lower_hex, trim_trailing_slashes};

#[test]
fn trailing_slashes_are_cut() {
    assert_eq!(trim_trailing_slashes("http://a/b//"), "http://a/b");
    assert_eq!(trim_trailing_slashes("http://a"), "http://a");
    assert_eq!(trim_trailing_slashes("///"), "");
    assert_eq!(trim_trailing_slashes(""), "");
    assert_eq!(trim_trailing_slashes("\u{fc}/"), "\u{fc}");
}

#[test]
fn hexadecimal_text_is_lower_case() {
    assert_eq!(to_lower_hex(&[0, 9, 10, 159, 255]), "00090a9fff");
}

#[test]
fn numbers_are_read_from_digits() {
    assert_eq!(parse_u64("0"), Some(0));
    assert_eq!(parse_u64("+42"), Some(42));
    assert_eq!(parse_u64("007"), Some(7));
    assert_eq!(parse_u64("18446744073709551615"), Some(u64::MAX));
    for text in ["", "+", "-1", "++1", " 1", "1 ", "12a", "18446744073709551616", "99999999999999999999"] {
        assert_eq!(parse_u64(text), None);
    }
    for text in ["0", "+42", "007", "18446744073709551615", "", "+", "-1", "1a", "\u{0661}", "1\u{e9}", "+\u{e9}"] {
        assert_eq!(parse_u64(text), text.parse::<u64>().ok());
    }
}

#[test]
fn long_numbers_are_read_in_one_pass() {
    let zeros = "0".repeat(1_000_000);
    assert_eq!(parse_u64(&zeros), Some(0));
    assert_eq!(parse_u64(&format!("{}7", zeros)), Some(7));
}

#[test]
fn texts_are_compared_letter_by_letter() {
    assert!(same_text("abc", "abc"));
    assert!(!same_text("abc", "Abc"));
    assert!(!same_text("abc", "ab"));
}

#[test]
fn tables_replace_and_append() {
    let mut table = HeaderTable::new();
    table.append("a".to_string(), "1".to_string());
    table.append("b".to_string(), "2".to_string());
    table.append("a".to_string(), "3".to_string());
    assert_eq!(table.get("a"), Some(&vec!["1".to_string(), "3".to_string()]));
    table.insert("a".to_string(), vec!["4".to_string()]);
    assert_eq!(table.get("a"), Some(&vec!["4".to_string()]));
    assert_eq!(table.get("A"), None);
    assert_eq!(table.entries().len(), 2);
}

#[test]
fn string_lists_are_copied() {
    let list = vec!["a".to_string(), "".to_string()];
    assert_eq!(clone_strings(&list), list);
}

#[test]
fn configuration_has_its_defaults() {
    let args = Args::for_upstream("https://api.example.com".to_string());
    assert_eq!(args.bind_addr, "0.0.0.0:8080");
    assert_eq!(args.external_api_base, "https://api.example.com");
    assert_eq!(args.rate_limit_per_sec, 10);
    assert_eq!(args.rate_limit_burst, 1);
    assert_eq!(args.redis_url, None);
    assert_eq!(args.cache_ttl_secs, 600);
    assert!(!args.skip_idempotency_check);
    assert_eq!(args.hard_timeout_secs, 60);
    assert_eq!(args.upstream_timeout_secs, 30);
    assert_eq!(args.max_elapsed_time_secs, 30);
    assert_eq!(args.initial_backoff_ms, 200);
    assert_eq!(args.max_body_size, 10 * 1024 * 1024);
    assert_eq!(args.proxy_url, None);
    assert_eq!(args.proxy_username, None);
    assert_eq!(args.proxy_password, None);
    assert_eq!(args.default_headers, None);
}

#[test]
fn upstream_errors_say_what_happened() {
    let failed = UpstreamError::RequestFailed("refused".to_string());
    assert_eq!(failed.message(), "Upstream request failed: refused");
    let status = UpstreamError::BadStatus("503 Service Unavailable".to_string());
    assert_eq!(status.message(), "Upstream returned error status: 503 Service Unavailable");
}
