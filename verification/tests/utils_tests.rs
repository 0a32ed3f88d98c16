use mercury::utils::{
    build_url_with_params, count_active_headers, count_enabled_params, generate_basic_auth,
    generate_bearer_auth, get_base_url, infer_auth_config, parse_query_params, sanitize_url,
    should_add_json_header, AuthMode, QueryParam,
};

#[test]
fn test_sanitize_url() {
    assert_eq!(sanitize_url("google.com"), "http://google.com");
    assert_eq!(sanitize_url("http://test.com"), "http://test.com");
    assert_eq!(sanitize_url("https://secure.com"), "https://secure.com");
    assert_eq!(sanitize_url("localhost:3000"), "http://localhost:3000");
    assert_eq!(sanitize_url(""), "");
}

#[test]
fn test_should_add_json_header() {
    assert!(should_add_json_header("{\"a\":1}", ""));
    assert!(should_add_json_header("[1,2]", "Header: Value"));
    assert!(!should_add_json_header("not json", ""));
    assert!(!should_add_json_header("{}", "Content-Type: text/plain"));
    assert!(!should_add_json_header(
        "{}",
        "content-type: application/json"
    ));
    // Should add if Content-Type is only in comment
    assert!(should_add_json_header(
        "{}",
        "# Content-Type: text/plain\nOther: Value"
    ));
}

#[test]
fn test_generate_basic_auth() {
    // user:pass -> dXNlcjpwYXNz
    assert_eq!(generate_basic_auth("user", "pass"), "Basic dXNlcjpwYXNz");

    assert_eq!(
        generate_basic_auth("admin", "1234"),
        "Basic YWRtaW46MTIzNA=="
    );
}

#[test]
fn test_generate_bearer_auth() {
    assert_eq!(generate_bearer_auth("token123"), "Bearer token123");
}

#[test]
fn test_infer_auth_config() {
    // Basic
    let (mode, u, p, t) = infer_auth_config("Basic dXNlcjpwYXNz");
    assert_eq!(mode, AuthMode::Basic);
    assert_eq!(u, "user");
    assert_eq!(p, "pass");
    assert_eq!(t, "");

    // Bearer
    let (mode, u, p, t) = infer_auth_config("Bearer secret_token");
    assert_eq!(mode, AuthMode::Bearer);
    assert_eq!(u, "");
    assert_eq!(p, "");
    assert_eq!(t, "secret_token");

    // Bearer with "Bearer " in token (recurse check)
    let (mode, _u, _p, t) = infer_auth_config("Bearer Bearer Token");
    assert_eq!(mode, AuthMode::Bearer);
    assert_eq!(t, "Bearer Token");

    // Custom
    let (mode, u, p, t) = infer_auth_config("X-Custom: Value");
    assert_eq!(mode, AuthMode::Custom);
    assert_eq!(u, "");
    assert_eq!(p, "");
    assert_eq!(t, "");

    // None
    let (mode, _u, _p, _t) = infer_auth_config("");
    assert_eq!(mode, AuthMode::NoAuth);
}

#[test]
fn test_count_active_headers() {
    assert_eq!(count_active_headers("H: V"), 1);
    assert_eq!(count_active_headers("H: V\nH2: V2"), 2);
    assert_eq!(count_active_headers("# Comment\n\n"), 0);
    assert_eq!(count_active_headers("H: V\n# Disabled\nH3: V3"), 2);
}

// ========================================================================
// Query Parameter Tests
// ========================================================================

#[test]
fn test_parse_query_params_basic() {
    let params = parse_query_params("https://api.com/search?q=test&page=1");
    assert_eq!(params.len(), 2);
    assert_eq!(params[0].key, "q");
    assert_eq!(params[0].value, "test");
    assert!(params[0].enabled);
    assert_eq!(params[1].key, "page");
    assert_eq!(params[1].value, "1");
}

#[test]
fn test_parse_query_params_empty() {
    // No query string
    let params = parse_query_params("https://api.com/users");
    assert!(params.is_empty());

    // Empty query string
    let params = parse_query_params("https://api.com?");
    assert!(params.is_empty());
}

#[test]
fn test_parse_query_params_encoded() {
    let params = parse_query_params("https://api.com?name=John%20Doe&city=New+York");
    assert_eq!(params[0].value, "John Doe");
    assert_eq!(params[1].value, "New York");
}

#[test]
fn test_parse_query_params_key_only() {
    let params = parse_query_params("https://api.com?flag&debug");
    assert_eq!(params.len(), 2);
    assert_eq!(params[0].key, "flag");
    assert_eq!(params[0].value, "");
    assert_eq!(params[1].key, "debug");
}

#[test]
fn test_parse_query_params_with_fragment() {
    let params = parse_query_params("https://api.com?q=test#section");
    assert_eq!(params.len(), 1);
    assert_eq!(params[0].key, "q");
    assert_eq!(params[0].value, "test");
}

#[test]
fn test_parse_query_params_duplicate_keys() {
    let params = parse_query_params("https://api.com?tag=a&tag=b&tag=c");
    assert_eq!(params.len(), 3);
    assert!(params.iter().all(|p| p.key == "tag"));
}

#[test]
fn test_build_url_basic() {
    let params = vec![
        QueryParam::new("q".to_string(), "test".to_string()),
        QueryParam::new("page".to_string(), "1".to_string()),
    ];
    let url = build_url_with_params("https://api.com/search", &params);
    assert_eq!(url, "https://api.com/search?q=test&page=1");
}

#[test]
fn test_build_url_disabled_params() {
    let params = vec![
        QueryParam::new("q".to_string(), "test".to_string()),
        QueryParam {
            enabled: false,
            key: "page".to_string(),
            value: "1".to_string(),
        },
    ];
    let url = build_url_with_params("https://api.com/search", &params);
    assert_eq!(url, "https://api.com/search?q=test");
}

#[test]
fn test_build_url_empty_params() {
    let params: Vec<QueryParam> = vec![];
    let url = build_url_with_params("https://api.com/users", &params);
    assert_eq!(url, "https://api.com/users");
}

#[test]
fn test_build_url_replaces_existing_params() {
    let params = vec![QueryParam::new("new".to_string(), "value".to_string())];
    let url = build_url_with_params("https://api.com?old=param", &params);
    assert_eq!(url, "https://api.com?new=value");
}

#[test]
fn test_build_url_preserves_variables() {
    let params = vec![QueryParam::new(
        "token".to_string(),
        "{{API_KEY}}".to_string(),
    )];
    let url = build_url_with_params("https://api.com", &params);
    assert_eq!(url, "https://api.com?token={{API_KEY}}");
}

#[test]
fn test_build_url_encodes_special_chars() {
    let params = vec![QueryParam::new("q".to_string(), "hello world".to_string())];
    let url = build_url_with_params("https://api.com", &params);
    assert_eq!(url, "https://api.com?q=hello%20world");
}

#[test]
fn test_get_base_url() {
    assert_eq!(
        get_base_url("https://api.com/users"),
        "https://api.com/users"
    );
    assert_eq!(get_base_url("https://api.com?q=test"), "https://api.com");
    assert_eq!(get_base_url("localhost:3000/api?x=1"), "localhost:3000/api");
}

#[test]
fn test_count_enabled_params() {
    let params = vec![
        QueryParam::new("a".to_string(), "1".to_string()),
        QueryParam {
            enabled: false,
            key: "b".to_string(),
            value: "2".to_string(),
        },
        QueryParam::new("c".to_string(), "3".to_string()),
        QueryParam::new("".to_string(), "empty_key".to_string()), // Empty key, shouldn't count
    ];
    assert_eq!(count_enabled_params(&params), 2);
}

#[test]
fn utils_decode_keeps_invalid_escapes_and_reads_signed_hex() {
    let params = parse_query_params("http://x?a=%zz1&b=%+a&c=100%&d=%4");
    assert_eq!(params[0].value, "%zz1");
    assert_eq!(params[1].value, "\n");
    assert_eq!(params[2].value, "100%");
    assert_eq!(params[3].value, "%4");
}

#[test]
fn utils_decode_takes_bytes_as_characters() {
    let params = parse_query_params("http://x?q=%C3%A9");
    assert_eq!(params[0].value, "\u{c3}\u{a9}");
}

#[test]
fn utils_unclosed_variable_is_copied_to_the_end() {
    let params = vec![QueryParam::new("k".to_string(), "{{open value".to_string())];
    assert_eq!(build_url_with_params("http://x", &params), "http://x?k={{open value");
    let params = vec![QueryParam::new("k".to_string(), "{{a}} b".to_string())];
    assert_eq!(build_url_with_params("http://x", &params), "http://x?k={{a}}%20b");
}

#[test]
fn utils_key_without_value_is_written_alone() {
    let params = vec![QueryParam::new("flag".to_string(), "".to_string())];
    assert_eq!(build_url_with_params("http://x?old", &params), "http://x?flag");
}

#[test]
fn utils_basic_auth_that_does_not_decode_gives_empty_credentials() {
    let (mode, u, p, t) = infer_auth_config("  Basic !!!  ");
    assert_eq!(mode, AuthMode::Basic);
    assert_eq!((u.as_str(), p.as_str(), t.as_str()), ("", "", ""));
    let (mode, u, p, _) = infer_auth_config("Basic dXNlcg==");
    assert_eq!(mode, AuthMode::Basic);
    assert_eq!((u.as_str(), p.as_str()), ("", ""));
}

#[test]
fn utils_generated_basic_auth_reads_back() {
    let v = generate_basic_auth("alice", "s3:cret");
    let (mode, u, p, _) = infer_auth_config(&v);
    assert_eq!(mode, AuthMode::Basic);
    assert_eq!(u, "alice");
    assert_eq!(p, "s3:cret");
}

#[test]
fn utils_count_active_headers_handles_crlf_and_indentation() {
    assert_eq!(count_active_headers("A: 1\r\n  # off\r\n\r\nB: 2\r\n"), 2);
    assert_eq!(count_active_headers(""), 0);
}

#[test]
fn utils_json_header_skips_indented_content_type() {
    assert!(!should_add_json_header("  [1]", "  Content-Type: x"));
    assert!(should_add_json_header("{", "X-Content-Type: x"));
}

#[test]
fn utils_base_url_keeps_fragment_without_query() {
    assert_eq!(get_base_url("http://x/a#frag"), "http://x/a#frag");
    assert_eq!(generate_bearer_auth(""), "Bearer ");
    assert_eq!(sanitize_url("ftp://x"), "http://ftp://x");
}
