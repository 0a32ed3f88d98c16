use mercury::curl_parser::parse_curl;
use mercury::http_parser::HttpMethod;

#[test]
fn test_simple_get() {
    let curl = "curl https://api.example.com/users";
    let req = parse_curl(curl).unwrap();
    assert_eq!(req.method, HttpMethod::GET);
    assert_eq!(req.url, "https://api.example.com/users");
}

#[test]
fn test_post_with_data() {
    let curl = r#"curl -X POST https://api.example.com/users -H "Content-Type: application/json" -d '{"name":"test"}'"#;
    let req = parse_curl(curl).unwrap();
    assert_eq!(req.method, HttpMethod::POST);
    assert_eq!(req.url, "https://api.example.com/users");
    assert_eq!(req.headers.len(), 1);
    assert_eq!(req.body, Some(r#"{"name":"test"}"#.to_string()));
}

#[test]
fn test_basic_auth() {
    let curl = "curl -u admin:secret https://api.example.com/users";
    let req = parse_curl(curl).unwrap();
    assert_eq!(req.headers.len(), 1);
    assert_eq!(req.headers[0].0, "Authorization");
    assert!(req.headers[0].1.starts_with("Basic "));
}

#[test]
fn test_user_agent() {
    let curl = r#"curl -A "Mozilla/5.0" https://example.com"#;
    let req = parse_curl(curl).unwrap();
    assert_eq!(req.headers.len(), 1);
    assert_eq!(
        req.headers[0],
        ("User-Agent".to_string(), "Mozilla/5.0".to_string())
    );
}

#[test]
fn test_cookie() {
    let curl = r#"curl -b "session=abc123" https://example.com"#;
    let req = parse_curl(curl).unwrap();
    assert_eq!(req.headers.len(), 1);
    assert_eq!(
        req.headers[0],
        ("Cookie".to_string(), "session=abc123".to_string())
    );
}

#[test]
fn test_head_request() {
    let curl = "curl -I https://example.com";
    let req = parse_curl(curl).unwrap();
    assert_eq!(req.method, HttpMethod::HEAD);
}

#[test]
fn test_json_flag() {
    let curl = r#"curl --json '{"key":"value"}' https://api.example.com"#;
    let req = parse_curl(curl).unwrap();
    assert_eq!(req.method, HttpMethod::POST);
    assert_eq!(req.body, Some(r#"{"key":"value"}"#.to_string()));
    assert!(req
        .headers
        .iter()
        .any(|(k, v)| k == "Content-Type" && v == "application/json"));
}

#[test]
fn test_proxy_flags() {
    let curl = "curl -v -p -x http://proxy.example.com:8080 https://httpbin.org/get";
    let req = parse_curl(curl).unwrap();
    assert_eq!(req.method, HttpMethod::GET);
    assert_eq!(req.url, "https://httpbin.org/get");
}

#[test]
fn curl_reader_basic_credentials_are_base64_of_the_whole_argument() {
    let req = parse_curl("curl -u admin:secret https://example.com").unwrap();
    assert_eq!(req.headers[0].1, "Basic YWRtaW46c2VjcmV0");
}

#[test]
fn curl_reader_method_is_read_in_upper_case() {
    let req = parse_curl("curl -X put https://example.com").unwrap();
    assert_eq!(req.method, HttpMethod::PUT);
    let req = parse_curl("curl -X BOGUS https://example.com").unwrap();
    assert_eq!(req.method, HttpMethod::GET);
}

#[test]
fn curl_reader_without_url_is_an_error() {
    let err = parse_curl("curl -H 'A: b'").unwrap_err();
    assert_eq!(err, "No URL found in cURL command");
    assert!(parse_curl("").is_err());
}

#[test]
fn curl_reader_get_after_data_keeps_body() {
    let req = parse_curl("curl -d x=1 -G https://example.com").unwrap();
    assert_eq!(req.method, HttpMethod::GET);
    assert_eq!(req.body, Some("x=1".to_string()));
}

#[test]
fn curl_reader_first_plain_argument_is_the_url() {
    let req = parse_curl("curl https://a.example https://b.example").unwrap();
    assert_eq!(req.url, "https://a.example");
}

#[test]
fn curl_reader_backslash_in_quotes_takes_next_character() {
    let req = parse_curl(r#"curl -d "a\"b" https://example.com"#).unwrap();
    assert_eq!(req.body, Some("a\"b".to_string()));
}

#[test]
fn curl_reader_header_without_colon_is_dropped() {
    let req = parse_curl("curl -H nocolon https://example.com").unwrap();
    assert!(req.headers.is_empty());
    let req = parse_curl("curl -H ' X-A :  1 ' https://example.com").unwrap();
    assert_eq!(req.headers[0], ("X-A".to_string(), "1".to_string()));
}
