use mercury::curl::{generate, parse};
use mercury::kv::basic_auth;
use mercury::model::{HeaderMap, HttpMethod};

#[test]
fn simple_get() {
    let r = parse("curl https://api.example.com/users").unwrap();
    assert_eq!(r.method, HttpMethod::GET);
    assert_eq!(r.url, "https://api.example.com/users");
}

#[test]
fn post_with_header_and_data() {
    let r = parse(r#"curl -X POST https://a.com -H "Content-Type: application/json" -d '{"name":"test"}'"#).unwrap();
    assert_eq!(r.method, HttpMethod::POST);
    assert_eq!(
        r.headers,
        vec![("Content-Type".to_string(), "application/json".to_string())]
    );
    assert_eq!(r.body.as_deref(), Some(r#"{"name":"test"}"#));
}

#[test]
fn data_implies_post_and_json_adds_content_type() {
    let r = parse(r#"curl --json '{"k":"v"}' https://a.com"#).unwrap();
    assert_eq!(r.method, HttpMethod::POST);
    assert!(r.headers.iter().any(|(k, _)| k == "Content-Type"));
}

#[test]
fn user_agent_cookie_basic_auth_head() {
    let r = parse(&format!(
        r#"curl -A "Mozilla/5.0" -b "s=1" -u {} -I https://a.com"#,
        "u:p"
    ))
    .unwrap();
    assert_eq!(r.method, HttpMethod::HEAD);
    assert_eq!(r.headers[0], ("User-Agent".to_string(), "Mozilla/5.0".to_string()));
    assert_eq!(r.headers[1], ("Cookie".to_string(), "s=1".to_string()));
    assert_eq!(r.headers[2].1, basic_auth("u", "p"));
}

#[test]
fn ignores_flags_and_their_arguments() {
    let r = parse("curl -v -s -x http://proxy:8080 -L https://httpbin.org/get").unwrap();
    assert_eq!(r.url, "https://httpbin.org/get");
}

#[test]
fn multiline_with_continuations() {
    let r = parse("curl -X PUT \\\n  'https://a.com/1' \\\n  -H 'A: b'").unwrap();
    assert_eq!(r.method, HttpMethod::PUT);
    assert_eq!(r.url, "https://a.com/1");
    assert_eq!(r.headers.len(), 1);
}

#[test]
fn single_quotes_are_literal() {
    let r = parse(r#"curl 'https://a.com' --data-raw '{"a":"b\"c"}'"#).unwrap();
    assert_eq!(r.body.as_deref(), Some(r#"{"a":"b\"c"}"#));
}

#[test]
fn missing_url_is_error() {
    assert!(parse("curl -X POST").is_err());
}

#[test]
fn generate_quotes_and_roundtrips() {
    let mut h = HeaderMap::new();
    h.insert("A".to_string(), "it's".to_string());
    let cmd = generate(HttpMethod::POST, "https://a.com/?q=1&x=2", &h, "{\"a\":'b'}");
    let back = parse(&cmd).unwrap();
    assert_eq!(back.method, HttpMethod::POST);
    assert_eq!(back.url, "https://a.com/?q=1&x=2");
    assert_eq!(back.headers, vec![("A".to_string(), "it's".to_string())]);
    assert_eq!(back.body.as_deref(), Some("{\"a\":'b'}"));
}

#[test]
fn missing_url_error_message() {
    assert_eq!(
        parse("curl -H 'A: b'").unwrap_err(),
        "Invalid cURL command: no URL found"
    );
}

#[test]
fn generate_get_without_body_has_no_method_flag() {
    let h = HeaderMap::new();
    let cmd = generate(HttpMethod::GET, "https://a.com", &h, "");
    let back = parse(&cmd).unwrap();
    assert_eq!(back.method, HttpMethod::GET);
    assert_eq!(back.url, "https://a.com");
    assert!(back.headers.is_empty());
    assert!(back.body.is_none());
}
