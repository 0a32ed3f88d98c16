use mercury::http_parser::{parse_http_file, HttpMethod};

#[test]
fn http_parser_test_parse_simple_get() {
    let content = "GET https://api.example.com/users";
    let request = parse_http_file(content).unwrap();

    assert!(matches!(request.method, HttpMethod::GET));
    assert_eq!(request.url, "https://api.example.com/users");
    assert!(request.headers.is_empty());
    assert!(request.body.is_none());
}

#[test]
fn test_parse_with_headers() {
    let content = r#"POST https://api.example.com/users
Authorization: Bearer token123
Content-Type: application/json

{"name": "John"}"#;

    let request = parse_http_file(content).unwrap();

    assert!(matches!(request.method, HttpMethod::POST));
    assert_eq!(request.url, "https://api.example.com/users");
    assert_eq!(request.headers.get("Authorization"), Some(&"Bearer token123".to_string()));
    assert_eq!(request.headers.get("Content-Type"), Some(&"application/json".to_string()));
    assert_eq!(request.body, Some(r#"{"name": "John"}"#.to_string()));
}

#[test]
fn test_parse_url_with_spaces() {
    let content = "GET {{ base_url }}/users";
    let request = parse_http_file(content).unwrap();

    assert!(matches!(request.method, HttpMethod::GET));
    assert_eq!(request.url, "{{ base_url }}/users");
}

#[test]
fn test_parse_connect_method() {
    let content = "CONNECT example.com:443";
    let request = parse_http_file(content).unwrap();
    assert!(matches!(request.method, HttpMethod::CONNECT));
    assert_eq!(request.url, "example.com:443");
}

#[test]
fn test_parse_trace_method() {
    let content = "TRACE https://api.example.com/users";
    let request = parse_http_file(content).unwrap();
    assert!(matches!(request.method, HttpMethod::TRACE));
    assert_eq!(request.url, "https://api.example.com/users");
}

#[test]
fn http_file_errors() {
    assert_eq!(parse_http_file("").unwrap_err(), "Empty file");
    assert_eq!(
        parse_http_file("GET").unwrap_err(),
        "Invalid first line. Expected: METHOD URL"
    );
    assert_eq!(parse_http_file("FETCH x").unwrap_err(), "Invalid HTTP method: FETCH");
}

#[test]
fn http_file_body_keeps_blank_lines_and_methods_ignore_case() {
    let r = parse_http_file("post u\nA: 1\nB: 2\nA: 3\n\nline1\n\nline2").unwrap();
    assert_eq!(r.method, HttpMethod::POST);
    assert_eq!(r.headers.len(), 2);
    assert_eq!(r.headers.get("A").unwrap(), "3");
    assert_eq!(r.body.as_deref(), Some("line1\n\nline2"));
    assert_eq!(HttpMethod::from_str("Delete"), Some(HttpMethod::DELETE));
    assert_eq!(HttpMethod::PATCH.as_str(), "PATCH");
}

#[test]
fn lines_after_the_first_blank_line_are_body_even_with_colons() {
    let content = "PUT http://x\nA: 1\n\nB: 2\n\nlast";
    let request = parse_http_file(content).unwrap();
    assert_eq!(request.headers.len(), 1);
    assert_eq!(request.headers.get("A"), Some(&"1".to_string()));
    assert_eq!(request.body, Some("B: 2\n\nlast".to_string()));
}

#[test]
fn no_blank_line_means_no_body() {
    let request = parse_http_file("GET http://x\nA: 1\nnot a header").unwrap();
    assert_eq!(request.headers.len(), 1);
    assert!(request.body.is_none());
}

#[test]
fn blank_line_at_the_end_gives_no_body() {
    let request = parse_http_file("GET http://x\nA: 1\n   ").unwrap();
    assert!(request.body.is_none());
}
