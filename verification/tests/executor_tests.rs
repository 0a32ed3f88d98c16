use mercury::postman_importer::{reconstruct_url, PostmanQueryParam, PostmanUrl};
use mercury::request_executor::{
    detect_response_type, format_request_error, format_xml, get_content_type, ResponseType,
};

#[test]
fn test_detect_json() {
    let body = b"{\"key\": \"value\"}";
    let result = detect_response_type("application/json", body, 200);
    assert_eq!(result, ResponseType::Json);
}

#[test]
fn test_detect_xml() {
    let body = b"<root><item>test</item></root>";
    let result = detect_response_type("application/xml", body, 200);
    assert_eq!(result, ResponseType::Xml);
}

#[test]
fn test_detect_html() {
    let body = b"<!DOCTYPE html><html><body>Test</body></html>";
    let result = detect_response_type("text/html", body, 200);
    assert_eq!(result, ResponseType::Html);
}

#[test]
fn test_detect_empty() {
    let body = b"";
    let result = detect_response_type("application/json", body, 204);
    assert_eq!(result, ResponseType::Empty);
}

#[test]
fn test_detect_binary() {
    let body = b"\x00\x01\x02\x03";
    let result = detect_response_type("application/octet-stream", body, 200);
    assert_eq!(result, ResponseType::Binary);
}

#[test]
fn test_format_xml() {
    let xml = "<root><item>test</item></root>";
    let formatted = format_xml(xml);
    assert!(formatted.contains('\n'));
    assert!(formatted.contains("  "));
}

#[test]
fn test_sniff_json_without_content_type() {
    let body = b"{\"key\": \"value\"}";
    let result = detect_response_type("", body, 200);
    assert_eq!(result, ResponseType::Json);
}

#[test]
fn test_sniff_xml_without_content_type() {
    let body = b"<root>test</root>";
    let result = detect_response_type("", body, 200);
    assert_eq!(result, ResponseType::Xml);
}

#[test]
fn images_keep_their_bytes_and_large_text_comes_first() {
    assert_eq!(detect_response_type("image/png", &[1, 2, 3], 200), ResponseType::Image(vec![1, 2, 3]));
    let big = vec![b'a'; 100 * 1024 + 1];
    assert_eq!(detect_response_type("image/png", &big, 200), ResponseType::LargeText);
    let html = b"  <p>Hi</p><HTML>  ";
    assert_eq!(detect_response_type("", html, 200), ResponseType::Html);
}

#[test]
fn executor_content_type_and_errors() {
    let h = vec![("CONTENT-TYPE".to_string(), "text/x".to_string())];
    assert_eq!(get_content_type(&h), "text/x");
    assert_eq!(format_request_error("e", true, false, false), "Request timed out after 30 seconds");
    assert_eq!(format_request_error("e", false, false, true), "Invalid request: e");
}

#[test]
fn test_url_reconstruction() {
    let url1 = PostmanUrl::Object {
        raw: Some("https://example.com/api/v1".to_string()),
        protocol: None,
        host: vec![],
        path: vec![],
        query: vec![],
    };
    assert_eq!(reconstruct_url(&url1), "https://example.com/api/v1");

    let url2 = PostmanUrl::Object {
        raw: None,
        protocol: Some("https".to_string()),
        host: vec!["api".to_string(), "example".to_string(), "com".to_string()],
        path: vec!["v1".to_string(), "users".to_string()],
        query: vec![],
    };
    assert_eq!(reconstruct_url(&url2), "https://api.example.com/v1/users");

    let url3 = PostmanUrl::Object {
        raw: None,
        protocol: Some("https".to_string()),
        host: vec!["api".to_string(), "example".to_string(), "com".to_string()],
        path: vec!["search".to_string()],
        query: vec![
            PostmanQueryParam { key: "q".to_string(), value: "test".to_string(), disabled: false },
            PostmanQueryParam { key: "limit".to_string(), value: "10".to_string(), disabled: false },
        ],
    };
    assert_eq!(reconstruct_url(&url3), "https://api.example.com/search?q=test&limit=10");
}

#[test]
fn executor_format_json_pretty_prints_or_keeps_text() {
    assert_eq!(
        mercury::request_executor::format_json("{\"a\":[1,2]}"),
        "{\n  \"a\": [\n    1,\n    2\n  ]\n}"
    );
    assert_eq!(mercury::request_executor::format_json("{oops"), "{oops");
}

#[test]
fn executor_large_json_is_large_text() {
    let body = vec![b'{'; 200 * 1024];
    assert_eq!(detect_response_type("application/json", &body, 200), ResponseType::LargeText);
    let body = vec![b'{'; 100 * 1024];
    assert_eq!(detect_response_type("application/json", &body, 200), ResponseType::Json);
}

#[test]
fn executor_and_http_format_xml_agree() {
    let body = "<root><item>test</item></root>";
    assert_eq!(mercury::request_executor::format_xml(body), mercury::http::format_xml(body));
    assert_eq!(mercury::http::format_xml(body), "<root>\n  <item>test\n  </item>\n</root>");
}
