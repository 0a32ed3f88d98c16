use mercury::http::{
    body_text, build_response, content_type_of, detect_response_type,
    error_message, extract_cookies, format_json, format_xml, too_large_to_download, ResponseType,
    MAX_INLINE_SIZE, MAX_RESPONSE_SIZE,
};

#[test]
fn detects_by_content_type() {
    assert_eq!(detect_response_type("application/json", b"{}", 200), ResponseType::Json);
    assert_eq!(detect_response_type("application/vnd+json", b"{}", 200), ResponseType::Json);
    assert_eq!(detect_response_type("application/xml", b"<a/>", 200), ResponseType::Xml);
    assert_eq!(detect_response_type("text/html", b"<html>", 200), ResponseType::Html);
    assert_eq!(detect_response_type("text/plain", b"hi", 200), ResponseType::PlainText);
    assert_eq!(detect_response_type("image/png", b"\x89PNG", 200), ResponseType::Image);
    assert_eq!(detect_response_type("image/svg+xml", b"<svg/>", 200), ResponseType::Xml);
    assert_eq!(detect_response_type("application/pdf", b"%PDF", 200), ResponseType::Binary);
    assert_eq!(detect_response_type("application/octet-stream", b"\0", 200), ResponseType::Binary);
}

#[test]
fn detects_empty() {
    assert_eq!(detect_response_type("application/json", b"", 200), ResponseType::Empty);
    assert_eq!(detect_response_type("", b"x", 204), ResponseType::Empty);
}

#[test]
fn sniffs_without_content_type() {
    assert_eq!(detect_response_type("", b"{\"k\":1}", 200), ResponseType::Json);
    assert_eq!(detect_response_type("", b"<root/>", 200), ResponseType::Xml);
    assert_eq!(detect_response_type("", b"<!DOCTYPE html><html>", 200), ResponseType::Html);
    assert_eq!(detect_response_type("", b"hello", 200), ResponseType::PlainText);
    assert_eq!(detect_response_type("", b"\xff\xfe", 200), ResponseType::Binary);
}

#[test]
fn size_limits() {
    let big = vec![b'a'; MAX_INLINE_SIZE + 1];
    assert_eq!(detect_response_type("application/json", &big, 200), ResponseType::LargeText);
    assert_eq!(detect_response_type("image/svg+xml", &big, 200), ResponseType::LargeText);
    assert_eq!(detect_response_type("image/jpeg", &big, 200), ResponseType::Image);
    assert_eq!(detect_response_type("application/json", &[b'{'; 100], 200), ResponseType::Json);
}

#[test]
fn cookies_are_case_insensitive() {
    let h = vec![
        ("set-cookie".to_string(), "a=1".to_string()),
        ("Content-Type".to_string(), "x".to_string()),
        ("SET-COOKIE".to_string(), "b=2; HttpOnly".to_string()),
    ];
    assert_eq!(extract_cookies(&h), vec!["a=1", "b=2; HttpOnly"]);
}

#[test]
fn formats() {
    assert_eq!(format_json("{\"a\":1}"), "{\n  \"a\": 1\n}");
    assert_eq!(format_json("not json"), "not json");
    assert_eq!(format_xml("<r><i>t</i></r>"), "<r>\n  <i>t\n  </i>\n</r>");
}

#[test]
fn xml_declarations_and_self_closing_tags_do_not_indent() {
    assert_eq!(format_xml("<?xml v?><a><b/><c>x</c></a>"), "<?xml v?>\n<a>\n  <b/>\n  <c>x\n  </c>\n</a>");
    assert_eq!(format_xml("</x></y>text"), "</x>\n</y>text");
}

#[test]
fn content_type_is_the_first_matching_header() {
    let h = vec![
        ("X".to_string(), "1".to_string()),
        ("content-TYPE".to_string(), "text/plain".to_string()),
        ("Content-Type".to_string(), "application/json".to_string()),
    ];
    assert_eq!(content_type_of(&h), "text/plain");
    assert_eq!(content_type_of(&[]), "");
}

#[test]
fn binary_bodies_are_described_not_shown() {
    assert_eq!(body_text(ResponseType::Image, &[1, 2, 3]), "[Binary data: 3 bytes]");
    assert_eq!(body_text(ResponseType::Binary, &[0; 1024]), "[Binary data: 1024 bytes]");
    assert_eq!(body_text(ResponseType::TooLarge, b"abc"), "");
    assert_eq!(body_text(ResponseType::Json, b"{\"a\":1}"), "{\"a\":1}");
    assert_eq!(body_text(ResponseType::PlainText, b"a\xffb"), "a\u{fffd}b");
}

#[test]
fn declared_length_decides_download() {
    assert!(!too_large_to_download(None));
    assert!(!too_large_to_download(Some(MAX_RESPONSE_SIZE as u64)));
    assert!(too_large_to_download(Some(MAX_RESPONSE_SIZE as u64 + 1)));
}

#[test]
fn error_messages_by_kind() {
    assert_eq!(error_message("x", true, false, false), "Request timed out after 30s");
    assert_eq!(error_message("bad TLS handshake", false, true, false), "SSL/TLS error: bad TLS handshake");
    assert_eq!(error_message("refused", false, true, false), "Connection failed: refused");
    assert_eq!(error_message("no scheme", false, false, true), "Invalid URL: no scheme");
    assert_eq!(error_message("other", false, false, false), "Request failed: other");
}

#[test]
fn responses_are_assembled_from_what_was_received() {
    let headers = vec![
        ("Content-Type".to_string(), "image/png".to_string()),
        ("Set-Cookie".to_string(), "a=1".to_string()),
    ];
    let r = build_response(200, "200 OK".to_string(), headers.clone(), Some(vec![1, 2]), 0, 7);
    assert_eq!(r.response_type, ResponseType::Image);
    assert_eq!(r.body, "[Binary data: 2 bytes]");
    assert_eq!(r.raw_bytes, Some(vec![1, 2]));
    assert_eq!(r.cookies, vec!["a=1".to_string()]);
    assert_eq!(r.content_type, "image/png");
    assert_eq!(r.size_bytes, 2);
    assert_eq!(r.duration_ms, 7);

    let r = build_response(200, "200 OK".to_string(), headers, None, 99_999_999, 1);
    assert_eq!(r.response_type, ResponseType::TooLarge);
    assert_eq!(r.size_bytes, 99_999_999);
    assert_eq!(r.body, "");
    assert!(r.raw_bytes.is_none());
}

#[test]
fn sniffing_a_long_markup_body_reads_whole_characters() {
    let mut body = vec![b'<'];
    body.extend(std::iter::repeat(b'a').take(510));
    body.extend("é".as_bytes());
    assert_eq!(detect_response_type("", &body, 200), ResponseType::Xml);
    let mut html = vec![b'<'];
    html.extend(std::iter::repeat(b'a').take(505));
    html.extend("<html".as_bytes());
    assert_eq!(detect_response_type("", &html, 200), ResponseType::Html);
    assert_eq!(detect_response_type("text/plain", &body, 200), ResponseType::PlainText);
}

#[test]
fn cookie_pairs_take_name_and_value_before_attributes() {
    let cookies = vec![
        "sid=abc; Path=/; HttpOnly".to_string(),
        "flag".to_string(),
        "t=a=b".to_string(),
    ];
    assert_eq!(
        mercury::http::cookie_pairs(&cookies),
        vec![("sid".to_string(), "abc".to_string()), ("t".to_string(), "a=b".to_string())]
    );
}
