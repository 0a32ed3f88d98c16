use mercury::kv::{
    auth_mode, auth_value, basic_auth, bearer_token, build_url, count_enabled, decode_basic,
    format_lines, headers_to_map, parse_lines, parse_query_params, set_auth, url_decode,
    url_encode, AuthMode, KeyValue,
};

#[test]
fn parse_lines_preserves_value_spaces_and_disabled_rows() {
    let rows = parse_lines("  Key  : Value   \n# Off: x\nflag", ":");
    assert_eq!(rows[0].key, "Key");
    assert_eq!(rows[0].value, " Value   ");
    assert!(!rows[1].enabled);
    assert_eq!(rows[1].key, "Off");
    assert_eq!(rows[2], KeyValue::new("flag", ""));
    assert_eq!(parse_lines("Key:   ", ":")[0].value, "   ");
}

#[test]
fn format_lines_is_inverse_of_parse() {
    let text = "a=1\n# b=2\nflag";
    assert_eq!(format_lines(&parse_lines(text, "="), "="), text);
}

#[test]
fn headers_to_map_skips_disabled_and_colonless_lines() {
    let m = headers_to_map("A: 1\n# B: 2\nnocolon\n  C :  3  \n");
    assert_eq!(m.len(), 2);
    assert_eq!(m.get("A").unwrap(), "1");
    assert_eq!(m.get("C").unwrap(), "3");
}

#[test]
fn count_enabled_ignores_disabled_and_empty_keys() {
    let rows = parse_lines("H: V\n# Off: x\nH3: V3", ":");
    assert_eq!(count_enabled(&rows), 2);
    assert_eq!(count_enabled(&[KeyValue::new("", "v")]), 0);
}

#[test]
fn auth_mode_and_values_come_from_header_text() {
    let h = "Content-Type: a\nAuthorization: Basic dXNlcjpwYXNz";
    assert_eq!(auth_mode(h), AuthMode::Basic);
    assert_eq!(
        decode_basic(&auth_value(h).unwrap()),
        ("user".to_string(), "pass".to_string())
    );

    assert_eq!(auth_mode("authorization: Bearer t"), AuthMode::Bearer);
    assert_eq!(bearer_token("Bearer Bearer Token"), "Bearer Token");
    assert_eq!(bearer_token("Bearer "), "");
    assert_eq!(auth_mode("Authorization: ApiKey x"), AuthMode::Custom);
    assert_eq!(auth_mode("Authorization: "), AuthMode::Custom);
    assert_eq!(auth_mode("Accept: */*"), AuthMode::NoAuth);
    let h = "# Authorization: Bearer old\nAuthorization: Bearer new";
    assert_eq!(bearer_token(&auth_value(h).unwrap()), "new");
}

#[test]
fn auth_value_keeps_trailing_spaces_while_typing() {
    assert_eq!(auth_value("Authorization: Digest ").as_deref(), Some("Digest "));
}

#[test]
fn set_auth_adds_replaces_and_removes() {
    let h = set_auth("A: 1", Some("Bearer x"));
    assert_eq!(h, "A: 1\nAuthorization: Bearer x");
    let h = set_auth("authorization: Old\nB: 2", Some("New"));
    assert_eq!(h, "Authorization: New\nB: 2");
    assert_eq!(set_auth("Authorization: x\nB: 2", None), "B: 2");
    assert_eq!(
        set_auth("# Authorization: a", Some("b")),
        "# Authorization: a\nAuthorization: b"
    );
    assert_eq!(auth_mode(&set_auth("", Some(""))), AuthMode::Custom);
}

#[test]
fn basic_auth_encodes() {
    assert_eq!(basic_auth("user", "pass"), "Basic dXNlcjpwYXNz");
    assert_eq!(basic_auth("admin", "1234"), "Basic YWRtaW46MTIzNA==");
}

#[test]
fn query_params_parse() {
    let p = parse_query_params("https://api.com/s?q=test&page=1#frag");
    assert_eq!(p, vec![KeyValue::new("q", "test"), KeyValue::new("page", "1")]);
    assert!(parse_query_params("https://api.com/users").is_empty());
    assert!(parse_query_params("https://api.com?").is_empty());
    assert_eq!(parse_query_params("x?flag&debug")[0], KeyValue::new("flag", ""));
    assert_eq!(parse_query_params("x?tag=a&tag=b").len(), 2);
}

#[test]
fn url_decode_handles_utf8_plus_and_bad_escapes() {
    assert_eq!(url_decode("John%20Doe"), "John Doe");
    assert_eq!(url_decode("New+York"), "New York");
    assert_eq!(url_decode("caf%C3%A9"), "café");
    assert_eq!(url_decode("100%"), "100%");
    assert_eq!(url_decode("%zz"), "%zz");
}

#[test]
fn build_url_encodes_and_keeps_variables() {
    let mut off = KeyValue::new("page", "1");
    off.enabled = false;
    let p = [KeyValue::new("q", "hello world"), off];
    assert_eq!(build_url("https://a.com/s?old=1", &p), "https://a.com/s?q=hello%20world");
    assert_eq!(build_url("https://a.com", &[]), "https://a.com");
    let p = [KeyValue::new("token", "{{API_KEY}}")];
    assert_eq!(build_url("https://a.com", &p), "https://a.com?token={{API_KEY}}");
}

#[test]
fn url_encode_basics() {
    assert_eq!(url_encode("a=b&c=d"), "a%3Db%26c%3Dd");
    assert_eq!(url_encode("é"), "%C3%A9");
    assert_eq!(url_encode("{{id}}/x"), "{{id}}%2Fx");
    assert_eq!(url_encode("{{unclosed"), "%7B%7Bunclosed");
}

#[test]
fn decode_basic_rejects_what_is_not_credentials() {
    assert_eq!(decode_basic("Basic dXNlcjpwYXNz"), ("user".to_string(), "pass".to_string()));
    assert_eq!(decode_basic("Bearer dXNlcjpwYXNz"), (String::new(), String::new()));
    assert_eq!(decode_basic("Basic not base64!"), (String::new(), String::new()));
    // "user" alone has no colon
    assert_eq!(decode_basic("Basic dXNlcg=="), (String::new(), String::new()));
    assert_eq!(decode_basic(&basic_auth("a:b", "c")), ("a".to_string(), "b:c".to_string()));
}

#[test]
fn url_encode_then_decode_gives_back_the_text() {
    for s in ["hello world", "café/ü?x=1&y=2", "a+b%c", "日本"] {
        assert_eq!(url_decode(&url_encode(s)), s);
    }
}

#[test]
fn parse_then_format_keeps_rows() {
    let rows = vec![KeyValue::new("a", "1"), KeyValue::new("flag", "")];
    let text = format_lines(&rows, "=");
    assert_eq!(parse_lines(&text, "="), rows);
}

#[test]
fn auth_value_reads_back_what_set_auth_wrote() {
    let texts = ["", "B: 1", "B: 1\nauthorization: old\nC: 2", "# Authorization: x\r\nD: 4\r\n"];
    for t in texts {
        let written = set_auth(t, Some("  Bearer tok"));
        assert_eq!(auth_value(&written), Some("Bearer tok".to_string()));
    }
}

#[test]
fn query_params_read_back_from_built_url() {
    let rows = vec![
        KeyValue { enabled: true, key: "q".into(), value: "hello world & more=1".into() },
        KeyValue { enabled: false, key: "off".into(), value: "x".into() },
        KeyValue { enabled: true, key: "".into(), value: "no key".into() },
        KeyValue { enabled: true, key: "token".into(), value: "{{API_KEY}}".into() },
        KeyValue { enabled: true, key: "flag".into(), value: "".into() },
        KeyValue { enabled: true, key: "é/ü".into(), value: "100%".into() },
    ];
    let url = build_url("https://api.example.com/search?old=1#frag", &rows);
    let back = parse_query_params(&url);
    let sent: Vec<KeyValue> = rows
        .into_iter()
        .filter(|r| r.enabled && !r.key.is_empty())
        .collect();
    assert_eq!(back, sent);
}

#[test]
fn auth_value_reads_lines_by_character() {
    assert_eq!(auth_value("0123456789abcé"), None);
    assert_eq!(auth_mode("0123456789abcé\nAuthorization: Bearer t"), AuthMode::Bearer);
}

#[test]
fn header_rows_survive_format_then_parse_with_colon_space() {
    let rows = vec![
        KeyValue::new("Authorization", "Bearer a:b"),
        KeyValue { enabled: false, key: "X-Debug".to_string(), value: "on".to_string() },
        KeyValue::new("", ""),
        KeyValue::new("Accept", ""),
    ];
    let text = format_lines(&rows, ": ");
    assert_eq!(text, "Authorization: Bearer a:b\n# X-Debug: on\nAccept");
    assert_eq!(parse_lines(&text, ": "), vec![rows[0].clone(), rows[1].clone(), rows[3].clone()]);
}
