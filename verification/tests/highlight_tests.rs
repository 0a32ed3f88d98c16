use mercury::highlight::{json_spans, xml_spans, Span, Token};

fn runs(spans: &[Span]) -> Vec<(&str, Token)> {
    spans
        .iter()
        .map(|s| (s.text.as_str(), s.token))
        .filter(|(t, _)| !t.trim().is_empty())
        .collect()
}

fn joined(spans: &[Span]) -> String {
    spans.iter().map(|s| s.text.as_str()).collect()
}

#[test]
fn json_highlight_keys_strings_and_escapes() {
    let text = r#"{"k": "a\"b", "n": [1, "s"], "t": true}"#;
    let spans = json_spans(text);
    assert_eq!(joined(&spans), text);
    let r = runs(&spans);
    assert!(r.contains(&("\"k\"", Token::Key)));
    assert!(r.contains(&("\"a\\\"b\"", Token::Str)));
    assert!(r.contains(&("\"s\"", Token::Str)), "array items are values");
    assert!(r.contains(&("1", Token::Word)));
    assert!(r.contains(&("true", Token::Word)));
}

#[test]
fn json_highlight_passes_plain_text_through() {
    let spans = json_spans("hello {{name}}");
    assert_eq!(joined(&spans), "hello {{name}}");
    assert_eq!(spans.len(), 1);
    assert_eq!(spans[0].token, Token::Plain);
    assert!(json_spans("").is_empty());
}

#[test]
fn json_unterminated_string_is_a_string() {
    let spans = json_spans("[\"open");
    assert_eq!(runs(&spans), vec![("[", Token::Punct), ("\"open", Token::Str)]);
}

#[test]
fn xml_highlight_keeps_text() {
    let text = "<?xml?><a href=\"x>y\">t</a>";
    let spans = xml_spans(text);
    assert_eq!(joined(&spans), text);
    let r = runs(&spans);
    assert!(r.contains(&("<a href=\"x>y\">", Token::Tag)));
    assert!(r.contains(&("<?xml?>", Token::Declaration)));
    assert!(r.contains(&("t", Token::Plain)));
}
