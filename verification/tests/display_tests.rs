use mercury::components::{parse_text_to_rows, rows_to_text, KeyValueRow};
use mercury::display::{
    content_kind, extension_for, format_bytes, get_content_type_info,
    get_extension_for_content_type, truncate,
};

#[test]
fn test_extension_for_json() {
    assert_eq!(get_extension_for_content_type("application/json"), ".json");
}

#[test]
fn test_extension_for_xml() {
    assert_eq!(get_extension_for_content_type("application/xml"), ".xml");
    assert_eq!(get_extension_for_content_type("text/xml"), ".xml");
}

#[test]
fn test_extension_for_html() {
    assert_eq!(get_extension_for_content_type("text/html"), ".html");
}

#[test]
fn test_extension_for_images() {
    assert_eq!(get_extension_for_content_type("image/jpeg"), ".jpg");
    assert_eq!(get_extension_for_content_type("image/png"), ".png");
    assert_eq!(get_extension_for_content_type("image/gif"), ".gif");
    assert_eq!(get_extension_for_content_type("image/webp"), ".webp");
    assert_eq!(get_extension_for_content_type("image/svg+xml"), ".svg");
}

#[test]
fn test_extension_for_pdf() {
    assert_eq!(get_extension_for_content_type("application/pdf"), ".pdf");
}

#[test]
fn test_extension_for_plain_text() {
    assert_eq!(get_extension_for_content_type("text/plain"), ".txt");
}

#[test]
fn test_extension_for_css_js() {
    assert_eq!(get_extension_for_content_type("text/css"), ".css");
    assert_eq!(get_extension_for_content_type("application/javascript"), ".js");
    assert_eq!(get_extension_for_content_type("text/javascript"), ".js");
}

#[test]
fn test_extension_for_unknown() {
    assert_eq!(get_extension_for_content_type("application/octet-stream"), ".bin");
    assert_eq!(get_extension_for_content_type("some/unknown"), ".bin");
    assert_eq!(get_extension_for_content_type(""), ".bin");
}

#[test]
fn test_format_bytes() {
    assert_eq!(format_bytes(500), "500 bytes");
    assert_eq!(format_bytes(1024), "1.0 KB");
    assert_eq!(format_bytes(2048), "2.0 KB");
    assert_eq!(format_bytes(1_048_576), "1.0 MB");
    assert_eq!(format_bytes(5_242_880), "5.0 MB");
}

#[test]
fn format_bytes_rounds_like_one_decimal_formatting() {
    // 1.25 KB is a tie and rounds to the even tenth, 1.35 is not exact
    assert_eq!(format_bytes(1280), "1.2 KB");
    assert_eq!(format_bytes(1382), "1.3 KB");
    assert_eq!(format_bytes(1023), "1023 bytes");
    assert_eq!(format_bytes(1_048_575), "1024.0 KB");
    for b in [1000usize, 1536, 10_000, 123_456, 9_999_999, 50_000_000] {
        let f = b as f64;
        let expected = if b >= 1024 * 1024 {
            format!("{:.1} MB", f / 1024.0 / 1024.0)
        } else if b >= 1024 {
            format!("{:.1} KB", f / 1024.0)
        } else {
            format!("{b} bytes")
        };
        assert_eq!(format_bytes(b), expected);
    }
}

#[test]
fn test_parse_text_to_rows_space_preservation() {
    let rows = parse_text_to_rows("Key: Value", ":");
    assert_eq!(rows[0].key, "Key");
    assert_eq!(rows[0].value, " Value");

    let rows = parse_text_to_rows("Key: Value   ", ":");
    assert_eq!(rows[0].key, "Key");
    assert_eq!(rows[0].value, " Value   ");

    let rows = parse_text_to_rows("  Key  : Value", ":");
    assert_eq!(rows[0].key, "Key");
    assert_eq!(rows[0].value, " Value");

    let rows = parse_text_to_rows("# Key: Value   ", ":");
    assert!(!rows[0].enabled);
    assert_eq!(rows[0].key, "Key");
    assert_eq!(rows[0].value, " Value   ");

    let rows = parse_text_to_rows("Key:   ", ":");
    assert_eq!(rows[0].key, "Key");
    assert_eq!(rows[0].value, "   ");
}

#[test]
fn rows_round_trip_through_text() {
    let rows = vec![
        KeyValueRow::new(true, "a".into(), "1".into()),
        KeyValueRow::new(false, "b".into(), "2".into()),
        KeyValueRow::new(true, String::new(), String::new()),
        KeyValueRow::new(true, "flag".into(), String::new()),
    ];
    let text = rows_to_text(&rows, "=");
    assert_eq!(text, "a=1\n# b=2\nflag");
    assert_eq!(parse_text_to_rows(&text, "="), vec![rows[0].clone(), rows[1].clone(), rows[3].clone()]);
    assert!(!parse_text_to_rows("## x=1", "=")[0].enabled);
    assert_eq!(parse_text_to_rows("## x=1", "=")[0].key, "x");
}

#[test]
fn truncate_is_char_safe() {
    assert_eq!(truncate("short", 10), "short");
    assert_eq!(truncate("héllo wörld", 5), "héll…");
    assert_eq!(truncate("日本語のURL", 3), "日本…");
}

#[test]
fn extensions() {
    assert_eq!(extension_for("application/json; charset=utf-8"), ".json");
    assert_eq!(extension_for("text/xml"), ".xml");
    assert_eq!(extension_for("image/svg+xml"), ".svg");
    assert_eq!(extension_for("image/JPEG"), ".jpg");
    assert_eq!(extension_for("text/javascript"), ".js");
    assert_eq!(extension_for("application/octet-stream"), ".bin");
    assert_eq!(extension_for(""), ".bin");
}

#[test]
fn binary_content_labels() {
    assert_eq!(content_kind("image/png").1, "Image Content");
    assert_eq!(content_kind("application/x-tar").1, "Archive File");
    assert_eq!(content_kind("application/octet-stream").1, "Binary Content");
    assert_eq!(get_content_type_info("application/octet-stream").1, "Binary Data");
    assert_eq!(get_content_type_info("Application/PDF").1, "PDF Document");
}

#[test]
fn header_rows_round_trip_with_two_character_separator() {
    let rows = vec![
        KeyValueRow::new(true, "Content-Type".to_string(), "application/json".to_string()),
        KeyValueRow::new(false, "X-Token".to_string(), "a: b".to_string()),
        KeyValueRow::new(true, "Accept".to_string(), String::new()),
    ];
    let text = rows_to_text(&rows, ": ");
    assert_eq!(text, "Content-Type: application/json\n# X-Token: a: b\nAccept");
    assert_eq!(parse_text_to_rows(&text, ": "), rows);
}

#[test]
fn header_text_reads_and_writes_back_unchanged() {
    let text = "Content-Type: application/json\n# X-Token: a: b\nAccept\nX-Empty";
    let rows = parse_text_to_rows(text, ": ");
    assert_eq!(rows.len(), 4);
    assert_eq!(rows_to_text(&rows, ": "), text);
}
