use mercury::components::{json_layout_job, json_syntax_highlight, xml_syntax_highlight, Part, Piece};

fn parts(ps: &[Piece]) -> Vec<(String, Part)> {
    ps.iter().map(|p| (p.text.clone(), p.part)).collect()
}

fn p(t: &str, part: Part) -> (String, Part) {
    (t.to_string(), part)
}

#[test]
fn plain_json_highlight_draws_separators_at_once() {
    let got = parts(&json_syntax_highlight("{\"a\": 1, \"b\": [true]}"));
    let want = vec![
        p("{", Part::Bracket),
        p("\"a\"", Part::Key),
        p(":", Part::Separator),
        p(" ", Part::Space),
        p(",", Part::Separator),
        p("1", Part::Value),
        p(" ", Part::Space),
        p("\"b\"", Part::Key),
        p(":", Part::Separator),
        p(" ", Part::Space),
        p("[", Part::Bracket),
        p("true", Part::Bool),
        p("]", Part::Bracket),
        p("}", Part::Bracket),
    ];
    assert_eq!(got, want);
}

#[test]
fn layout_json_highlight_flushes_before_commas() {
    let got = parts(&json_layout_job("{\"a\": 1, \"b\": [true]}"));
    let want = vec![
        p("{", Part::Bracket),
        p("\"a\"", Part::Key),
        p(":", Part::Separator),
        p(" ", Part::Space),
        p("1", Part::Value),
        p(",", Part::Separator),
        p(" ", Part::Space),
        p("\"b\"", Part::Key),
        p(":", Part::Separator),
        p(" ", Part::Space),
        p("[", Part::Bracket),
        p("true", Part::Bool),
        p("]", Part::Bracket),
        p("}", Part::Bracket),
    ];
    assert_eq!(got, want);
}

#[test]
fn layout_json_highlight_keeps_escaped_quotes_in_strings() {
    let got = parts(&json_layout_job("[\"a\\\"b\"]"));
    assert_eq!(
        got,
        vec![p("[", Part::Bracket), p("\"a\\\"b\"", Part::Str), p("]", Part::Bracket)]
    );
}

#[test]
fn layout_json_highlight_leaves_other_text_plain() {
    assert_eq!(parts(&json_layout_job("hello {")), vec![p("hello {", Part::Text)]);
    assert_eq!(parts(&json_layout_job("")), vec![p("", Part::Text)]);
}

#[test]
fn xml_highlight_tags_declarations_and_text() {
    let got = parts(&xml_syntax_highlight(
        "<?xml v=\"1\"?><a href=\"x>y\">t</a><!-- c -->",
    ));
    let want = vec![
        p("<?xml v=\"1\"?>", Part::Meta),
        p("<a href=\"x>y\">", Part::Tag),
        p("t", Part::Text),
        p("</a>", Part::Tag),
        p("<!-- c -->", Part::Meta),
    ];
    assert_eq!(got, want);
    assert_eq!(parts(&xml_syntax_highlight("x<b")), vec![p("x", Part::Text), p("<b", Part::Tag)]);
}

#[test]
fn json_highlight_names_booleans_and_null() {
    let got = parts(&json_layout_job("[null, false, 3, x]"));
    assert_eq!(
        got,
        vec![
            p("[", Part::Bracket),
            p("null", Part::Null),
            p(",", Part::Separator),
            p(" ", Part::Space),
            p("false", Part::Bool),
            p(",", Part::Separator),
            p(" ", Part::Space),
            p("3", Part::Value),
            p(",", Part::Separator),
            p(" ", Part::Space),
            p("x", Part::Value),
            p("]", Part::Bracket),
        ]
    );
    assert_eq!(mercury::highlight::json_literal("null"), mercury::highlight::Literal::Null);
    assert_eq!(mercury::highlight::json_literal("truth"), mercury::highlight::Literal::Other);
}

#[test]
fn layout_pieces_read_back_as_the_text() {
    for text in ["{\"a\": [1, true, null], \"b\": \"x\\\"y\"}", "plain text", "  [ 1 ,2 ]"] {
        let joined: String = json_layout_job(text).iter().map(|p| p.text.as_str()).collect();
        assert_eq!(joined, text);
    }
}
