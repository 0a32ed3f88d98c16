//! Splitting JSON and XML text into the runs that syntax highlighting
//! colours. The runs always add up to the text itself.
use crate::text::{chars_of, eq_str, is_whitespace, is_ws, starts_with, starts_with_exec, string_of, trim_start, trim_start_vec};
use vstd::prelude::*;

verus! {

/// What a run of text is.
#[derive(Clone, Copy, Debug, PartialEq, Eq, Structural)]
pub enum Token {
    /// Text outside any structure.
    Plain,
    /// A JSON object key, with its quotes.
    Key,
    /// A JSON string value, with its quotes.
    Str,
    /// JSON punctuation or whitespace.
    Punct,
    /// A bare JSON value (number, `true`, `false`, `null`, or anything else).
    Word,
    /// An XML or HTML tag.
    Tag,
    /// An XML declaration, doctype or comment.
    Declaration,
}

/// A run of text and what it is.
#[derive(Clone, Debug)]
pub struct Span {
    pub text: String,
    pub token: Token,
}

pub open spec fn span_view(s: Span) -> (Seq<char>, Token) {
    (s.text@, s.token)
}

pub open spec fn spans_view(v: Seq<Span>) -> Seq<(Seq<char>, Token)> {
    v.map_values(|s: Span| span_view(s))
}

/// The text of the runs, one after the other.
pub open spec fn concat(runs: Seq<(Seq<char>, Token)>) -> Seq<char>
    decreases runs.len(),
{
    if runs.len() == 0 {
        seq![]
    } else {
        concat(runs.drop_last()) + runs.last().0
    }
}

/// Adds a run, unless it is empty.
pub open spec fn add_run(runs: Seq<(Seq<char>, Token)>, text: Seq<char>, t: Token) -> Seq<
    (Seq<char>, Token),
> {
    if text.len() == 0 {
        runs
    } else {
        runs.push((text, t))
    }
}

proof fn lemma_concat_add(runs: Seq<(Seq<char>, Token)>, text: Seq<char>, t: Token)
    ensures
        concat(add_run(runs, text, t)) == concat(runs) + text,
{
    if text.len() == 0 {
        assert(concat(runs) + text =~= concat(runs));
    } else {
        assert(runs.push((text, t)).drop_last() =~= runs);
    }
}

fn push_run(out: &mut Vec<Span>, text: &Vec<char>, t: Token)
    ensures
        spans_view(final(out)@) == add_run(spans_view(old(out)@), text@, t),
{
    if text.len() > 0 {
        let ghost before = spans_view(out@);
        out.push(Span { text: string_of(text), token: t });
        assert(spans_view(out@) =~= before.push((text@, t)));
    }
}

/// What a bare JSON value reads as, as far as its colour goes: a boolean,
/// `null`, or anything else (a number or other text).
#[derive(Clone, Copy, Debug, PartialEq, Eq, Structural)]
pub enum Literal {
    Bool,
    Null,
    Other,
}

pub open spec fn literal_of(t: Seq<char>) -> Literal {
    if t == "true"@ || t == "false"@ {
        Literal::Bool
    } else if t == "null"@ {
        Literal::Null
    } else {
        Literal::Other
    }
}

pub fn literal_chars(t: &[char]) -> (r: Literal)
    ensures
        r == literal_of(t@),
{
    if eq_str(t, "true") || eq_str(t, "false") {
        Literal::Bool
    } else if eq_str(t, "null") {
        Literal::Null
    } else {
        Literal::Other
    }
}

/// Whether a bare JSON value is a boolean, `null`, or something else.
pub fn json_literal(token: &str) -> (r: Literal)
    ensures
        r == literal_of(token@),
{
    literal_chars(&chars_of(token))
}

// ---------------------------------------------------------------------------
// JSON
// ---------------------------------------------------------------------------

/// The JSON scanner's state: runs so far, the pending token, whether it is
/// inside a string and just after a backslash there, the open containers,
/// and whether the next string is an object key.
pub struct JsonScan {
    pub runs: Seq<(Seq<char>, Token)>,
    pub token: Seq<char>,
    pub in_string: bool,
    pub escaped: bool,
    pub containers: Seq<char>,
    pub is_key: bool,
}

pub open spec fn is_json_punct(c: char) -> bool {
    c == '{' || c == '[' || c == '}' || c == ']' || c == ':' || c == ','
}

pub open spec fn json_step(st: JsonScan, ch: char) -> JsonScan {
    if st.in_string {
        let token = st.token.push(ch);
        if st.escaped {
            JsonScan { token, escaped: false, ..st }
        } else if ch == '\\' {
            JsonScan { token, escaped: true, ..st }
        } else if ch == '"' {
            JsonScan {
                runs: add_run(st.runs, token, if st.is_key { Token::Key } else { Token::Str }),
                token: seq![],
                in_string: false,
                ..st
            }
        } else {
            JsonScan { token, ..st }
        }
    } else if ch == '"' {
        JsonScan {
            runs: add_run(st.runs, st.token, Token::Word),
            token: seq!['"'],
            in_string: true,
            ..st
        }
    } else if is_json_punct(ch) {
        let runs = add_run(st.runs, st.token, Token::Word);
        let containers = if ch == '{' || ch == '[' {
            st.containers.push(ch)
        } else if ch == '}' || ch == ']' {
            if st.containers.len() > 0 {
                st.containers.drop_last()
            } else {
                st.containers
            }
        } else {
            st.containers
        };
        let is_key = if ch == ':' {
            false
        } else {
            containers.len() > 0 && containers.last() == '{'
        };
        JsonScan {
            runs: add_run(runs, seq![ch], Token::Punct),
            token: seq![],
            containers,
            is_key,
            ..st
        }
    } else if is_ws(ch) {
        JsonScan {
            runs: add_run(add_run(st.runs, st.token, Token::Word), seq![ch], Token::Punct),
            token: seq![],
            ..st
        }
    } else {
        JsonScan { token: st.token.push(ch), ..st }
    }
}

pub open spec fn json_run(s: Seq<char>) -> JsonScan
    decreases s.len(),
{
    if s.len() == 0 {
        JsonScan {
            runs: seq![],
            token: seq![],
            in_string: false,
            escaped: false,
            containers: seq![],
            is_key: false,
        }
    } else {
        json_step(json_run(s.drop_last()), s.last())
    }
}

/// The runs of a JSON text: keys, string values, punctuation and bare
/// values; an unterminated string is a string. Text that does not start
/// with `{` or `[` is one plain run.
pub open spec fn json_runs(s: Seq<char>) -> Seq<(Seq<char>, Token)> {
    let t = trim_start(s);
    if !starts_with(t, seq!['{']) && !starts_with(t, seq!['[']) {
        add_run(seq![], s, Token::Plain)
    } else {
        let st = json_run(s);
        add_run(st.runs, st.token, if st.in_string { Token::Str } else { Token::Word })
    }
}

proof fn lemma_json_step_keeps_text(st: JsonScan, ch: char)
    ensures
        concat(json_step(st, ch).runs) + json_step(st, ch).token == concat(st.runs) + st.token.push(
            ch,
        ),
{
    let n = json_step(st, ch);
    if st.in_string {
        if !st.escaped && ch != '\\' && ch == '"' {
            lemma_concat_add(st.runs, st.token.push(ch), if st.is_key { Token::Key } else { Token::Str });
            assert(concat(n.runs) + n.token =~= concat(st.runs) + st.token.push(ch));
        }
    } else if ch == '"' {
        lemma_concat_add(st.runs, st.token, Token::Word);
        assert(concat(n.runs) + n.token =~= concat(st.runs) + st.token.push(ch));
    } else if is_json_punct(ch) || is_ws(ch) {
        let r1 = add_run(st.runs, st.token, Token::Word);
        lemma_concat_add(st.runs, st.token, Token::Word);
        lemma_concat_add(r1, seq![ch], Token::Punct);
        assert(concat(n.runs) + n.token =~= concat(st.runs) + st.token.push(ch));
    } else {
        assert(concat(n.runs) + n.token =~= concat(st.runs) + st.token.push(ch));
    }
}

proof fn lemma_json_run_keeps_text(s: Seq<char>)
    ensures
        concat(json_run(s).runs) + json_run(s).token == s,
    decreases s.len(),
{
    if s.len() == 0 {
        assert(concat(json_run(s).runs) + json_run(s).token =~= s);
    } else {
        lemma_json_run_keeps_text(s.drop_last());
        lemma_json_step_keeps_text(json_run(s.drop_last()), s.last());
        assert(s.drop_last().push(s.last()) =~= s);
    }
}

/// Highlighting JSON keeps the text: the runs add up to it.
pub proof fn law_json_runs_keep_text(s: Seq<char>)
    ensures
        concat(json_runs(s)) == s,
{
    let t = trim_start(s);
    if !starts_with(t, seq!['{']) && !starts_with(t, seq!['[']) {
        lemma_concat_add(seq![], s, Token::Plain);
        assert(concat(Seq::<(Seq<char>, Token)>::empty()) + s =~= s);
    } else {
        let st = json_run(s);
        lemma_json_run_keeps_text(s);
        lemma_concat_add(st.runs, st.token, if st.in_string { Token::Str } else { Token::Word });
    }
}

/// Splits JSON text into highlighted runs.
pub fn json_spans(text: &str) -> (r: Vec<Span>)
    ensures
        spans_view(r@) == json_runs(text@),
        concat(spans_view(r@)) == text@,
{
    proof {
        law_json_runs_keep_text(text@);
    }
    let cs = chars_of(text);
    let t = trim_start_vec(&cs);
    let open_brace = vec!['{'];
    let open_bracket = vec!['['];
    assert(open_brace@ =~= seq!['{']);
    assert(open_bracket@ =~= seq!['[']);
    let mut out: Vec<Span> = Vec::new();
    if !starts_with_exec(&t, &open_brace) && !starts_with_exec(&t, &open_bracket) {
        push_run(&mut out, &cs, Token::Plain);
        return out;
    }
    let mut token: Vec<char> = Vec::new();
    let mut in_string = false;
    let mut escaped = false;
    let mut containers: Vec<char> = Vec::new();
    let mut is_key = false;
    let mut i: usize = 0;
    assert(cs@.take(0) =~= Seq::<char>::empty());
    assert(spans_view(out@) =~= Seq::<(Seq<char>, Token)>::empty());
    while i < cs.len()
        invariant
            i <= cs@.len(),
            cs@ == text@,
            json_run(cs@.take(i as int)) == (JsonScan {
                runs: spans_view(out@),
                token: token@,
                in_string,
                escaped,
                containers: containers@,
                is_key,
            }),
        decreases cs@.len() - i,
    {
        let ch = cs[i];
        proof {
            assert(cs@.take(i + 1).drop_last() =~= cs@.take(i as int));
        }
        if in_string {
            token.push(ch);
            if escaped {
                escaped = false;
            } else if ch == '\\' {
                escaped = true;
            } else if ch == '"' {
                let t = if is_key {
                    Token::Key
                } else {
                    Token::Str
                };
                push_run(&mut out, &token, t);
                token = Vec::new();
                in_string = false;
            }
        } else if ch == '"' {
            push_run(&mut out, &token, Token::Word);
            token = vec!['"'];
            assert(token@ =~= seq!['"']);
            in_string = true;
        } else if ch == '{' || ch == '[' || ch == '}' || ch == ']' || ch == ':' || ch == ',' {
            push_run(&mut out, &token, Token::Word);
            if ch == '{' || ch == '[' {
                containers.push(ch);
            } else if ch == '}' || ch == ']' {
                if containers.len() > 0 {
                    containers.pop();
                }
            }
            is_key = if ch == ':' {
                false
            } else {
                containers.len() > 0 && containers[containers.len() - 1] == '{'
            };
            let p = vec![ch];
            assert(p@ =~= seq![ch]);
            push_run(&mut out, &p, Token::Punct);
            token = Vec::new();
        } else if is_whitespace(ch) {
            push_run(&mut out, &token, Token::Word);
            let p = vec![ch];
            assert(p@ =~= seq![ch]);
            push_run(&mut out, &p, Token::Punct);
            token = Vec::new();
        } else {
            token.push(ch);
        }
        proof {
            let n = json_run(cs@.take(i + 1));
            assert(token@ =~= n.token);
            assert(containers@ =~= n.containers);
            assert(spans_view(out@) =~= n.runs);
        }
        i += 1;
    }
    assert(cs@.take(cs@.len() as int) =~= cs@);
    let last = if in_string {
        Token::Str
    } else {
        Token::Word
    };
    push_run(&mut out, &token, last);
    out
}

// ---------------------------------------------------------------------------
// XML
// ---------------------------------------------------------------------------

/// The XML scanner's state: runs so far, the pending text, and whether it
/// is inside a tag and inside a quoted attribute there.
pub struct XmlScan {
    pub runs: Seq<(Seq<char>, Token)>,
    pub token: Seq<char>,
    pub in_tag: bool,
    pub in_quote: bool,
}

pub open spec fn tag_token(t: Seq<char>) -> Token {
    if starts_with(t, seq!['<', '?']) || starts_with(t, seq!['<', '!']) {
        Token::Declaration
    } else {
        Token::Tag
    }
}

pub open spec fn xml_scan_step(st: XmlScan, ch: char) -> XmlScan {
    if ch == '<' && !st.in_quote {
        XmlScan { runs: add_run(st.runs, st.token, Token::Plain), token: seq!['<'], in_tag: true, ..st }
    } else if ch == '>' && st.in_tag && !st.in_quote {
        let t = st.token.push('>');
        XmlScan { runs: add_run(st.runs, t, tag_token(t)), token: seq![], in_tag: false, ..st }
    } else if ch == '"' && st.in_tag {
        XmlScan { token: st.token.push(ch), in_quote: !st.in_quote, ..st }
    } else {
        XmlScan { token: st.token.push(ch), ..st }
    }
}

pub open spec fn xml_scan(s: Seq<char>) -> XmlScan
    decreases s.len(),
{
    if s.len() == 0 {
        XmlScan { runs: seq![], token: seq![], in_tag: false, in_quote: false }
    } else {
        xml_scan_step(xml_scan(s.drop_last()), s.last())
    }
}

/// The runs of XML or HTML text: tags, declarations and the text between
/// them; `>` inside a quoted attribute does not end a tag.
pub open spec fn xml_runs(s: Seq<char>) -> Seq<(Seq<char>, Token)> {
    let st = xml_scan(s);
    add_run(st.runs, st.token, if st.in_tag { Token::Tag } else { Token::Plain })
}

proof fn lemma_xml_scan_keeps_text(s: Seq<char>)
    ensures
        concat(xml_scan(s).runs) + xml_scan(s).token == s,
    decreases s.len(),
{
    if s.len() == 0 {
        assert(concat(xml_scan(s).runs) + xml_scan(s).token =~= s);
    } else {
        let st = xml_scan(s.drop_last());
        lemma_xml_scan_keeps_text(s.drop_last());
        let ch = s.last();
        let n = xml_scan_step(st, ch);
        if ch == '<' && !st.in_quote {
            lemma_concat_add(st.runs, st.token, Token::Plain);
        } else if ch == '>' && st.in_tag && !st.in_quote {
            lemma_concat_add(st.runs, st.token.push('>'), tag_token(st.token.push('>')));
        }
        assert(s.drop_last().push(ch) =~= s);
        assert(concat(n.runs) + n.token =~= concat(st.runs) + st.token.push(ch));
    }
}

/// Highlighting XML keeps the text: the runs add up to it.
pub proof fn law_xml_runs_keep_text(s: Seq<char>)
    ensures
        concat(xml_runs(s)) == s,
{
    let st = xml_scan(s);
    lemma_xml_scan_keeps_text(s);
    lemma_concat_add(st.runs, st.token, if st.in_tag { Token::Tag } else { Token::Plain });
}

/// Splits XML or HTML text into highlighted runs.
pub fn xml_spans(text: &str) -> (r: Vec<Span>)
    ensures
        spans_view(r@) == xml_runs(text@),
        concat(spans_view(r@)) == text@,
{
    proof {
        law_xml_runs_keep_text(text@);
    }
    let cs = chars_of(text);
    let mut out: Vec<Span> = Vec::new();
    let mut token: Vec<char> = Vec::new();
    let mut in_tag = false;
    let mut in_quote = false;
    let mut i: usize = 0;
    assert(cs@.take(0) =~= Seq::<char>::empty());
    assert(spans_view(out@) =~= Seq::<(Seq<char>, Token)>::empty());
    while i < cs.len()
        invariant
            i <= cs@.len(),
            cs@ == text@,
            xml_scan(cs@.take(i as int)) == (XmlScan {
                runs: spans_view(out@),
                token: token@,
                in_tag,
                in_quote,
            }),
        decreases cs@.len() - i,
    {
        let ch = cs[i];
        proof {
            assert(cs@.take(i + 1).drop_last() =~= cs@.take(i as int));
        }
        if ch == '<' && !in_quote {
            push_run(&mut out, &token, Token::Plain);
            token = vec!['<'];
            in_tag = true;
        } else if ch == '>' && in_tag && !in_quote {
            token.push('>');
            let t = if token.len() >= 2 && token[0] == '<' && (token[1] == '?' || token[1] == '!') {
                Token::Declaration
            } else {
                Token::Tag
            };
            proof {
                assert(starts_with(token@, seq!['<', '?']) ==> token@.take(2) == seq!['<', '?']);
                if token@.len() >= 2 {
                    assert(token@.take(2) =~= seq![token@[0], token@[1]]);
                }
            }
            push_run(&mut out, &token, t);
            token = Vec::new();
            in_tag = false;
        } else if ch == '"' && in_tag {
            token.push(ch);
            in_quote = !in_quote;
        } else {
            token.push(ch);
        }
        proof {
            let n = xml_scan(cs@.take(i + 1));
            assert(token@ =~= n.token);
            assert(spans_view(out@) =~= n.runs);
        }
        i += 1;
    }
    assert(cs@.take(cs@.len() as int) =~= cs@);
    let last = if in_tag {
        Token::Tag
    } else {
        Token::Plain
    };
    push_run(&mut out, &token, last);
    out
}

} // verus!
