//! The rows of the key-value editor and their text form, and the pieces the
//! response panels highlight JSON and XML in.
use crate::kv::{
    format_lines_spec, kept_lines, lemma_line_body, line_of, non_empty_rows, plain_sep, row_is_empty,
    row_survives,
    Row,
};
use crate::text::{
    append, append_str, chars_of, join_exec, lines, lines_exec, slice_vec, split_once,
    split_once_exec, string_of, trim, trim_start, trim_start_vec, trim_vec, is_ws, lacks, plain_line,
    is_whitespace, starts_with, starts_with_str, find,
};
use crate::highlight::{literal_chars, literal_of, Literal};
use vstd::prelude::*;

verus! {

/// A single key-value row with its enabled state.
#[derive(Clone, Debug, PartialEq)]
pub struct KeyValueRow {
    pub enabled: bool,
    pub key: String,
    pub value: String,
}

impl View for KeyValueRow {
    type V = Row;

    open spec fn view(&self) -> Row {
        Row { enabled: self.enabled, key: self.key@, value: self.value@ }
    }
}

pub open spec fn row_views(v: Seq<KeyValueRow>) -> Seq<Row> {
    v.map_values(|r: KeyValueRow| r@)
}

/// Whether the key-value editor changed its text.
pub struct KeyValueEditorResult {
    pub changed: bool,
}

impl KeyValueRow {
    pub fn new(enabled: bool, key: String, value: String) -> (r: KeyValueRow)
        ensures
            r@ == (Row { enabled, key: key@, value: value@ }),
    {
        KeyValueRow { enabled, key, value }
    }

    pub fn is_empty(&self) -> (r: bool)
        ensures
            r == row_is_empty(self@),
    {
        self.key.as_str().is_empty() && self.value.as_str().is_empty()
    }
}

/// Rows as editor text: one line per non-empty row, `key` or
/// `key<sep>value`, behind `# ` when disabled.
pub fn rows_to_text(rows: &[KeyValueRow], separator: &str) -> (r: String)
    ensures
        r@ == format_lines_spec(row_views(rows@), separator@),
{
    let ghost rv = row_views(rows@);
    let mut ls: Vec<Vec<char>> = Vec::new();
    let mut i: usize = 0;
    assert(rv.take(0) =~= Seq::<Row>::empty());
    assert(ls@.map_values(|v: Vec<char>| v@) =~= Seq::<Seq<char>>::empty());
    while i < rows.len()
        invariant
            i <= rows@.len(),
            rv == row_views(rows@),
            ls@.map_values(|v: Vec<char>| v@) == crate::kv::kept_lines(
                rv.take(i as int),
                separator@,
            ),
        decreases rows@.len() - i,
    {
        let r = &rows[i];
        proof {
            assert(rv.take(i + 1).drop_last() =~= rv.take(i as int));
            assert(rv.take(i + 1).last() == r@);
        }
        if !r.is_empty() {
            let mut body = chars_of(r.key.as_str());
            if !r.value.as_str().is_empty() {
                append_str(&mut body, separator);
                append_str(&mut body, r.value.as_str());
            }
            let line = if r.enabled {
                body
            } else {
                let mut l = chars_of("# ");
                append(&mut l, &body);
                l
            };
            assert(line@ =~= crate::kv::line_of(r@, separator@));
            let ghost before = ls@.map_values(|v: Vec<char>| v@);
            let ghost lv = line@;
            ls.push(line);
            assert(ls@.map_values(|v: Vec<char>| v@) =~= before.push(lv));
        }
        i += 1;
    }
    assert(rv.take(rows@.len() as int) =~= rv);
    let nl = vec!['\n'];
    assert(nl@ =~= seq!['\n']);
    let out = join_exec(&ls, &nl);
    string_of(&out)
}

/// `s` without its leading `#` characters.
pub open spec fn strip_hashes(s: Seq<char>) -> Seq<char>
    decreases s.len(),
{
    if s.len() > 0 && s[0] == '#' {
        strip_hashes(s.drop_first())
    } else {
        s
    }
}

/// One editor line (leading whitespace removed, not empty) as a row: leading
/// `#`s disable it, the key is trimmed and the value kept verbatim.
pub open spec fn text_row(line: Seq<char>, sep: Seq<char>) -> Row {
    let disabled = line.len() > 0 && line[0] == '#';
    let body = if disabled {
        trim_start(strip_hashes(line))
    } else {
        line
    };
    match split_once(body, sep) {
        Some((k, v)) => Row { enabled: !disabled, key: trim(k), value: v },
        None => Row { enabled: !disabled, key: body, value: seq![] },
    }
}

pub open spec fn text_rows(ls: Seq<Seq<char>>, sep: Seq<char>) -> Seq<Row>
    decreases ls.len(),
{
    if ls.len() == 0 {
        Seq::empty()
    } else {
        let rest = text_rows(ls.drop_last(), sep);
        let l = trim_start(ls.last());
        if l.len() == 0 {
            rest
        } else {
            rest.push(text_row(l, sep))
        }
    }
}

fn strip_hashes_exec(s: &[char]) -> (r: Vec<char>)
    ensures
        r@ == strip_hashes(s@),
{
    let mut i: usize = 0;
    assert(s@.skip(0) =~= s@);
    while i < s.len() && s[i] == '#'
        invariant
            i <= s@.len(),
            strip_hashes(s@) == strip_hashes(s@.skip(i as int)),
        decreases s@.len() - i,
    {
        assert(s@.skip(i as int).drop_first() =~= s@.skip(i + 1));
        i += 1;
    }
    let r = slice_vec(s, i, s.len());
    assert(r@ =~= s@.skip(i as int));
    r
}

fn text_row_exec(line: &[char], sep: &[char]) -> (r: KeyValueRow)
    ensures
        r@ == text_row(line@, sep@),
{
    let disabled = line.len() > 0 && line[0] == '#';
    let body = if disabled {
        let rest = strip_hashes_exec(line);
        trim_start_vec(&rest)
    } else {
        slice_vec(line, 0, line.len())
    };
    assert(!disabled ==> body@ =~= line@);
    match split_once_exec(&body, sep) {
        Some((k, v)) => {
            let kt = trim_vec(&k);
            KeyValueRow { enabled: !disabled, key: string_of(&kt), value: string_of(&v) }
        },
        None => KeyValueRow { enabled: !disabled, key: string_of(&body), value: String::new() },
    }
}

/// Editor text as rows. Keys are trimmed, values kept verbatim so that
/// spaces in them survive editing.
pub fn parse_text_to_rows(text: &str, separator: &str) -> (r: Vec<KeyValueRow>)
    ensures
        row_views(r@) == text_rows(lines(text@), separator@),
{
    let tc = chars_of(text);
    let sc = chars_of(separator);
    let ls = lines_exec(&tc);
    let ghost lsv = lines(text@);
    let mut out: Vec<KeyValueRow> = Vec::new();
    let mut i: usize = 0;
    assert(lsv.take(0) =~= Seq::<Seq<char>>::empty());
    assert(row_views(out@) =~= Seq::<Row>::empty());
    while i < ls.len()
        invariant
            i <= ls@.len(),
            ls@.len() == lsv.len(),
            forall|k: int| 0 <= k < ls@.len() ==> #[trigger] ls@[k]@ == lsv[k],
            sc@ == separator@,
            row_views(out@) == text_rows(lsv.take(i as int), separator@),
        decreases ls@.len() - i,
    {
        let l = trim_start_vec(&ls[i]);
        proof {
            assert(lsv.take(i + 1).drop_last() =~= lsv.take(i as int));
            assert(lsv.take(i + 1).last() == lsv[i as int]);
        }
        if l.len() > 0 {
            let row = text_row_exec(&l, &sc);
            let ghost before = row_views(out@);
            out.push(row);
            assert(row_views(out@) =~= before.push(row@));
        }
        i += 1;
    }
    assert(lsv.take(ls@.len() as int) =~= lsv);
    out
}

// ---------------------------------------------------------------------------
// Text then rows gives the rows back
// ---------------------------------------------------------------------------

proof fn lemma_text_row_of_line(r: Row, sep: Seq<char>)
    requires
        plain_sep(sep),
        row_survives(r, sep),
        !row_is_empty(r),
    ensures
        trim_start(line_of(r, sep)) == line_of(r, sep),
        plain_line(line_of(r, sep)),
        text_row(line_of(r, sep), sep) == r,
{
    reveal_strlit("# ");
    let body = if r.value.len() == 0 {
        r.key
    } else {
        r.key + sep + r.value
    };
    lemma_line_body(r, sep);
    let line = line_of(r, sep);
    if r.enabled {
        assert(line == body);
    } else {
        let rest = seq![' '] + body;
        assert(line =~= seq!['#'] + rest);
        assert(line.drop_first() =~= rest);
        assert(strip_hashes(line) == strip_hashes(rest));
        assert(strip_hashes(rest) == rest);
        assert(rest.drop_first() =~= body);
        assert(trim_start(rest) == trim_start(body));
        assert(lacks(line, '\n'));
        assert(line.last() == body.last());
    }
    let rr = text_row(line, sep);
    assert(rr.enabled == r.enabled);
    assert(rr.key =~= r.key);
    assert(rr.value =~= r.value);
}

proof fn lemma_text_rows_of_kept(rows: Seq<Row>, sep: Seq<char>)
    requires
        plain_sep(sep),
        forall|i: int| 0 <= i < rows.len() ==> row_survives(#[trigger] rows[i], sep),
    ensures
        text_rows(kept_lines(rows, sep), sep) == non_empty_rows(rows),
        forall|i: int|
            0 <= i < kept_lines(rows, sep).len() ==> plain_line(#[trigger] kept_lines(rows, sep)[i]),
    decreases rows.len(),
{
    if rows.len() > 0 {
        let init = rows.drop_last();
        assert forall|i: int| 0 <= i < init.len() implies row_survives(#[trigger] init[i], sep) by {
            assert(init[i] == rows[i]);
        }
        lemma_text_rows_of_kept(init, sep);
        let r = rows.last();
        assert(row_survives(rows[rows.len() - 1], sep));
        if !row_is_empty(r) {
            lemma_text_row_of_line(r, sep);
            let kl = kept_lines(init, sep);
            let l = line_of(r, sep);
            assert(kept_lines(rows, sep) == kl.push(l));
            assert(kl.push(l).drop_last() =~= kl);
            assert(kl.push(l).last() == l);
            assert forall|i: int| 0 <= i < kl.push(l).len() implies plain_line(
                #[trigger] kl.push(l)[i],
            ) by {
                if i < kl.len() {
                    assert(kl.push(l)[i] == kl[i]);
                }
            }
        }
    }
}

/// Writing rows as editor text and reading the text back gives the rows
/// that are not empty, for rows the text can hold.
pub proof fn law_rows_text_roundtrip(rows: Seq<Row>, sep: Seq<char>)
    requires
        plain_sep(sep),
        forall|i: int| 0 <= i < rows.len() ==> row_survives(#[trigger] rows[i], sep),
    ensures
        text_rows(lines(format_lines_spec(rows, sep)), sep) == non_empty_rows(rows),
{
    lemma_text_rows_of_kept(rows, sep);
    crate::text::lemma_lines_join(kept_lines(rows, sep));
}

// ---------------------------------------------------------------------------
// Editor text then rows gives the text back
// ---------------------------------------------------------------------------

/// The body of an editor line: what follows `# ` on a disabled line, else
/// the whole line.
pub open spec fn line_body(l: Seq<char>) -> Seq<char> {
    if l.len() >= 2 && l[0] == '#' && l[1] == ' ' {
        l.skip(2)
    } else {
        l
    }
}

/// A line the editor writes back as it read it: its body is not empty and
/// starts with neither whitespace nor `#`, and either holds no separator or
/// has a trimmed key before its first separator and a value after it.
pub open spec fn editor_line(l: Seq<char>, sep: Seq<char>) -> bool {
    let body = line_body(l);
    &&& body.len() > 0
    &&& !is_ws(body[0])
    &&& body[0] != '#'
    &&& match split_once(body, sep) {
        None => true,
        Some((k, v)) => crate::text::is_trimmed(k) && v.len() > 0,
    }
}

proof fn lemma_editor_line(l: Seq<char>, sep: Seq<char>)
    requires
        editor_line(l, sep),
    ensures
        l.len() > 0,
        trim_start(l) == l,
        !row_is_empty(text_row(l, sep)),
        line_of(text_row(l, sep), sep) == l,
{
    reveal_strlit("# ");
    let body = line_body(l);
    let disabled = l.len() > 0 && l[0] == '#';
    if disabled {
        assert(l.len() >= 2 && l[1] == ' ');
        let rest = l.drop_first();
        assert(rest[0] == ' ');
        assert(strip_hashes(l) == strip_hashes(rest));
        assert(strip_hashes(rest) == rest);
        assert(rest.drop_first() =~= body);
        assert(trim_start(body) == body);
        assert(trim_start(rest) == trim_start(body));
        assert(l =~= "# "@ + body);
    } else {
        assert(body == l);
        assert(trim_start(body) == body);
    }
    match split_once(body, sep) {
        None => {},
        Some((k, v)) => {
            crate::text::lemma_trim_trimmed(k);
            crate::text::lemma_find_from_bounds(body, sep, 0);
            let i = find(body, sep)->0;
            assert(body.subrange(i, i + sep.len()) == sep);
            assert(body =~= body.take(i) + sep + body.skip(i + sep.len()));
        },
    }
}

proof fn lemma_kept_text_rows(ls: Seq<Seq<char>>, sep: Seq<char>)
    requires
        forall|i: int| 0 <= i < ls.len() ==> editor_line(#[trigger] ls[i], sep),
    ensures
        kept_lines(text_rows(ls, sep), sep) == ls,
    decreases ls.len(),
{
    if ls.len() > 0 {
        let init = ls.drop_last();
        assert forall|i: int| 0 <= i < init.len() implies editor_line(#[trigger] init[i], sep) by {
            assert(init[i] == ls[i]);
        }
        lemma_kept_text_rows(init, sep);
        let l = ls.last();
        assert(editor_line(ls[ls.len() - 1], sep));
        lemma_editor_line(l, sep);
        let rs = text_rows(init, sep);
        let r = text_row(l, sep);
        assert(text_rows(ls, sep) == rs.push(r));
        assert(rs.push(r).drop_last() =~= rs);
        assert(rs.push(r).last() == r);
        assert(kept_lines(rs.push(r), sep) == kept_lines(rs, sep).push(line_of(r, sep)));
        assert(init.push(l) =~= ls);
    }
}

/// Reading editor text as rows and writing the rows back gives the text,
/// when every line is one the editor writes back as it read it, the text
/// holds no `\r` and it does not end in a newline.
pub proof fn law_text_rows_text_roundtrip(t: Seq<char>, sep: Seq<char>)
    requires
        lacks(t, '\r'),
        t.len() == 0 || t.last() != '\n',
        forall|i: int| 0 <= i < lines(t).len() ==> editor_line(#[trigger] lines(t)[i], sep),
    ensures
        format_lines_spec(text_rows(lines(t), sep), sep) == t,
{
    lemma_kept_text_rows(lines(t), sep);
    crate::text::lemma_join_lines(t);
}

// ---------------------------------------------------------------------------
// Highlighting of the response panels
// ---------------------------------------------------------------------------

/// What a piece of highlighted text is, by the colour it is drawn in.
#[derive(Clone, Copy, Debug, PartialEq, Eq, Structural)]
pub enum Part {
    /// A JSON key with its quotes.
    Key,
    /// A JSON string with its quotes.
    Str,
    /// `:` or `,` in JSON.
    Separator,
    /// A JSON bracket or brace.
    Bracket,
    /// Whitespace between JSON tokens.
    Space,
    /// A bare JSON value that is not a boolean or `null` (a number or other
    /// text), coloured by what it reads as.
    Value,
    /// A bare `true` or `false`.
    Bool,
    /// A bare `null`.
    Null,
    /// Text in XML, or text that is not highlighted.
    Text,
    /// An XML tag.
    Tag,
    /// An XML declaration, doctype or comment.
    Meta,
}

#[derive(Clone, Debug)]
pub struct Piece {
    pub text: String,
    pub part: Part,
}

pub open spec fn pieces_view(v: Seq<Piece>) -> Seq<(Seq<char>, Part)> {
    v.map_values(|p: Piece| (p.text@, p.part))
}

/// Adds a piece, unless it is empty.
pub open spec fn add_piece(ps: Seq<(Seq<char>, Part)>, text: Seq<char>, part: Part) -> Seq<
    (Seq<char>, Part),
> {
    if text.len() == 0 {
        ps
    } else {
        ps.push((text, part))
    }
}

fn push_piece(out: &mut Vec<Piece>, text: &Vec<char>, part: Part)
    ensures
        pieces_view(final(out)@) == add_piece(pieces_view(old(out)@), text@, part),
{
    if text.len() > 0 {
        let ghost before = pieces_view(out@);
        out.push(Piece { text: string_of(text), part });
        assert(pieces_view(out@) =~= before.push((text@, part)));
    }
}

fn push_char(out: &mut Vec<Piece>, c: char, part: Part)
    ensures
        pieces_view(final(out)@) == pieces_view(old(out)@).push((seq![c], part)),
{
    let ghost before = pieces_view(out@);
    let v = vec![c];
    out.push(Piece { text: string_of(&v), part });
    assert(v@ =~= seq![c]);
    assert(pieces_view(out@) =~= before.push((seq![c], part)));
}

/// The part a bare JSON token is drawn as: a boolean or `null` (once
/// trimmed) by what it is, anything else as a value.
pub open spec fn value_part(t: Seq<char>) -> Part {
    match literal_of(trim(t)) {
        Literal::Bool => Part::Bool,
        Literal::Null => Part::Null,
        Literal::Other => Part::Value,
    }
}

fn value_part_exec(t: &Vec<char>) -> (r: Part)
    ensures
        r == value_part(t@),
{
    match literal_chars(&trim_vec(t)) {
        Literal::Bool => Part::Bool,
        Literal::Null => Part::Null,
        Literal::Other => Part::Value,
    }
}

pub open spec fn is_bracket(c: char) -> bool {
    c == '{' || c == '}' || c == '[' || c == ']'
}

/// The JSON scanner's state: pieces so far, the pending token, whether it
/// is inside a string (and just after a backslash there), and whether the
/// next string is a key.
pub struct Scan {
    pub pieces: Seq<(Seq<char>, Part)>,
    pub token: Seq<char>,
    pub in_string: bool,
    pub escaped: bool,
    pub is_key: bool,
}

pub open spec fn scan_start() -> Scan {
    Scan { pieces: seq![], token: seq![], in_string: false, escaped: false, is_key: true }
}

/// One character of the plain JSON highlighter. A `:` or `,` is drawn at
/// once while a pending bare token waits for the next bracket, whitespace
/// or the end.
pub open spec fn plain_step(st: Scan, ch: char) -> Scan {
    if !st.in_string && ch == '"' {
        Scan { token: st.token.push(ch), in_string: true, ..st }
    } else if st.in_string && ch == '"' {
        Scan {
            pieces: st.pieces.push(
                (st.token.push(ch), if st.is_key { Part::Key } else { Part::Str }),
            ),
            token: seq![],
            in_string: false,
            ..st
        }
    } else if !st.in_string && ch == ':' {
        Scan { pieces: st.pieces.push((seq![ch], Part::Separator)), is_key: false, ..st }
    } else if !st.in_string && ch == ',' {
        Scan { pieces: st.pieces.push((seq![ch], Part::Separator)), is_key: true, ..st }
    } else if !st.in_string && is_bracket(ch) {
        Scan {
            pieces: add_piece(st.pieces, st.token, value_part(st.token)).push((seq![ch], Part::Bracket)),
            token: seq![],
            is_key: ch == '{',
            ..st
        }
    } else if st.in_string {
        Scan { token: st.token.push(ch), ..st }
    } else if is_ws(ch) {
        Scan {
            pieces: add_piece(st.pieces, st.token, value_part(st.token)).push((seq![ch], Part::Space)),
            token: seq![],
            ..st
        }
    } else {
        Scan { token: st.token.push(ch), ..st }
    }
}

pub open spec fn plain_run(s: Seq<char>) -> Scan
    decreases s.len(),
{
    if s.len() == 0 {
        scan_start()
    } else {
        plain_step(plain_run(s.drop_last()), s.last())
    }
}

/// The pieces the plain JSON highlighter draws.
pub open spec fn json_pieces_spec(s: Seq<char>) -> Seq<(Seq<char>, Part)> {
    let st = plain_run(s);
    add_piece(st.pieces, st.token, value_part(st.token))
}

/// Split JSON into the pieces it is highlighted in (no escapes: a `"` always
/// ends a string).
pub fn json_syntax_highlight(json: &str) -> (r: Vec<Piece>)
    ensures
        pieces_view(r@) == json_pieces_spec(json@),
{
    let cs = chars_of(json);
    let mut out: Vec<Piece> = Vec::new();
    let mut token: Vec<char> = Vec::new();
    let mut in_string = false;
    let mut is_key = true;
    let mut i: usize = 0;
    assert(cs@.take(0) =~= Seq::<char>::empty());
    assert(pieces_view(out@) =~= Seq::<(Seq<char>, Part)>::empty());
    while i < cs.len()
        invariant
            i <= cs@.len(),
            cs@ == json@,
            plain_run(cs@.take(i as int)) == (Scan {
                pieces: pieces_view(out@),
                token: token@,
                in_string,
                escaped: false,
                is_key,
            }),
        decreases cs@.len() - i,
    {
        let ch = cs[i];
        proof {
            assert(cs@.take(i + 1).drop_last() =~= cs@.take(i as int));
        }
        if !in_string && ch == '"' {
            token.push(ch);
            in_string = true;
        } else if in_string && ch == '"' {
            token.push(ch);
            let part = if is_key {
                Part::Key
            } else {
                Part::Str
            };
            let ghost before = pieces_view(out@);
            out.push(Piece { text: string_of(&token), part });
            assert(pieces_view(out@) =~= before.push((token@, part)));
            token = Vec::new();
            in_string = false;
        } else if !in_string && ch == ':' {
            push_char(&mut out, ch, Part::Separator);
            is_key = false;
        } else if !in_string && ch == ',' {
            push_char(&mut out, ch, Part::Separator);
            is_key = true;
        } else if !in_string && (ch == '{' || ch == '}' || ch == '[' || ch == ']') {
            let vp = value_part_exec(&token);
            push_piece(&mut out, &token, vp);
            push_char(&mut out, ch, Part::Bracket);
            token = Vec::new();
            is_key = ch == '{';
        } else if in_string {
            token.push(ch);
        } else if is_whitespace(ch) {
            let vp = value_part_exec(&token);
            push_piece(&mut out, &token, vp);
            push_char(&mut out, ch, Part::Space);
            token = Vec::new();
        } else {
            token.push(ch);
        }
        proof {
            assert(token@ =~= plain_run(cs@.take(i + 1)).token);
        }
        i += 1;
    }
    assert(cs@.take(cs@.len() as int) =~= cs@);
    let vp = value_part_exec(&token);
    push_piece(&mut out, &token, vp);
    out
}

/// One character of the response panel's JSON highlighter: a backslash in
/// a string takes the next character, and a `,` ends a pending token.
pub open spec fn layout_step(st: Scan, ch: char) -> Scan {
    if st.escaped {
        Scan { token: st.token.push(ch), escaped: false, ..st }
    } else if ch == '\\' && st.in_string {
        Scan { token: st.token.push(ch), escaped: true, ..st }
    } else if !st.in_string && ch == ',' {
        Scan {
            pieces: add_piece(st.pieces, st.token, value_part(st.token)).push((seq![ch], Part::Separator)),
            token: seq![],
            is_key: true,
            ..st
        }
    } else {
        plain_step(st, ch)
    }
}

pub open spec fn layout_run(s: Seq<char>) -> Scan
    decreases s.len(),
{
    if s.len() == 0 {
        scan_start()
    } else {
        layout_step(layout_run(s.drop_last()), s.last())
    }
}

/// The pieces of the response panel's JSON view; text that does not start
/// (after whitespace) with `{` or `[` is drawn as one piece of plain text.
pub open spec fn layout_pieces_spec(s: Seq<char>) -> Seq<(Seq<char>, Part)> {
    let t = trim_start(s);
    if !starts_with(t, seq!['{']) && !starts_with(t, seq!['[']) {
        seq![(s, Part::Text)]
    } else {
        let st = layout_run(s);
        add_piece(st.pieces, st.token, value_part(st.token))
    }
}

/// The text of the pieces, one after the other.
pub open spec fn pieces_text(ps: Seq<(Seq<char>, Part)>) -> Seq<char>
    decreases ps.len(),
{
    if ps.len() == 0 {
        seq![]
    } else {
        pieces_text(ps.drop_last()) + ps.last().0
    }
}

/// No `:` outside a string comes while a bare token is pending: the
/// response panel draws a `:` at once and the pending token after it, so
/// only then do the pieces keep the order of the text.
pub open spec fn colons_follow_tokens(s: Seq<char>) -> bool
    decreases s.len(),
{
    if s.len() == 0 {
        true
    } else {
        let st = layout_run(s.drop_last());
        colons_follow_tokens(s.drop_last()) && (s.last() == ':' && !st.in_string ==> st.token.len()
            == 0)
    }
}

proof fn lemma_pieces_text_add(ps: Seq<(Seq<char>, Part)>, t: Seq<char>, part: Part)
    ensures
        pieces_text(add_piece(ps, t, part)) == pieces_text(ps) + t,
{
    if t.len() == 0 {
        assert(pieces_text(ps) + t =~= pieces_text(ps));
    } else {
        assert(ps.push((t, part)).drop_last() =~= ps);
    }
}

proof fn lemma_pieces_text_push(ps: Seq<(Seq<char>, Part)>, t: Seq<char>, part: Part)
    ensures
        pieces_text(ps.push((t, part))) == pieces_text(ps) + t,
{
    assert(ps.push((t, part)).drop_last() =~= ps);
}

proof fn lemma_layout_step_text(st: Scan, ch: char)
    requires
        ch == ':' && !st.in_string ==> st.token.len() == 0,
    ensures
        pieces_text(layout_step(st, ch).pieces) + layout_step(st, ch).token == pieces_text(
            st.pieces,
        ) + st.token.push(ch),
{
    let n = layout_step(st, ch);
    let vp = value_part(st.token);
    if st.escaped || (ch == '\\' && st.in_string) {
    } else if !st.in_string && ch == ',' {
        lemma_pieces_text_add(st.pieces, st.token, vp);
        lemma_pieces_text_push(add_piece(st.pieces, st.token, vp), seq![ch], Part::Separator);
    } else if !st.in_string && ch == '"' {
    } else if st.in_string && ch == '"' {
        lemma_pieces_text_push(
            st.pieces,
            st.token.push(ch),
            if st.is_key { Part::Key } else { Part::Str },
        );
    } else if !st.in_string && ch == ':' {
        lemma_pieces_text_push(st.pieces, seq![ch], Part::Separator);
    } else if !st.in_string && is_bracket(ch) {
        lemma_pieces_text_add(st.pieces, st.token, vp);
        lemma_pieces_text_push(add_piece(st.pieces, st.token, vp), seq![ch], Part::Bracket);
    } else if st.in_string {
    } else if is_ws(ch) {
        lemma_pieces_text_add(st.pieces, st.token, vp);
        lemma_pieces_text_push(add_piece(st.pieces, st.token, vp), seq![ch], Part::Space);
    }
    assert(pieces_text(n.pieces) + n.token =~= pieces_text(st.pieces) + st.token.push(ch));
}

proof fn lemma_layout_run_text(s: Seq<char>)
    requires
        colons_follow_tokens(s),
    ensures
        pieces_text(layout_run(s).pieces) + layout_run(s).token == s,
    decreases s.len(),
{
    if s.len() == 0 {
        assert(pieces_text(layout_run(s).pieces) + layout_run(s).token =~= s);
    } else {
        lemma_layout_run_text(s.drop_last());
        lemma_layout_step_text(layout_run(s.drop_last()), s.last());
        assert(s.drop_last().push(s.last()) =~= s);
    }
}

/// The response panel's JSON pieces give back the text, for text that is
/// not JSON-like (one plain piece) and for JSON-like text where no `:`
/// comes while a bare token is pending (see `colons_follow_tokens`).
pub proof fn law_layout_pieces_keep_text(s: Seq<char>)
    requires
        starts_with(trim_start(s), seq!['{']) || starts_with(trim_start(s), seq!['['])
            ==> colons_follow_tokens(s),
    ensures
        pieces_text(layout_pieces_spec(s)) == s,
{
    let t = trim_start(s);
    if !starts_with(t, seq!['{']) && !starts_with(t, seq!['[']) {
        lemma_pieces_text_push(seq![], s, Part::Text);
        assert(pieces_text(Seq::<(Seq<char>, Part)>::empty()) + s =~= s);
    } else {
        let st = layout_run(s);
        lemma_layout_run_text(s);
        lemma_pieces_text_add(st.pieces, st.token, value_part(st.token));
    }
}

/// Split a response body into the pieces of its JSON view.
pub fn json_layout_job(text: &str) -> (r: Vec<Piece>)
    ensures
        pieces_view(r@) == layout_pieces_spec(text@),
{
    let cs = chars_of(text);
    let t = trim_start_vec(&cs);
    let mut out: Vec<Piece> = Vec::new();
    proof {
        reveal_strlit("{");
        reveal_strlit("[");
        assert("{"@ =~= seq!['{']);
        assert("["@ =~= seq!['[']);
    }
    if !starts_with_str(&t, "{") && !starts_with_str(&t, "[") {
        out.push(Piece { text: string_of(&cs), part: Part::Text });
        assert(pieces_view(out@) =~= seq![(text@, Part::Text)]);
        return out;
    }
    let mut token: Vec<char> = Vec::new();
    let mut in_string = false;
    let mut escaped = false;
    let mut is_key = true;
    let mut i: usize = 0;
    assert(cs@.take(0) =~= Seq::<char>::empty());
    assert(pieces_view(out@) =~= Seq::<(Seq<char>, Part)>::empty());
    while i < cs.len()
        invariant
            i <= cs@.len(),
            cs@ == text@,
            layout_run(cs@.take(i as int)) == (Scan {
                pieces: pieces_view(out@),
                token: token@,
                in_string,
                escaped,
                is_key,
            }),
        decreases cs@.len() - i,
    {
        let ch = cs[i];
        proof {
            assert(cs@.take(i + 1).drop_last() =~= cs@.take(i as int));
        }
        if escaped {
            token.push(ch);
            escaped = false;
        } else if ch == '\\' && in_string {
            token.push(ch);
            escaped = true;
        } else if !in_string && ch == ',' {
            let vp = value_part_exec(&token);
            push_piece(&mut out, &token, vp);
            push_char(&mut out, ch, Part::Separator);
            token = Vec::new();
            is_key = true;
        } else if !in_string && ch == '"' {
            token.push(ch);
            in_string = true;
        } else if in_string && ch == '"' {
            token.push(ch);
            let part = if is_key {
                Part::Key
            } else {
                Part::Str
            };
            let ghost before = pieces_view(out@);
            out.push(Piece { text: string_of(&token), part });
            assert(pieces_view(out@) =~= before.push((token@, part)));
            token = Vec::new();
            in_string = false;
        } else if !in_string && ch == ':' {
            push_char(&mut out, ch, Part::Separator);
            is_key = false;
        } else if !in_string && (ch == '{' || ch == '}' || ch == '[' || ch == ']') {
            let vp = value_part_exec(&token);
            push_piece(&mut out, &token, vp);
            push_char(&mut out, ch, Part::Bracket);
            token = Vec::new();
            is_key = ch == '{';
        } else if in_string {
            token.push(ch);
        } else if is_whitespace(ch) {
            let vp = value_part_exec(&token);
            push_piece(&mut out, &token, vp);
            push_char(&mut out, ch, Part::Space);
            token = Vec::new();
        } else {
            token.push(ch);
        }
        proof {
            assert(token@ =~= layout_run(cs@.take(i + 1)).token);
        }
        i += 1;
    }
    assert(cs@.take(cs@.len() as int) =~= cs@);
    let vp = value_part_exec(&token);
    push_piece(&mut out, &token, vp);
    out
}

/// The XML scanner's state: pieces so far, the pending text, and whether it
/// is inside a tag (and inside a quoted value there).
pub struct XmlScan {
    pub pieces: Seq<(Seq<char>, Part)>,
    pub token: Seq<char>,
    pub in_tag: bool,
    pub in_string: bool,
}

/// A finished tag: a declaration or comment (`<?`, `<!`) is meta, any other
/// (closing ones too) a tag.
pub open spec fn tag_part(t: Seq<char>) -> Part {
    if starts_with(t, seq!['<', '/']) {
        Part::Tag
    } else if starts_with(t, seq!['<', '?']) || starts_with(t, seq!['<', '!']) {
        Part::Meta
    } else {
        Part::Tag
    }
}

pub open spec fn xml_step(st: XmlScan, ch: char) -> XmlScan {
    if ch == '<' && !st.in_string {
        XmlScan {
            pieces: add_piece(st.pieces, st.token, Part::Text),
            token: seq![ch],
            in_tag: true,
            ..st
        }
    } else if ch == '>' && st.in_tag && !st.in_string {
        XmlScan {
            pieces: st.pieces.push((st.token.push(ch), tag_part(st.token.push(ch)))),
            token: seq![],
            in_tag: false,
            ..st
        }
    } else if ch == '"' && st.in_tag {
        XmlScan { token: st.token.push(ch), in_string: !st.in_string, ..st }
    } else {
        XmlScan { token: st.token.push(ch), ..st }
    }
}

pub open spec fn xml_run(s: Seq<char>) -> XmlScan
    decreases s.len(),
{
    if s.len() == 0 {
        XmlScan { pieces: seq![], token: seq![], in_tag: false, in_string: false }
    } else {
        xml_step(xml_run(s.drop_last()), s.last())
    }
}

/// The pieces the XML highlighter draws; a tag left open at the end is a
/// tag.
pub open spec fn xml_pieces_spec(s: Seq<char>) -> Seq<(Seq<char>, Part)> {
    let st = xml_run(s);
    add_piece(st.pieces, st.token, if st.in_tag { Part::Tag } else { Part::Text })
}

/// Split XML (or HTML) into the pieces it is highlighted in.
pub fn xml_syntax_highlight(xml: &str) -> (r: Vec<Piece>)
    ensures
        pieces_view(r@) == xml_pieces_spec(xml@),
{
    let cs = chars_of(xml);
    let mut out: Vec<Piece> = Vec::new();
    let mut token: Vec<char> = Vec::new();
    let mut in_tag = false;
    let mut in_string = false;
    let mut i: usize = 0;
    assert(cs@.take(0) =~= Seq::<char>::empty());
    assert(pieces_view(out@) =~= Seq::<(Seq<char>, Part)>::empty());
    while i < cs.len()
        invariant
            i <= cs@.len(),
            cs@ == xml@,
            xml_run(cs@.take(i as int)) == (XmlScan {
                pieces: pieces_view(out@),
                token: token@,
                in_tag,
                in_string,
            }),
        decreases cs@.len() - i,
    {
        let ch = cs[i];
        proof {
            assert(cs@.take(i + 1).drop_last() =~= cs@.take(i as int));
        }
        if ch == '<' && !in_string {
            push_piece(&mut out, &token, Part::Text);
            token = vec![ch];
            in_tag = true;
        } else if ch == '>' && in_tag && !in_string {
            token.push(ch);
            proof {
                reveal_strlit("</");
                reveal_strlit("<?");
                reveal_strlit("<!");
                assert("</"@ =~= seq!['<', '/']);
                assert("<?"@ =~= seq!['<', '?']);
                assert("<!"@ =~= seq!['<', '!']);
            }
            let part = if starts_with_str(&token, "</") {
                Part::Tag
            } else if starts_with_str(&token, "<?") || starts_with_str(&token, "<!") {
                Part::Meta
            } else {
                Part::Tag
            };
            assert(part == tag_part(token@));
            let ghost before = pieces_view(out@);
            out.push(Piece { text: string_of(&token), part });
            assert(pieces_view(out@) =~= before.push((token@, part)));
            token = Vec::new();
            in_tag = false;
        } else if ch == '"' && in_tag {
            token.push(ch);
            in_string = !in_string;
        } else {
            token.push(ch);
        }
        proof {
            assert(token@ =~= xml_run(cs@.take(i + 1)).token);
        }
        i += 1;
    }
    assert(cs@.take(cs@.len() as int) =~= cs@);
    let part = if in_tag {
        Part::Tag
    } else {
        Part::Text
    };
    push_piece(&mut out, &token, part);
    out
}

} // verus!
