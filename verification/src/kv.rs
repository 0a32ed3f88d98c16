//! Key/value text handling: header text, query params and the Authorization
//! header. This is the only place that parses these formats.
//!
//! Header text is one `Key: Value` per line; a leading `#` disables a line.
//! Params use the same format with `=`.
use crate::model::{
    ascii_lower, eq_ignore_ascii_case, eq_ignore_ascii_case_exec, is_insert_pos, map_insert,
    HeaderMap,
};
use crate::text::{
    is_trimmed, is_ws, lacks, plain_line,
    from_utf8_lossy, utf8_lossy, lemma_find_shift, before_char, before_char_exec, find_from_exec, split_char, split_char_exec, append, append_str, chars_of, eq_str, find, join, join_exec, lines, lines_exec, slice_vec,
    split_once, split_once_exec, starts_with, starts_with_exec, starts_with_str, string_of,
    strip_prefix, trim, trim_start, trim_start_vec, trim_vec,
};
use base64::prelude::BASE64_STANDARD;
use base64::Engine;
use vstd::prelude::*;
use vstd::utf8::{decode_utf8, encode_utf8, valid_utf8};

verus! {

// ---------------------------------------------------------------------------
// Base64 (RFC 4648, standard alphabet, with padding)
// ---------------------------------------------------------------------------

/// The character for a 6-bit value in the standard alphabet.
pub open spec fn b64_char(v: int) -> char {
    if v < 26 {
        (('A' as int) + v) as char
    } else if v < 52 {
        (('a' as int) + v - 26) as char
    } else if v < 62 {
        (('0' as int) + v - 52) as char
    } else if v == 62 {
        '+'
    } else {
        '/'
    }
}

/// Standard base64 with `=` padding, three bytes to four characters.
pub open spec fn b64_encode(b: Seq<u8>) -> Seq<char>
    decreases b.len(),
{
    if b.len() == 0 {
        Seq::empty()
    } else {
        let x = b[0] as int;
        if b.len() == 1 {
            seq![b64_char(x / 4), b64_char((x % 4) * 16), '=', '=']
        } else {
            let y = b[1] as int;
            if b.len() == 2 {
                seq![b64_char(x / 4), b64_char((x % 4) * 16 + y / 16), b64_char((y % 16) * 4), '=']
            } else {
                let z = b[2] as int;
                seq![
                    b64_char(x / 4),
                    b64_char((x % 4) * 16 + y / 16),
                    b64_char((y % 16) * 4 + z / 64),
                    b64_char(z % 64),
                ] + b64_encode(b.skip(3))
            }
        }
    }
}

/// `Engine::encode` of `BASE64_STANDARD`: the padded standard encoding.
#[verifier::external_body]
pub(crate) fn base64_encode(bytes: &[u8]) -> (r: String)
    ensures
        r@ == b64_encode(bytes@),
{
    BASE64_STANDARD.encode(bytes)
}

/// `Basic <base64 of "user:password">`.
pub open spec fn basic_auth_value(user: Seq<char>, password: Seq<char>) -> Seq<char> {
    "Basic "@ + b64_encode(encode_utf8(user + seq![':'] + password))
}

pub fn basic_auth(username: &str, password: &str) -> (r: String)
    ensures
        r@ == basic_auth_value(username@, password@),
{
    let mut creds = chars_of(username);
    creds.push(':');
    let p = chars_of(password);
    crate::text::append(&mut creds, &p);
    let creds_str = string_of(&creds);
    let encoded = base64_encode(creds_str.as_str().as_bytes());
    let mut out = chars_of("Basic ");
    let enc = chars_of(encoded.as_str());
    crate::text::append(&mut out, &enc);
    assert(creds@ =~= username@ + seq![':'] + password@);
    string_of(&out)
}


// ---------------------------------------------------------------------------
// Rows of `Key<sep>Value` text
// ---------------------------------------------------------------------------

#[derive(Clone, Debug, PartialEq)]
pub struct KeyValue {
    pub enabled: bool,
    pub key: String,
    pub value: String,
}

/// A row as plain text.
pub struct Row {
    pub enabled: bool,
    pub key: Seq<char>,
    pub value: Seq<char>,
}

impl View for KeyValue {
    type V = Row;

    open spec fn view(&self) -> Row {
        Row { enabled: self.enabled, key: self.key@, value: self.value@ }
    }
}

pub open spec fn rows_view(v: Seq<KeyValue>) -> Seq<Row> {
    v.map_values(|r: KeyValue| r@)
}

pub open spec fn row_is_empty(r: Row) -> bool {
    r.key.len() == 0 && r.value.len() == 0
}

impl KeyValue {
    pub fn new(key: &str, value: &str) -> (r: KeyValue)
        ensures
            r@ == (Row { enabled: true, key: key@, value: value@ }),
    {
        KeyValue { enabled: true, key: string_of(&chars_of(key)), value: string_of(&chars_of(value)) }
    }

    pub fn is_empty(&self) -> (r: bool)
        ensures
            r == row_is_empty(self@),
    {
        self.key.as_str().is_empty() && self.value.as_str().is_empty()
    }
}

/// One editor line (leading whitespace already removed, not empty) as a row:
/// `#` disables it, the key is trimmed and the value kept verbatim.
pub open spec fn row_of(line: Seq<char>, sep: Seq<char>) -> Row {
    let disabled = line.len() > 0 && line[0] == '#';
    let body = if disabled {
        trim_start(line.drop_first())
    } else {
        line
    };
    let (k, v) = match split_once(body, sep) {
        Some(p) => p,
        None => (body, Seq::empty()),
    };
    Row { enabled: !disabled, key: trim(k), value: v }
}

pub open spec fn rows_of(ls: Seq<Seq<char>>, sep: Seq<char>) -> Seq<Row>
    decreases ls.len(),
{
    if ls.len() == 0 {
        Seq::empty()
    } else {
        let rest = rows_of(ls.drop_last(), sep);
        let l = trim_start(ls.last());
        if l.len() == 0 {
            rest
        } else {
            rest.push(row_of(l, sep))
        }
    }
}

pub open spec fn parse_lines_spec(text: Seq<char>, sep: Seq<char>) -> Seq<Row> {
    rows_of(lines(text), sep)
}

fn row_of_exec(line: &[char], sep: &[char]) -> (r: KeyValue)
    ensures
        r@ == row_of(line@, sep@),
{
    let disabled = line.len() > 0 && line[0] == '#';
    let body = if disabled {
        let rest = slice_vec(line, 1, line.len());
        assert(rest@ =~= line@.drop_first());
        trim_start_vec(&rest)
    } else {
        slice_vec(line, 0, line.len())
    };
    assert(!disabled ==> body@ =~= line@);
    let (k, v) = match split_once_exec(&body, sep) {
        Some(p) => p,
        None => (body.clone(), Vec::new()),
    };
    proof {
        if split_once(body@, sep@) is None {
            assert(v@ =~= Seq::<char>::empty());
        }
    }
    let kt = trim_vec(&k);
    KeyValue { enabled: !disabled, key: string_of(&kt), value: string_of(&v) }
}

/// Editor text as rows. Keys are trimmed, values kept verbatim so trailing
/// spaces survive editing.
pub fn parse_lines(text: &str, sep: &str) -> (r: Vec<KeyValue>)
    ensures
        rows_view(r@) == parse_lines_spec(text@, sep@),
{
    let tc = chars_of(text);
    let sc = chars_of(sep);
    let ls = lines_exec(&tc);
    let ghost lsv = lines(text@);
    let mut out: Vec<KeyValue> = Vec::new();
    let mut i: usize = 0;
    assert(lsv.take(0) =~= Seq::<Seq<char>>::empty());
    assert(rows_view(out@) =~= Seq::<Row>::empty());
    while i < ls.len()
        invariant
            i <= ls@.len(),
            ls@.len() == lsv.len(),
            forall|k: int| 0 <= k < ls@.len() ==> #[trigger] ls@[k]@ == lsv[k],
            sc@ == sep@,
            rows_view(out@) == rows_of(lsv.take(i as int), sep@),
        decreases ls@.len() - i,
    {
        let l = trim_start_vec(&ls[i]);
        proof {
            assert(lsv.take(i + 1).drop_last() =~= lsv.take(i as int));
            assert(lsv.take(i + 1).last() == lsv[i as int]);
        }
        if l.len() > 0 {
            let row = row_of_exec(&l, &sc);
            let ghost before = rows_view(out@);
            out.push(row);
            assert(rows_view(out@) =~= before.push(row@));
        }
        i += 1;
    }
    assert(lsv.take(ls@.len() as int) =~= lsv);
    out
}

/// How a row is written back: `key`, or `key<sep>value`, behind `# ` when
/// disabled.
pub open spec fn line_of(r: Row, sep: Seq<char>) -> Seq<char> {
    let body = if r.value.len() == 0 {
        r.key
    } else {
        r.key + sep + r.value
    };
    if r.enabled {
        body
    } else {
        "# "@ + body
    }
}

pub open spec fn kept_lines(rows: Seq<Row>, sep: Seq<char>) -> Seq<Seq<char>>
    decreases rows.len(),
{
    if rows.len() == 0 {
        Seq::empty()
    } else {
        let rest = kept_lines(rows.drop_last(), sep);
        if row_is_empty(rows.last()) {
            rest
        } else {
            rest.push(line_of(rows.last(), sep))
        }
    }
}

pub open spec fn format_lines_spec(rows: Seq<Row>, sep: Seq<char>) -> Seq<char> {
    join(kept_lines(rows, sep), seq!['\n'])
}

/// Inverse of [`parse_lines`]; drops empty rows.
pub fn format_lines(rows: &[KeyValue], sep: &str) -> (r: String)
    ensures
        r@ == format_lines_spec(rows_view(rows@), sep@),
{
    let ghost rv = rows_view(rows@);
    let mut ls: Vec<Vec<char>> = Vec::new();
    let mut i: usize = 0;
    assert(rv.take(0) =~= Seq::<Row>::empty());
    assert(ls@.map_values(|v: Vec<char>| v@) =~= Seq::<Seq<char>>::empty());
    while i < rows.len()
        invariant
            i <= rows@.len(),
            rv == rows_view(rows@),
            ls@.map_values(|v: Vec<char>| v@) == kept_lines(rv.take(i as int), sep@),
        decreases rows@.len() - i,
    {
        let r = &rows[i];
        proof {
            assert(rv.take(i + 1).drop_last() =~= rv.take(i as int));
            assert(rv.take(i + 1).last() == r@);
        }
        if !r.is_empty() {
            let mut body = chars_of(r.key.as_str());
            if !r.value.as_str().is_empty() {
                append_str(&mut body, sep);
                append_str(&mut body, r.value.as_str());
            }
            let line = if r.enabled {
                body
            } else {
                let mut l = chars_of("# ");
                append(&mut l, &body);
                l
            };
            assert(line@ =~= line_of(r@, sep@));
            let ghost before = ls@.map_values(|v: Vec<char>| v@);
            let ghost lv = line@;
            ls.push(line);
            assert(ls@.map_values(|v: Vec<char>| v@) =~= before.push(lv));
        }
        i += 1;
    }
    assert(rv.take(rows@.len() as int) =~= rv);
    let nl = vec!['\n'];
    assert(nl@ =~= seq!['\n']);
    let out = join_exec(&ls, &nl);
    string_of(&out)
}

// ---------------------------------------------------------------------------
// Formatting then parsing gives the rows back
// ---------------------------------------------------------------------------

/// A separator that survives a round trip: not empty and on one line.
pub open spec fn plain_sep(sep: Seq<char>) -> bool {
    sep.len() > 0 && lacks(sep, '\n')
}

/// A row that the text form can hold: a trimmed key, no line breaks, no
/// `\r` closing the line, an enabled key that does not start with `#`, and
/// the first separator of the line right after the key (none at all when
/// there is no value). A line made of the separator and the value starts
/// with neither whitespace nor, when enabled, `#`.
pub open spec fn row_survives(r: Row, sep: Seq<char>) -> bool {
    &&& is_trimmed(r.key)
    &&& lacks(r.key, '\n')
    &&& lacks(r.value, '\n')
    &&& (r.value.len() > 0 ==> r.value.last() != '\r')
    &&& (r.enabled && r.key.len() > 0 ==> r.key[0] != '#')
    &&& (r.value.len() == 0 ==> find(r.key, sep) is None)
    &&& (r.value.len() > 0 ==> find(r.key + sep, sep) == Some(r.key.len() as int))
    &&& (r.key.len() == 0 && r.value.len() > 0 ==> !is_ws(sep[0]) && (r.enabled ==> sep[0]
        != '#'))
}

/// The rows that are not empty, in order.
pub open spec fn non_empty_rows(rows: Seq<Row>) -> Seq<Row>
    decreases rows.len(),
{
    if rows.len() == 0 {
        Seq::empty()
    } else {
        let rest = non_empty_rows(rows.drop_last());
        if row_is_empty(rows.last()) {
            rest
        } else {
            rest.push(rows.last())
        }
    }
}

/// The line a surviving row is written as: what comes before `# `, how it
/// starts and ends, and where the separator splits it.
pub proof fn lemma_line_body(r: Row, sep: Seq<char>)
    requires
        plain_sep(sep),
        row_survives(r, sep),
        !row_is_empty(r),
    ensures
        ({
            let body = if r.value.len() == 0 {
                r.key
            } else {
                r.key + sep + r.value
            };
            &&& body.len() > 0
            &&& !is_ws(body[0])
            &&& (r.enabled ==> body[0] != '#')
            &&& plain_line(body)
            &&& trim_start(body) == body
            &&& trim(r.key) == r.key
            &&& (r.value.len() == 0 ==> split_once(body, sep) is None)
            &&& (r.value.len() > 0 ==> split_once(body, sep) == Some((r.key, r.value)))
        }),
{
    let body = if r.value.len() == 0 {
        r.key
    } else {
        r.key + sep + r.value
    };
    if r.key.len() > 0 {
        assert(body[0] == r.key[0]);
    } else {
        assert(body[0] == sep[0]);
    }
    assert forall|i: int| 0 <= i < body.len() implies body[i] != '\n' by {
        if r.value.len() > 0 {
            if i < r.key.len() {
                assert(body[i] == r.key[i]);
            } else if i < r.key.len() + sep.len() {
                assert(body[i] == sep[i - r.key.len()]);
            } else {
                assert(body[i] == r.value[i - r.key.len() - sep.len()]);
            }
        }
    }
    if r.value.len() > 0 {
        assert(body.last() == r.value.last());
    }
    crate::text::lemma_trim_trimmed(r.key);
    if r.value.len() > 0 {
        crate::text::lemma_find_extend(r.key + sep, sep, r.value, r.key.len() as int);
        assert(body.take(r.key.len() as int) =~= r.key);
        assert(body.skip((r.key.len() + sep.len()) as int) =~= r.value);
    }
}

proof fn lemma_row_of_line(r: Row, sep: Seq<char>)
    requires
        plain_sep(sep),
        row_survives(r, sep),
        !row_is_empty(r),
    ensures
        trim_start(line_of(r, sep)) == line_of(r, sep),
        plain_line(line_of(r, sep)),
        row_of(line_of(r, sep), sep) == r,
{
    reveal_strlit("# ");
    let body = if r.value.len() == 0 {
        r.key
    } else {
        r.key + sep + r.value
    };
    lemma_line_body(r, sep);
    let line = line_of(r, sep);
    if !r.enabled {
        let rest = seq![' '] + body;
        assert(line =~= seq!['#'] + rest);
        assert(line.drop_first() =~= rest);
        assert(rest.drop_first() =~= body);
        assert(trim_start(rest) == trim_start(body));
        assert(lacks(line, '\n'));
        assert(line.last() == body.last());
    }
    if r.enabled {
        assert(line == body);
    } else {
        assert(line[0] == '#');
    }
    let rr = row_of(line, sep);
    assert(rr.enabled == r.enabled);
    assert(rr.key =~= r.key);
    assert(rr.value =~= r.value);
}

proof fn lemma_rows_of_kept(rows: Seq<Row>, sep: Seq<char>)
    requires
        plain_sep(sep),
        forall|i: int| 0 <= i < rows.len() ==> row_survives(#[trigger] rows[i], sep),
    ensures
        rows_of(kept_lines(rows, sep), sep) == non_empty_rows(rows),
        forall|i: int|
            0 <= i < kept_lines(rows, sep).len() ==> plain_line(#[trigger] kept_lines(rows, sep)[i]),
    decreases rows.len(),
{
    if rows.len() > 0 {
        let init = rows.drop_last();
        assert forall|i: int| 0 <= i < init.len() implies row_survives(#[trigger] init[i], sep) by {
            assert(init[i] == rows[i]);
        }
        lemma_rows_of_kept(init, sep);
        let r = rows.last();
        assert(row_survives(rows[rows.len() - 1], sep));
        if !row_is_empty(r) {
            lemma_row_of_line(r, sep);
            let kl = kept_lines(init, sep);
            let l = line_of(r, sep);
            assert(kept_lines(rows, sep) == kl.push(l));
            assert(kl.push(l).drop_last() =~= kl);
            assert(kl.push(l).last() == l);
            assert forall|i: int| 0 <= i < kl.push(l).len() implies plain_line(
                #[trigger] kl.push(l)[i],
            ) by {
                if i < kl.len() {
                    assert(kl.push(l)[i] == kl[i]);
                }
            }
        }
    }
}

/// Formatting rows as text and parsing the text gives back the rows that
/// are not empty, for rows the text can hold.
pub proof fn law_format_then_parse(rows: Seq<Row>, sep: Seq<char>)
    requires
        plain_sep(sep),
        forall|i: int| 0 <= i < rows.len() ==> row_survives(#[trigger] rows[i], sep),
    ensures
        parse_lines_spec(format_lines_spec(rows, sep), sep) == non_empty_rows(rows),
{
    lemma_rows_of_kept(rows, sep);
    crate::text::lemma_lines_join(kept_lines(rows, sep));
}

pub open spec fn count_enabled_spec(rows: Seq<Row>) -> nat
    decreases rows.len(),
{
    if rows.len() == 0 {
        0
    } else {
        count_enabled_spec(rows.drop_last()) + if rows.last().enabled && rows.last().key.len() > 0 {
            1nat
        } else {
            0nat
        }
    }
}

/// Rows that are enabled and have a key.
pub fn count_enabled(rows: &[KeyValue]) -> (r: usize)
    ensures
        r == count_enabled_spec(rows_view(rows@)),
{
    let ghost rv = rows_view(rows@);
    let mut n: usize = 0;
    let mut i: usize = 0;
    assert(rv.take(0) =~= Seq::<Row>::empty());
    while i < rows.len()
        invariant
            i <= rows@.len(),
            rv == rows_view(rows@),
            n == count_enabled_spec(rv.take(i as int)),
            n <= i,
        decreases rows@.len() - i,
    {
        proof {
            assert(rv.take(i + 1).drop_last() =~= rv.take(i as int));
            assert(rv.take(i + 1).last() == rows@[i as int]@);
        }
        if rows[i].enabled && !rows[i].key.as_str().is_empty() {
            n += 1;
        }
        i += 1;
    }
    assert(rv.take(rows@.len() as int) =~= rv);
    n
}

// ---------------------------------------------------------------------------
// Headers sent and saved
// ---------------------------------------------------------------------------

/// The `(name, value)` pairs of the enabled `Key: Value` lines, trimmed, in
/// order; lines without a colon or with an empty name are ignored.
pub open spec fn header_pairs(ls: Seq<Seq<char>>) -> Seq<(Seq<char>, Seq<char>)>
    decreases ls.len(),
{
    if ls.len() == 0 {
        Seq::empty()
    } else {
        let rest = header_pairs(ls.drop_last());
        let t = trim(ls.last());
        if t.len() > 0 && t[0] == '#' {
            rest
        } else {
            match split_once(t, seq![':']) {
                Some((k, v)) => if trim(k).len() > 0 {
                    rest.push((trim(k), trim(v)))
                } else {
                    rest
                },
                None => rest,
            }
        }
    }
}

pub open spec fn insert_pos(s: Seq<(Seq<char>, Seq<char>)>, k: Seq<char>) -> int {
    choose|p: int| is_insert_pos(s, k, p)
}

/// The sorted map built by inserting the pairs in order (later ones win).
pub open spec fn map_of_pairs(ps: Seq<(Seq<char>, Seq<char>)>) -> Seq<(Seq<char>, Seq<char>)>
    decreases ps.len(),
{
    if ps.len() == 0 {
        Seq::empty()
    } else {
        let m = map_of_pairs(ps.drop_last());
        map_insert(m, ps.last().0, ps.last().1, insert_pos(m, ps.last().0))
    }
}

pub proof fn lemma_insert_pos_unique(s: Seq<(Seq<char>, Seq<char>)>, k: Seq<char>, p: int)
    requires
        is_insert_pos(s, k, p),
    ensures
        insert_pos(s, k) == p,
{
    let q = insert_pos(s, k);
    assert(is_insert_pos(s, k, q));
    if q < p {
        assert(crate::model::seq_lt(s[q].0, k));
    } else if p < q {
        assert(crate::model::seq_lt(s[p].0, k));
    }
}

/// The headers that actually get sent or saved.
pub fn headers_to_map(text: &str) -> (r: HeaderMap)
    ensures
        r@ == map_of_pairs(header_pairs(lines(text@))),
{
    let tc = chars_of(text);
    let ls = lines_exec(&tc);
    let ghost lsv = lines(text@);
    let mut map = HeaderMap::new();
    let mut i: usize = 0;
    assert(lsv.take(0) =~= Seq::<Seq<char>>::empty());
    while i < ls.len()
        invariant
            i <= ls@.len(),
            ls@.len() == lsv.len(),
            forall|k: int| 0 <= k < ls@.len() ==> #[trigger] ls@[k]@ == lsv[k],
            map@ == map_of_pairs(header_pairs(lsv.take(i as int))),
        decreases ls@.len() - i,
    {
        proof {
            assert(lsv.take(i + 1).drop_last() =~= lsv.take(i as int));
            assert(lsv.take(i + 1).last() == lsv[i as int]);
        }
        let t = trim_vec(&ls[i]);
        if !(t.len() > 0 && t[0] == '#') {
            match crate::text::split_once_char(&t, ':') {
                Some((k, v)) => {
                    let kt = trim_vec(&k);
                    if kt.len() > 0 {
                        let vt = trim_vec(&v);
                        let ghost m0 = map@;
                        map.insert(string_of(&kt), string_of(&vt));
                        proof {
                            let p = choose|p: int|
                                is_insert_pos(m0, kt@, p) && map@ == map_insert(m0, kt@, vt@, p);
                            lemma_insert_pos_unique(m0, kt@, p);
                            let ps = header_pairs(lsv.take(i + 1));
                            assert(ps == header_pairs(lsv.take(i as int)).push((kt@, vt@)));
                            assert(ps.drop_last() =~= header_pairs(lsv.take(i as int)));
                        }
                    }
                },
                None => {},
            }
        }
        i += 1;
    }
    assert(lsv.take(ls@.len() as int) =~= lsv);
    map
}

pub open spec fn header_line(h: (Seq<char>, Seq<char>)) -> Seq<char> {
    h.0 + seq![':', ' '] + h.1
}

/// `Key: Value` lines for a list of headers.
pub fn map_to_headers(headers: &[(String, String)]) -> (r: String)
    ensures
        r@ == join(
            crate::model::entries_view(headers@).map_values(
                |h: (Seq<char>, Seq<char>)| header_line(h),
            ),
            seq!['\n'],
        ),
{
    let ghost hv = crate::model::entries_view(headers@);
    let ghost want = hv.map_values(|h: (Seq<char>, Seq<char>)| header_line(h));
    let mut ls: Vec<Vec<char>> = Vec::new();
    let mut i: usize = 0;
    while i < headers.len()
        invariant
            i <= headers@.len(),
            hv == crate::model::entries_view(headers@),
            want == hv.map_values(|h: (Seq<char>, Seq<char>)| header_line(h)),
            ls@.map_values(|v: Vec<char>| v@) == want.take(i as int),
        decreases headers@.len() - i,
    {
        let mut l = chars_of(headers[i].0.as_str());
        append_str(&mut l, ": ");
        append_str(&mut l, headers[i].1.as_str());
        proof {
            reveal_strlit(": ");
            assert(l@ =~= want[i as int]);
        }
        let ghost before = ls@.map_values(|v: Vec<char>| v@);
        let ghost lv = l@;
        ls.push(l);
        assert(want.take(i + 1) =~= want.take(i as int).push(want[i as int]));
        assert(ls@.map_values(|v: Vec<char>| v@) =~= before.push(lv));
        i += 1;
    }
    assert(want.take(headers@.len() as int) =~= want);
    let nl = vec!['\n'];
    assert(nl@ =~= seq!['\n']);
    string_of(&join_exec(&ls, &nl))
}


// ---------------------------------------------------------------------------
// Authorization header: the header text is the single source of truth; the
// Auth tab is only a view over it.
// ---------------------------------------------------------------------------

#[derive(Clone, Copy, Debug, PartialEq, Eq, Structural)]
pub enum AuthMode {
    NoAuth,
    Basic,
    Bearer,
    Custom,
}

impl AuthMode {
    pub fn all() -> (r: [AuthMode; 4])
        ensures
            r@ == seq![AuthMode::NoAuth, AuthMode::Basic, AuthMode::Bearer, AuthMode::Custom],
    {
        let r = [AuthMode::NoAuth, AuthMode::Basic, AuthMode::Bearer, AuthMode::Custom];
        assert(r@ =~= seq![AuthMode::NoAuth, AuthMode::Basic, AuthMode::Bearer, AuthMode::Custom]);
        r
    }

    pub fn label(self) -> (r: &'static str)
        ensures
            r@ == match self {
                AuthMode::NoAuth => "None"@,
                AuthMode::Basic => "Basic"@,
                AuthMode::Bearer => "Bearer"@,
                AuthMode::Custom => "Custom"@,
            },
    {
        match self {
            AuthMode::NoAuth => "None",
            AuthMode::Basic => "Basic",
            AuthMode::Bearer => "Bearer",
            AuthMode::Custom => "Custom",
        }
    }
}

/// The line is an `Authorization:` line (name in any ASCII case).
pub open spec fn auth_line(t: Seq<char>) -> bool {
    t.len() >= 14 && eq_ignore_ascii_case(t.take(14), "authorization:"@)
}

fn auth_line_exec(t: &[char]) -> (r: bool)
    ensures
        r == auth_line(t@),
{
    if t.len() < 14 {
        return false;
    }
    let head = slice_vec(t, 0, 14);
    assert(head@ =~= t@.take(14));
    eq_ignore_ascii_case_exec(&head, &chars_of("authorization:"))
}

/// The value of the first enabled `Authorization:` line, with only the
/// whitespace after the colon removed.
pub open spec fn first_auth_value(ls: Seq<Seq<char>>) -> Option<Seq<char>>
    decreases ls.len(),
{
    if ls.len() == 0 {
        None
    } else {
        let t = trim_start(ls[0]);
        if auth_line(t) {
            Some(trim_start(t.skip(14)))
        } else {
            first_auth_value(ls.drop_first())
        }
    }
}

pub open spec fn auth_value_spec(text: Seq<char>) -> Option<Seq<char>> {
    first_auth_value(lines(text))
}

pub open spec fn opt_str_view(o: Option<String>) -> Option<Seq<char>> {
    match o {
        Some(s) => Some(s@),
        None => None,
    }
}

/// Value of the first enabled `Authorization:` line. Only the space after the
/// colon is stripped so users can type trailing spaces (e.g. "Digest ").
pub fn auth_value(headers_text: &str) -> (r: Option<String>)
    ensures
        opt_str_view(r) == auth_value_spec(headers_text@),
{
    let tc = chars_of(headers_text);
    let ls = lines_exec(&tc);
    let ghost lsv = lines(headers_text@);
    let mut i: usize = 0;
    assert(lsv.skip(0) =~= lsv);
    while i < ls.len()
        invariant
            i <= ls@.len(),
            ls@.len() == lsv.len(),
            forall|k: int| 0 <= k < ls@.len() ==> #[trigger] ls@[k]@ == lsv[k],
            auth_value_spec(headers_text@) == first_auth_value(lsv.skip(i as int)),
        decreases ls@.len() - i,
    {
        let t = trim_start_vec(&ls[i]);
        proof {
            assert(lsv.skip(i as int)[0] == lsv[i as int]);
            assert(lsv.skip(i as int).drop_first() =~= lsv.skip(i + 1));
        }
        if auth_line_exec(&t) {
            let rest = slice_vec(&t, 14, t.len());
            assert(rest@ =~= t@.skip(14));
            let v = trim_start_vec(&rest);
            return Some(string_of(&v));
        }
        i += 1;
    }
    assert(lsv.skip(i as int) =~= Seq::<Seq<char>>::empty());
    None
}

pub open spec fn auth_mode_of(v: Option<Seq<char>>) -> AuthMode {
    match v {
        None => AuthMode::NoAuth,
        Some(v) => if v == "Basic"@ || starts_with(v, "Basic "@) {
            AuthMode::Basic
        } else if v == "Bearer"@ || starts_with(v, "Bearer "@) {
            AuthMode::Bearer
        } else {
            AuthMode::Custom
        },
    }
}

pub fn auth_mode(headers_text: &str) -> (r: AuthMode)
    ensures
        r == auth_mode_of(auth_value_spec(headers_text@)),
{
    match auth_value(headers_text) {
        None => AuthMode::NoAuth,
        Some(v) => {
            let vc = chars_of(v.as_str());
            if eq_str(&vc, "Basic") || starts_with_str(&vc, "Basic ") {
                AuthMode::Basic
            } else if eq_str(&vc, "Bearer") || starts_with_str(&vc, "Bearer ") {
                AuthMode::Bearer
            } else {
                AuthMode::Custom
            }
        },
    }
}

pub open spec fn auth_header_line(v: Seq<char>) -> Seq<char> {
    "Authorization: "@ + v
}

/// The lines with the first `Authorization:` line replaced by `value`'s line
/// (or removed for `None`), and whether there was one.
pub open spec fn replace_auth(ls: Seq<Seq<char>>, value: Option<Seq<char>>) -> (
    Seq<Seq<char>>,
    bool,
)
    decreases ls.len(),
{
    if ls.len() == 0 {
        (Seq::empty(), false)
    } else if auth_line(trim_start(ls[0])) {
        (
            match value {
                Some(v) => seq![auth_header_line(v)],
                None => Seq::empty(),
            } + ls.drop_first(),
            true,
        )
    } else {
        let rest = replace_auth(ls.drop_first(), value);
        (seq![ls[0]] + rest.0, rest.1)
    }
}

pub open spec fn set_auth_spec(text: Seq<char>, value: Option<Seq<char>>) -> Seq<char> {
    let (ls, replaced) = replace_auth(lines(text), value);
    join(
        match value {
            Some(v) => if replaced {
                ls
            } else {
                ls.push(auth_header_line(v))
            },
            None => ls,
        },
        seq!['\n'],
    )
}

/// Replace, add (`Some`) or remove (`None`) the enabled Authorization line.
/// Disabled `# Authorization:` lines are left alone.
pub fn set_auth(headers_text: &str, value: Option<&str>) -> (r: String)
    ensures
        r@ == set_auth_spec(
            headers_text@,
            match value {
                Some(v) => Some(v@),
                None => None,
            },
        ),
{
    let ghost vv = match value {
        Some(v) => Some(v@),
        None => None,
    };
    let tc = chars_of(headers_text);
    let ls = lines_exec(&tc);
    let ghost lsv = lines(headers_text@);
    let mut out: Vec<Vec<char>> = Vec::new();
    let mut replaced = false;
    let mut i: usize = 0;
    assert(lsv.skip(0) =~= lsv);
    assert(out@.map_values(|v: Vec<char>| v@) =~= Seq::<Seq<char>>::empty());
    while i < ls.len()
        invariant
            i <= ls@.len(),
            ls@.len() == lsv.len(),
            forall|k: int| 0 <= k < ls@.len() ==> #[trigger] ls@[k]@ == lsv[k],
            vv == match value {
                Some(v) => Some(v@),
                None => None,
            },
            !replaced ==> replace_auth(lsv, vv) == (out@.map_values(|v: Vec<char>| v@)
                + replace_auth(lsv.skip(i as int), vv).0, replace_auth(lsv.skip(i as int), vv).1),
            replaced ==> replace_auth(lsv, vv) == (out@.map_values(|v: Vec<char>| v@)
                + lsv.skip(i as int), true),
        decreases ls@.len() - i,
    {
        let ghost before = out@.map_values(|v: Vec<char>| v@);
        proof {
            assert(lsv.skip(i as int)[0] == lsv[i as int]);
            assert(lsv.skip(i as int).drop_first() =~= lsv.skip(i + 1));
        }
        let t = trim_start_vec(&ls[i]);
        if !replaced && auth_line_exec(&t) {
            replaced = true;
            match value {
                Some(v) => {
                    let mut l = chars_of("Authorization: ");
                    append_str(&mut l, v);
                    let ghost lv = l@;
                    out.push(l);
                    assert(out@.map_values(|v: Vec<char>| v@) =~= before.push(lv));
                    assert(before.push(lv) + lsv.skip(i + 1) =~= before + (seq![lv] + lsv.skip(
                        i + 1,
                    )));
                },
                None => {
                    assert(before + lsv.skip(i + 1) =~= before + (Seq::<Seq<char>>::empty()
                        + lsv.skip(i + 1)));
                },
            }
        } else {
            let l = slice_vec(&ls[i], 0, ls[i].len());
            assert(l@ =~= lsv[i as int]);
            let ghost lv = l@;
            out.push(l);
            assert(out@.map_values(|v: Vec<char>| v@) =~= before.push(lv));
            proof {
                if replaced {
                    assert(before.push(lv) + lsv.skip(i + 1) =~= before + lsv.skip(i as int));
                } else {
                    let rest = replace_auth(lsv.skip(i + 1), vv);
                    assert(before.push(lv) + rest.0 =~= before + (seq![lv] + rest.0));
                }
            }
        }
        i += 1;
    }
    proof {
        assert(lsv.skip(i as int) =~= Seq::<Seq<char>>::empty());
        assert(out@.map_values(|v: Vec<char>| v@) + Seq::<Seq<char>>::empty() =~= out@.map_values(
            |v: Vec<char>| v@,
        ));
    }
    if !replaced {
        match value {
            Some(v) => {
                let mut l = chars_of("Authorization: ");
                append_str(&mut l, v);
                let ghost before = out@.map_values(|v: Vec<char>| v@);
                let ghost lv = l@;
                out.push(l);
                assert(out@.map_values(|v: Vec<char>| v@) =~= before.push(lv));
            },
            None => {},
        }
    }
    let nl = vec!['\n'];
    assert(nl@ =~= seq!['\n']);
    string_of(&join_exec(&out, &nl))
}

// ---------------------------------------------------------------------------
// Reading back what `set_auth` wrote
// ---------------------------------------------------------------------------

/// `l` without one `\r` at its end.
pub open spec fn strip_cr(l: Seq<char>) -> Seq<char> {
    if l.len() > 0 && l.last() == '\r' {
        l.drop_last()
    } else {
        l
    }
}

/// There is no `Authorization:` line, or the first one is the last line.
pub open spec fn auth_line_last(ls: Seq<Seq<char>>) -> bool
    decreases ls.len(),
{
    if ls.len() == 0 {
        true
    } else if auth_line(trim_start(ls[0])) {
        ls.len() == 1
    } else {
        auth_line_last(ls.drop_first())
    }
}

proof fn lemma_lacks_before_find(s: Seq<char>, i: int)
    requires
        find(s, seq!['\n']) == Some(i),
    ensures
        0 <= i < s.len(),
        s[i] == '\n',
        lacks(s.take(i), '\n'),
{
    crate::text::lemma_find_from_bounds(s, seq!['\n'], 0);
    assert(s.subrange(i, i + 1)[0] == s[i]);
    assert forall|j: int| 0 <= j < i implies s.take(i)[j] != '\n' by {
        if s[j] == '\n' {
            assert(s.subrange(j, j + 1) =~= seq!['\n']);
            assert(crate::text::matches_at(s, seq!['\n'], j));
        }
    }
}

proof fn lemma_lacks_no_find(s: Seq<char>)
    requires
        find(s, seq!['\n']) is None,
    ensures
        lacks(s, '\n'),
{
    crate::text::lemma_find_from_bounds(s, seq!['\n'], 0);
    assert forall|j: int| 0 <= j < s.len() implies s[j] != '\n' by {
        if s[j] == '\n' {
            assert(s.subrange(j, j + 1) =~= seq!['\n']);
            assert(crate::text::matches_at(s, seq!['\n'], j));
        }
    }
}

/// No line that `lines` gives holds a newline.
proof fn lemma_lines_lack_newline(s: Seq<char>)
    ensures
        forall|i: int| 0 <= i < lines(s).len() ==> lacks(#[trigger] lines(s)[i], '\n'),
    decreases s.len(),
{
    if s.len() > 0 {
        match find(s, seq!['\n']) {
            None => {
                lemma_lacks_no_find(s);
                assert(lines(s) == seq![s]);
            },
            Some(i) => {
                lemma_lacks_before_find(s, i);
                lemma_lines_lack_newline(s.skip(i + 1));
                let line = strip_cr(s.take(i));
                assert(lines(s) == seq![line] + lines(s.skip(i + 1)));
                assert forall|k: int| 0 <= k < lines(s).len() implies lacks(
                    #[trigger] lines(s)[k],
                    '\n',
                ) by {
                    if k > 0 {
                        assert(lines(s)[k] == lines(s.skip(i + 1))[k - 1]);
                    } else {
                        assert(lines(s)[k] == line);
                    }
                }
            },
        }
    }
}

/// A line and a newline in front of `t`.
pub(crate) proof fn lemma_lines_front(a: Seq<char>, t: Seq<char>)
    requires
        lacks(a, '\n'),
    ensures
        lines(a + seq!['\n'] + t) == seq![strip_cr(a)] + lines(t),
{
    let s = a + seq!['\n'] + t;
    crate::text::lemma_find_char_after(a, '\n', t);
    assert(s.take(a.len() as int) =~= a);
    assert(s.skip(a.len() + 1int) =~= t);
}

/// A text without newline is one line, or none when empty.
pub(crate) proof fn lemma_lines_single(a: Seq<char>)
    requires
        lacks(a, '\n'),
    ensures
        lines(a) == (if a.len() == 0 {
            Seq::<Seq<char>>::empty()
        } else {
            seq![a]
        }),
{
    if a.len() > 0 {
        crate::text::lemma_find_char_none(a, '\n');
    }
}

proof fn lemma_trim_start_drop_last(l: Seq<char>)
    requires
        l.len() > 0,
    ensures
        trim_start(l.drop_last()) == (if trim_start(l).len() > 0 {
            trim_start(l).drop_last()
        } else {
            Seq::<char>::empty()
        }),
    decreases l.len(),
{
    if is_ws(l[0]) {
        if l.len() >= 2 {
            assert(l.drop_last().drop_first() =~= l.drop_first().drop_last());
            lemma_trim_start_drop_last(l.drop_first());
        } else {
            assert(l.drop_first() =~= Seq::<char>::empty());
            assert(l.drop_last() =~= Seq::<char>::empty());
        }
    } else if l.len() == 1 {
        assert(l.drop_last() =~= Seq::<char>::empty());
    }
}

/// Dropping a `\r` at its end does not make a line an `Authorization:` line.
proof fn lemma_strip_cr_not_auth(l: Seq<char>)
    requires
        !auth_line(trim_start(l)),
    ensures
        !auth_line(trim_start(strip_cr(l))),
{
    if l.len() > 0 && l.last() == '\r' {
        lemma_trim_start_drop_last(l);
        let x = trim_start(l);
        if x.len() > 0 && auth_line(x.drop_last()) {
            assert(x.drop_last().take(14) =~= x.take(14));
        }
    }
}

/// In lines without newlines whose first `Authorization:` line (at `k`) is
/// `Authorization: v`, joined and split again, that line's value is found.
proof fn lemma_first_auth_join(ls: Seq<Seq<char>>, k: int, v: Seq<char>)
    requires
        forall|i: int| 0 <= i < ls.len() ==> lacks(#[trigger] ls[i], '\n'),
        0 <= k < ls.len(),
        ls[k] == auth_header_line(v),
        forall|j: int| 0 <= j < k ==> !auth_line(trim_start(#[trigger] ls[j])),
        k == ls.len() - 1 || v.len() == 0 || v.last() != '\r',
    ensures
        first_auth_value(lines(join(ls, seq!['\n']))) == Some(trim_start(v)),
    decreases ls.len(),
{
    reveal_strlit("Authorization: ");
    let line = auth_header_line(v);
    assert(line[0] == 'A');
    assert(trim_start(line) == line);
    assert(auth_line(line)) by {
        reveal_strlit("authorization:");
        let a = line.take(14);
        let b = "authorization:"@;
        assert forall|i: int| 0 <= i < a.len() implies crate::model::ascii_lower(a[i])
            == crate::model::ascii_lower(b[i]) by {
            assert(a[i] == "Authorization: "@[i]);
        }
    }
    assert(line.skip(14) =~= seq![' '] + v);
    assert(trim_start(seq![' '] + v) == trim_start((seq![' '] + v).drop_first()));
    assert((seq![' '] + v).drop_first() =~= v);
    if ls.len() == 1 {
        lemma_lines_single(ls[0]);
        assert(join(ls, seq!['\n']) == ls[0]);
        assert(lines(ls[0]) == seq![line]);
        assert(seq![line].drop_first() =~= Seq::<Seq<char>>::empty());
    } else {
        crate::text::lemma_join_front(ls, seq!['\n']);
        let rest = ls.drop_first();
        let t = join(rest, seq!['\n']);
        assert(lacks(ls[0], '\n'));
        lemma_lines_front(ls[0], t);
        let out = lines(join(ls, seq!['\n']));
        assert(out == seq![strip_cr(ls[0])] + lines(t));
        assert(out.drop_first() =~= lines(t));
        if k == 0 {
            assert(strip_cr(ls[0]) == line);
            assert(out[0] == line);
        } else {
            lemma_strip_cr_not_auth(ls[0]);
            assert(out[0] == strip_cr(ls[0]));
            assert forall|i: int| 0 <= i < rest.len() implies lacks(#[trigger] rest[i], '\n') by {
                assert(rest[i] == ls[i + 1]);
            }
            assert forall|j: int| 0 <= j < k - 1 implies !auth_line(trim_start(#[trigger] rest[j])) by {
                assert(rest[j] == ls[j + 1]);
            }
            lemma_first_auth_join(rest, k - 1, v);
        }
    }
}

/// Where `replace_auth` put the new line: at the first `Authorization:`
/// line when there was one, with no such line before it.
proof fn lemma_replace_auth_shape(ls: Seq<Seq<char>>, v: Seq<char>) -> (k: int)
    ensures
        replace_auth(ls, Some(v)).0.len() == ls.len(),
        replace_auth(ls, Some(v)).1 ==> (0 <= k < ls.len() && replace_auth(ls, Some(v)).0[k]
            == auth_header_line(v) && (auth_line_last(ls) ==> k == ls.len() - 1)),
        !replace_auth(ls, Some(v)).1 ==> replace_auth(ls, Some(v)).0 == ls,
        !replace_auth(ls, Some(v)).1 ==> forall|j: int|
            0 <= j < ls.len() ==> !auth_line(trim_start(#[trigger] ls[j])),
        forall|j: int|
            0 <= j < ls.len() && (!replace_auth(ls, Some(v)).1 || j < k) ==> #[trigger] replace_auth(
                ls,
                Some(v),
            ).0[j] == ls[j] && !auth_line(trim_start(ls[j])),
        forall|j: int|
            0 <= j < ls.len() && replace_auth(ls, Some(v)).1 && j > k ==> #[trigger] replace_auth(
                ls,
                Some(v),
            ).0[j] == ls[j],
    decreases ls.len(),
{
    if ls.len() == 0 {
        0
    } else if auth_line(trim_start(ls[0])) {
        let out = replace_auth(ls, Some(v)).0;
        assert(out == seq![auth_header_line(v)] + ls.drop_first());
        assert forall|j: int| 0 <= j < ls.len() && j > 0 implies #[trigger] out[j] == ls[j] by {
            assert(out[j] == ls.drop_first()[j - 1]);
        }
        0
    } else {
        let rest = ls.drop_first();
        let k0 = lemma_replace_auth_shape(rest, v);
        let r = replace_auth(rest, Some(v));
        let out = replace_auth(ls, Some(v)).0;
        assert(out == seq![ls[0]] + r.0);
        assert forall|j: int| 0 < j < ls.len() implies #[trigger] out[j] == r.0[j - 1] by {}
        if !r.1 {
            assert(out =~= ls);
            assert forall|j: int| 0 <= j < ls.len() implies !auth_line(trim_start(#[trigger] ls[j])) by {
                if j > 0 {
                    assert(ls[j] == rest[j - 1]);
                }
            }
        } else {
            assert forall|j: int| 0 <= j < ls.len() && j < k0 + 1 implies #[trigger] out[j] == ls[j]
                && !auth_line(trim_start(ls[j])) by {
                if j > 0 {
                    assert(ls[j] == rest[j - 1]);
                    assert(out[j] == r.0[j - 1]);
                    assert(r.0[j - 1] == rest[j - 1] && !auth_line(trim_start(rest[j - 1])));
                } else {
                    assert(out[0] == ls[0]);
                }
            }
            assert forall|j: int| 0 <= j < ls.len() && j > k0 + 1 implies #[trigger] out[j] == ls[j] by {
                assert(ls[j] == rest[j - 1]);
            }
        }
        assert forall|j: int|
            0 <= j < ls.len() && (!replace_auth(ls, Some(v)).1 || j < k0 + 1) implies #[trigger] replace_auth(
                ls,
                Some(v),
            ).0[j] == ls[j] && !auth_line(trim_start(ls[j])) by {
            assert(replace_auth(ls, Some(v)).0[j] == out[j]);
            if j > 0 {
                assert(ls[j] == rest[j - 1]);
                assert(out[j] == r.0[j - 1]);
            }
        }
        k0 + 1
    }
}

/// Setting the auth header to a value on one line and reading it back gives
/// that value with its leading whitespace dropped. (A value ending in `\r`
/// is excluded where its line is not the last one: reading the lines back
/// drops that `\r`.)
pub proof fn law_auth_read_after_set(text: Seq<char>, v: Seq<char>)
    requires
        lacks(v, '\n'),
        v.len() == 0 || v.last() != '\r' || auth_line_last(lines(text)),
    ensures
        auth_value_spec(set_auth_spec(text, Some(v))) == Some(trim_start(v)),
{
    let ls = lines(text);
    lemma_lines_lack_newline(text);
    let k = lemma_replace_auth_shape(ls, v);
    let (out, replaced) = replace_auth(ls, Some(v));
    reveal_strlit("Authorization: ");
    assert(lacks(auth_header_line(v), '\n')) by {
        assert forall|i: int| 0 <= i < auth_header_line(v).len() implies auth_header_line(v)[i]
            != '\n' by {
            if i >= 15 {
                assert(auth_header_line(v)[i] == v[i - 15]);
            }
        }
    }
    if replaced {
        assert forall|i: int| 0 <= i < out.len() implies lacks(#[trigger] out[i], '\n') by {
            if i != k {
                assert(out[i] == ls[i]);
            }
        }
        assert forall|j: int| 0 <= j < k implies !auth_line(trim_start(#[trigger] out[j])) by {
            assert(out[j] == ls[j]);
        }
        if v.len() > 0 && v.last() == '\r' {
            assert(auth_line_last(ls));
        }
        lemma_first_auth_join(out, k, v);
    } else {
        let all = out.push(auth_header_line(v));
        assert forall|i: int| 0 <= i < all.len() implies lacks(#[trigger] all[i], '\n') by {
            if i < out.len() {
                assert(all[i] == ls[i]);
            }
        }
        assert forall|j: int| 0 <= j < out.len() implies !auth_line(trim_start(#[trigger] all[j])) by {
            assert(all[j] == ls[j]);
        }
        lemma_first_auth_join(all, out.len() as int, v);
    }
}


/// `Engine::decode` of `BASE64_STANDARD`: the bytes whose padded standard
/// encoding is exactly the text (this engine requires canonical padding and
/// rejects trailing bits), `None` when there are none.
#[verifier::external_body]
fn base64_decode(s: &str) -> (r: Option<Vec<u8>>)
    ensures
        r matches Some(b) ==> b64_encode(b@) == s@,
        r is None ==> forall|b: Seq<u8>| b64_encode(b) != s@,
{
    BASE64_STANDARD.decode(s).ok()
}

pub proof fn lemma_b64_char_injective(v: int, w: int)
    requires
        0 <= v < 64,
        0 <= w < 64,
    ensures
        b64_char(v) != '=',
        b64_char(v) == b64_char(w) ==> v == w,
{
}

/// Different bytes have different encodings.
pub proof fn lemma_b64_encode_injective(a: Seq<u8>, b: Seq<u8>)
    requires
        b64_encode(a) == b64_encode(b),
    ensures
        a == b,
    decreases a.len(),
{
    if a.len() == 0 || b.len() == 0 {
        if a.len() > 0 {
            assert(b64_encode(a).len() > 0);
        }
        if b.len() > 0 {
            assert(b64_encode(b).len() > 0);
        }
        assert(a =~= b);
    } else {
        let ea = b64_encode(a);
        let eb = b64_encode(b);
        let x = a[0] as int;
        let x2 = b[0] as int;
        lemma_b64_char_injective(x / 4, x2 / 4);
        assert(ea[0] == eb[0]);
        assert(x / 4 == x2 / 4);
        if a.len() == 1 || b.len() == 1 {
            if a.len() >= 2 {
                let y = a[1] as int;
                lemma_b64_char_injective((y % 16) * 4, 0);
                if a.len() >= 3 {
                    let z = a[2] as int;
                    lemma_b64_char_injective((y % 16) * 4 + z / 64, 0);
                }
                assert(ea[2] != '=');
                assert(eb[2] == '=');
            }
            if b.len() >= 2 {
                let y = b[1] as int;
                lemma_b64_char_injective((y % 16) * 4, 0);
                if b.len() >= 3 {
                    let z = b[2] as int;
                    lemma_b64_char_injective((y % 16) * 4 + z / 64, 0);
                }
                assert(eb[2] != '=');
                assert(ea[2] == '=');
            }
            lemma_b64_char_injective((x % 4) * 16, (x2 % 4) * 16);
            assert(ea[1] == eb[1]);
            assert(x == x2);
            assert(a =~= b);
        } else {
            let y = a[1] as int;
            let y2 = b[1] as int;
            lemma_b64_char_injective((x % 4) * 16 + y / 16, (x2 % 4) * 16 + y2 / 16);
            assert(ea[1] == eb[1]);
            assert(x % 4 == x2 % 4 && y / 16 == y2 / 16);
            assert(x == x2);
            if a.len() == 2 || b.len() == 2 {
                if a.len() >= 3 {
                    let z = a[2] as int;
                    lemma_b64_char_injective(z % 64, 0);
                    assert(ea[3] != '=');
                    assert(eb[3] == '=');
                }
                if b.len() >= 3 {
                    let z = b[2] as int;
                    lemma_b64_char_injective(z % 64, 0);
                    assert(eb[3] != '=');
                    assert(ea[3] == '=');
                }
                lemma_b64_char_injective((y % 16) * 4, (y2 % 16) * 4);
                assert(ea[2] == eb[2]);
                assert(y == y2);
                assert(a =~= b);
            } else {
                let z = a[2] as int;
                let z2 = b[2] as int;
                lemma_b64_char_injective((y % 16) * 4 + z / 64, (y2 % 16) * 4 + z2 / 64);
                lemma_b64_char_injective(z % 64, z2 % 64);
                assert(ea[2] == eb[2]);
                assert(ea[3] == eb[3]);
                assert(y == y2);
                assert(z == z2);
                assert(ea.skip(4) =~= b64_encode(a.skip(3)));
                assert(eb.skip(4) =~= b64_encode(b.skip(3)));
                lemma_b64_encode_injective(a.skip(3), b.skip(3));
                assert(a =~= seq![a[0], a[1], a[2]] + a.skip(3));
                assert(b =~= seq![b[0], b[1], b[2]] + b.skip(3));
            }
        }
    }
}

/// The credentials in a `Basic` value, empty when it does not hold the
/// base64 of UTF-8 text with a colon.
pub open spec fn decode_basic_spec(value: Seq<char>) -> (Seq<char>, Seq<char>) {
    let enc = trim(
        match strip_prefix(value, "Basic"@) {
            Some(r) => r,
            None => seq![],
        },
    );
    if exists|b: Seq<u8>| b64_encode(b) == enc {
        let b = choose|b: Seq<u8>| b64_encode(b) == enc;
        if valid_utf8(b) {
            match split_once(decode_utf8(b), seq![':']) {
                Some((u, p)) => (u, p),
                None => (seq![], seq![]),
            }
        } else {
            (seq![], seq![])
        }
    } else {
        (seq![], seq![])
    }
}

/// Decode `Basic <base64>` into (username, password); empty on failure.
pub fn decode_basic(value: &str) -> (r: (String, String))
    ensures
        (r.0@, r.1@) == decode_basic_spec(value@),
{
    let vc = chars_of(value);
    let basic = chars_of("Basic");
    let rest = if starts_with_exec(&vc, &basic) {
        slice_vec(&vc, basic.len(), vc.len())
    } else {
        Vec::new()
    };
    let enc = trim_vec(&rest);
    proof {
        if starts_with(value@, "Basic"@) {
            assert(rest@ =~= value@.skip("Basic"@.len() as int));
        } else {
            assert(rest@ =~= Seq::<char>::empty());
        }
    }
    let enc_str = string_of(&enc);
    match base64_decode(enc_str.as_str()) {
        None => (String::new(), String::new()),
        Some(bytes) => {
            proof {
                let c = choose|b: Seq<u8>| b64_encode(b) == enc@;
                lemma_b64_encode_injective(c, bytes@);
            }
            match crate::text::from_utf8(bytes.as_slice()) {
                None => (String::new(), String::new()),
                Some(text) => {
                    let tc = chars_of(text.as_str());
                    match crate::text::split_once_char(&tc, ':') {
                        Some((u, p)) => (string_of(&u), string_of(&p)),
                        None => (String::new(), String::new()),
                    }
                },
            }
        },
    }
}

/// Base64 text has no whitespace.
proof fn lemma_b64_no_ws(b: Seq<u8>)
    ensures
        forall|i: int| 0 <= i < b64_encode(b).len() ==> !is_ws(#[trigger] b64_encode(b)[i]),
    decreases b.len(),
{
    if b.len() >= 3 {
        lemma_b64_no_ws(b.skip(3));
        let e = b64_encode(b);
        let x = b[0] as int;
        let y = b[1] as int;
        let z = b[2] as int;
        let head = seq![
            b64_char(x / 4),
            b64_char((x % 4) * 16 + y / 16),
            b64_char((y % 16) * 4 + z / 64),
            b64_char(z % 64),
        ];
        assert(e == head + b64_encode(b.skip(3)));
        assert forall|i: int| 0 <= i < e.len() implies !is_ws(#[trigger] e[i]) by {
            if i >= 4 {
                assert(e[i] == b64_encode(b.skip(3))[i - 4]);
            }
        }
    }
}

/// Decoding the value that `basic_auth` builds gives back the user name and
/// password, when the user name has no colon.
pub proof fn law_basic_auth_decodes(user: Seq<char>, password: Seq<char>)
    requires
        lacks(user, ':'),
    ensures
        decode_basic_spec(basic_auth_value(user, password)) == (user, password),
{
    reveal_strlit("Basic ");
    reveal_strlit("Basic");
    let creds = user + seq![':'] + password;
    let bytes = encode_utf8(creds);
    let enc = b64_encode(bytes);
    let value = basic_auth_value(user, password);
    assert(value =~= "Basic"@ + (seq![' '] + enc));
    assert(starts_with(value, "Basic"@)) by {
        assert(value.take(5) =~= "Basic"@);
    }
    assert(value.skip(5) =~= seq![' '] + enc);
    lemma_b64_no_ws(bytes);
    let rest = seq![' '] + enc;
    assert(rest.drop_first() =~= enc);
    assert(trim_start(rest) == trim_start(enc));
    assert(is_trimmed(enc));
    crate::text::lemma_trim_trimmed(enc);
    assert(trim(rest) == enc) by {
        assert(trim_start(rest) == enc);
    }
    let b = choose|b: Seq<u8>| b64_encode(b) == enc;
    assert(b64_encode(bytes) == enc);
    lemma_b64_encode_injective(b, bytes);
    vstd::utf8::encode_utf8_valid_utf8(creds);
    vstd::utf8::encode_utf8_decode_utf8(creds);
    crate::text::lemma_find_char_after(user, ':', password);
    assert(creds.take(user.len() as int) =~= user);
    assert(creds.skip(user.len() + 1 as int) =~= password);
}

/// The token of a `Bearer` value: without `Bearer ` (or `Bearer`).
pub open spec fn bearer_token_spec(v: Seq<char>) -> Seq<char> {
    match strip_prefix(v, "Bearer "@) {
        Some(t) => t,
        None => match strip_prefix(v, "Bearer"@) {
            Some(t) => t,
            None => v,
        },
    }
}

pub fn bearer_token(value: &str) -> (r: String)
    ensures
        r@ == bearer_token_spec(value@),
{
    let vc = chars_of(value);
    proof {
        reveal_strlit("Bearer ");
        reveal_strlit("Bearer");
    }
    let out = if starts_with_str(&vc, "Bearer ") {
        slice_vec(&vc, 7, vc.len())
    } else if starts_with_str(&vc, "Bearer") {
        slice_vec(&vc, 6, vc.len())
    } else {
        slice_vec(&vc, 0, vc.len())
    };
    assert(out@ =~= bearer_token_spec(value@));
    string_of(&out)
}


// ---------------------------------------------------------------------------
// Percent-encoding
// ---------------------------------------------------------------------------

pub open spec fn is_hex_digit(b: u8) -> bool {
    (0x30 <= b <= 0x39) || (0x41 <= b <= 0x46) || (0x61 <= b <= 0x66)
}

pub open spec fn hex_value(b: u8) -> int {
    if b <= 0x39 {
        b - 0x30
    } else if b <= 0x46 {
        b - 0x41 + 10
    } else {
        b - 0x61 + 10
    }
}

/// What `u8::from_str_radix(h, 16)` gives for the two bytes `h`: an optional
/// `+` sign then hex digits.
pub open spec fn hex_pair(b1: u8, b2: u8) -> Option<u8> {
    if b1 == 0x2b && is_hex_digit(b2) {
        Some(hex_value(b2) as u8)
    } else if is_hex_digit(b1) && is_hex_digit(b2) {
        Some((16 * hex_value(b1) + hex_value(b2)) as u8)
    } else {
        None
    }
}

/// Decode `%XX` escapes and `+` (a space); anything else, invalid escapes
/// included, is kept as is.
pub open spec fn pct_decode(b: Seq<u8>) -> Seq<u8>
    decreases b.len(),
{
    if b.len() == 0 {
        Seq::empty()
    } else if b[0] == 0x25 && b.len() >= 3 && hex_pair(b[1], b[2]) is Some {
        seq![hex_pair(b[1], b[2])->0] + pct_decode(b.skip(3))
    } else if b[0] == 0x2b {
        seq![0x20u8] + pct_decode(b.skip(1))
    } else {
        seq![b[0]] + pct_decode(b.skip(1))
    }
}

/// The decoded bytes read as UTF-8, invalid sequences replaced.
pub open spec fn url_decode_spec(s: Seq<char>) -> Seq<char> {
    let b = pct_decode(encode_utf8(s));
    if valid_utf8(b) {
        decode_utf8(b)
    } else {
        utf8_lossy(b)
    }
}

fn is_hex_digit_exec(b: u8) -> (r: bool)
    ensures
        r == is_hex_digit(b),
{
    (0x30 <= b && b <= 0x39) || (0x41 <= b && b <= 0x46) || (0x61 <= b && b <= 0x66)
}

fn hex_value_exec(b: u8) -> (r: u8)
    requires
        is_hex_digit(b),
    ensures
        r == hex_value(b),
{
    if b <= 0x39 {
        b - 0x30
    } else if b <= 0x46 {
        b - 0x41 + 10
    } else {
        b - 0x61 + 10
    }
}

fn hex_pair_exec(b1: u8, b2: u8) -> (r: Option<u8>)
    ensures
        r == hex_pair(b1, b2),
{
    if b1 == 0x2b && is_hex_digit_exec(b2) {
        Some(hex_value_exec(b2))
    } else if is_hex_digit_exec(b1) && is_hex_digit_exec(b2) {
        Some(16 * hex_value_exec(b1) + hex_value_exec(b2))
    } else {
        None
    }
}

/// Percent-decode (`+` is a space). Invalid escapes are kept as-is.
pub fn url_decode(s: &str) -> (r: String)
    ensures
        r@ == url_decode_spec(s@),
{
    let bytes = s.as_bytes();
    let mut out: Vec<u8> = Vec::new();
    let mut i: usize = 0;
    assert(bytes@.skip(0) =~= bytes@);
    assert(out@ + pct_decode(bytes@) =~= pct_decode(bytes@));
    while i < bytes.len()
        invariant
            i <= bytes@.len(),
            pct_decode(bytes@) == out@ + pct_decode(bytes@.skip(i as int)),
        decreases bytes@.len() - i,
    {
        let ghost rest = bytes@.skip(i as int);
        let ghost before = out@;
        let n = bytes.len();
        let hex = if n - i > 2 {
            hex_pair_exec(bytes[i + 1], bytes[i + 2])
        } else {
            None
        };
        proof {
            if i + 2 < n {
                assert(rest[1] == bytes@[i + 1]);
                assert(rest[2] == bytes@[i + 2]);
            }
            assert(rest[0] == bytes@[i as int]);
        }
        if bytes[i] == 0x25 && hex.is_some() {
            let v = hex.unwrap();
            out.push(v);
            proof {
                assert(rest.skip(3) =~= bytes@.skip(i + 3));
                assert(before.push(v) + pct_decode(rest.skip(3)) =~= before + (seq![v] + pct_decode(
                    rest.skip(3),
                )));
            }
            i += 3;
        } else if bytes[i] == 0x2b {
            out.push(0x20);
            proof {
                assert(rest.skip(1) =~= bytes@.skip(i + 1));
                assert(before.push(0x20) + pct_decode(rest.skip(1)) =~= before + (seq![0x20u8]
                    + pct_decode(rest.skip(1))));
            }
            i += 1;
        } else {
            let b = bytes[i];
            out.push(b);
            proof {
                assert(rest.skip(1) =~= bytes@.skip(i + 1));
                assert(before.push(b) + pct_decode(rest.skip(1)) =~= before + (seq![b] + pct_decode(
                    rest.skip(1),
                )));
            }
            i += 1;
        }
    }
    proof {
        assert(bytes@.skip(i as int) =~= Seq::<u8>::empty());
        assert(out@ + Seq::<u8>::empty() =~= out@);
    }
    from_utf8_lossy(out.as_slice())
}

/// RFC 3986 unreserved characters, which are never escaped.
pub open spec fn unreserved(c: char) -> bool {
    ('a' <= c <= 'z') || ('A' <= c <= 'Z') || ('0' <= c <= '9') || c == '-' || c == '_' || c
        == '.' || c == '~'
}

pub open spec fn hex_upper(v: int) -> char {
    if v < 10 {
        (('0' as int) + v) as char
    } else {
        (('A' as int) + v - 10) as char
    }
}

/// `%XX` (upper-case hex) for each byte.
pub open spec fn pct_bytes(b: Seq<u8>) -> Seq<char>
    decreases b.len(),
{
    if b.len() == 0 {
        Seq::empty()
    } else {
        pct_bytes(b.drop_last()) + seq![
            '%',
            hex_upper(b.last() as int / 16),
            hex_upper(b.last() as int % 16),
        ]
    }
}

pub open spec fn pct_encode_char(c: char) -> Seq<char> {
    if unreserved(c) {
        seq![c]
    } else {
        pct_bytes(encode_utf8(seq![c]))
    }
}

/// Percent-encode everything except unreserved characters, copying
/// `{{variable}}` blocks unchanged.
pub open spec fn url_encode_spec(s: Seq<char>) -> Seq<char>
    decreases s.len(),
{
    if s.len() == 0 {
        Seq::empty()
    } else if starts_with(s, seq!['{', '{']) && find(s.skip(2), seq!['}', '}']) is Some {
        let e = find(s.skip(2), seq!['}', '}'])->0;
        proof {
            crate::text::lemma_find_from_bounds(s.skip(2), seq!['}', '}'], 0);
        }
        s.take(e + 4) + url_encode_spec(s.skip(e + 4))
    } else {
        pct_encode_char(s[0]) + url_encode_spec(s.drop_first())
    }
}

fn hex_upper_exec(v: u8) -> (r: char)
    requires
        v < 16,
    ensures
        r == hex_upper(v as int),
{
    if v < 10 {
        (0x30u8 + v) as char
    } else {
        (0x41u8 + v - 10) as char
    }
}

pub(crate) fn push_pct_bytes(out: &mut Vec<char>, b: &[u8])
    ensures
        final(out)@ == old(out)@ + pct_bytes(b@),
{
    let ghost o = out@;
    let mut i: usize = 0;
    assert(b@.take(0) =~= Seq::<u8>::empty());
    while i < b.len()
        invariant
            i <= b@.len(),
            out@ == o + pct_bytes(b@.take(i as int)),
        decreases b@.len() - i,
    {
        let x = b[i];
        out.push('%');
        out.push(hex_upper_exec(x / 16));
        out.push(hex_upper_exec(x % 16));
        proof {
            assert(b@.take(i + 1).drop_last() =~= b@.take(i as int));
            assert(b@.take(i + 1).last() == x);
            assert(out@ =~= o + pct_bytes(b@.take(i + 1)));
        }
        i += 1;
    }
    assert(b@.take(b@.len() as int) =~= b@);
}

fn unreserved_exec(c: char) -> (r: bool)
    ensures
        r == unreserved(c),
{
    ('a' <= c && c <= 'z') || ('A' <= c && c <= 'Z') || ('0' <= c && c <= '9') || c == '-' || c
        == '_' || c == '.' || c == '~'
}

/// Percent-encode everything except RFC 3986 unreserved chars, leaving
/// `{{variable}}` blocks intact so they can be substituted later.
pub fn url_encode(s: &str) -> (r: String)
    ensures
        r@ == url_encode_spec(s@),
{
    let cs = chars_of(s);
    let open = vec!['{', '{'];
    let close = vec!['}', '}'];
    assert(open@ =~= seq!['{', '{']);
    assert(close@ =~= seq!['}', '}']);
    let mut out: Vec<char> = Vec::new();
    let mut i: usize = 0;
    assert(cs@.skip(0) =~= cs@);
    assert(out@ + url_encode_spec(cs@) =~= url_encode_spec(cs@));
    while i < cs.len()
        invariant
            i <= cs@.len(),
            cs@ == s@,
            open@ == seq!['{', '{'],
            close@ == seq!['}', '}'],
            url_encode_spec(s@) == out@ + url_encode_spec(cs@.skip(i as int)),
        decreases cs@.len() - i,
    {
        let ghost rest = cs@.skip(i as int);
        let ghost before = out@;
        let n = cs.len();
        let at_open = crate::text::matches_at_exec(&cs, &open, i);
        proof {
            if at_open {
                assert(rest.take(2) =~= cs@.subrange(i as int, i + 2));
            } else if starts_with(rest, seq!['{', '{']) {
                assert(rest.take(2) =~= cs@.subrange(i as int, i + 2));
            }
        }
        let close_at = if at_open {
            find_from_exec(&cs, &close, i + 2)
        } else {
            None
        };
        if at_open && close_at.is_some() {
            let j = close_at.unwrap();
            proof {
                lemma_find_shift(cs@, seq!['}', '}'], i + 2, i + 2);
                assert(cs@.skip(i + 2) =~= rest.skip(2));
                crate::text::lemma_find_from_bounds(cs@, seq!['}', '}'], i + 2);
            }
            assert(j + 2 <= n);
            let block = slice_vec(&cs, i, j + 2);
            append(&mut out, &block);
            proof {
                let e = j - (i + 2);
                assert(find(rest.skip(2), seq!['}', '}']) == Some(e as int));
                assert(block@ =~= rest.take(e + 4));
                assert(rest.skip(e + 4) =~= cs@.skip(j + 2));
            }
            i = j + 2;
        } else {
            let c = cs[i];
            proof {
                if at_open {
                    lemma_find_shift(cs@, seq!['}', '}'], i + 2, i + 2);
                    assert(cs@.skip(i + 2) =~= rest.skip(2));
                }
                assert(rest[0] == c);
                assert(rest.drop_first() =~= cs@.skip(i + 1));
            }
            if unreserved_exec(c) {
                out.push(c);
            } else {
                let one = string_of(&[c]);
                assert(one@ =~= seq![c]);
                push_pct_bytes(&mut out, one.as_str().as_bytes());
            }
            assert(out@ =~= before + pct_encode_char(c));
            i += 1;
        }
    }
    proof {
        assert(cs@.skip(i as int) =~= Seq::<char>::empty());
        assert(out@ + Seq::<char>::empty() =~= out@);
    }
    string_of(&out)
}

// ---------------------------------------------------------------------------
// Query params <-> URL
// ---------------------------------------------------------------------------

/// A `key=value` piece of a query string as a row (both sides decoded).
pub open spec fn query_row(pair: Seq<char>) -> Row {
    let (k, v) = match split_once(pair, seq!['=']) {
        Some(p) => p,
        None => (pair, Seq::empty()),
    };
    Row { enabled: true, key: url_decode_spec(k), value: url_decode_spec(v) }
}

pub open spec fn query_rows(pieces: Seq<Seq<char>>) -> Seq<Row>
    decreases pieces.len(),
{
    if pieces.len() == 0 {
        Seq::empty()
    } else {
        let rest = query_rows(pieces.drop_last());
        if pieces.last().len() == 0 {
            rest
        } else {
            rest.push(query_row(pieces.last()))
        }
    }
}

pub open spec fn query_params_spec(url: Seq<char>) -> Seq<Row> {
    match split_once(url, seq!['?']) {
        None => Seq::empty(),
        Some((_, q)) => query_rows(split_char(before_char(q, '#'), '&')),
    }
}

#[verifier::spinoff_prover]
#[verifier::rlimit(40)]
pub fn parse_query_params(url: &str) -> (r: Vec<KeyValue>)
    ensures
        rows_view(r@) == query_params_spec(url@),
{
    let uc = chars_of(url);
    let mut out: Vec<KeyValue> = Vec::new();
    match crate::text::split_once_char(&uc, '?') {
        None => {
            assert(rows_view(out@) =~= Seq::<Row>::empty());
            out
        },
        Some((_, q)) => {
            let q = before_char_exec(&q, '#');
            let pieces = split_char_exec(&q, '&');
            let ghost pv = pieces@.map_values(|v: Vec<char>| v@);
            let mut i: usize = 0;
            assert(pv.take(0) =~= Seq::<Seq<char>>::empty());
            assert(rows_view(out@) =~= Seq::<Row>::empty());
            while i < pieces.len()
                invariant
                    i <= pieces@.len(),
                    pv == pieces@.map_values(|v: Vec<char>| v@),
                    rows_view(out@) == query_rows(pv.take(i as int)),
                decreases pieces@.len() - i,
            {
                let pair = &pieces[i];
                proof {
                    assert(pv.take(i + 1).drop_last() =~= pv.take(i as int));
                    assert(pv.take(i + 1).last() == pair@);
                }
                if pair.len() > 0 {
                    let (k, v) = match crate::text::split_once_char(pair, '=') {
                        Some(p) => p,
                        None => (slice_vec(pair, 0, pair.len()), Vec::new()),
                    };
                    proof {
                        if split_once(pair@, seq!['=']) is None {
                            assert(k@ =~= pair@);
                            assert(v@ =~= Seq::<char>::empty());
                        }
                    }
                    let row = KeyValue {
                        enabled: true,
                        key: url_decode(string_of(&k).as_str()),
                        value: url_decode(string_of(&v).as_str()),
                    };
                    let ghost before = rows_view(out@);
                    out.push(row);
                    assert(rows_view(out@) =~= before.push(query_row(pair@)));
                }
                i += 1;
            }
            assert(pv.take(pieces@.len() as int) =~= pv);
            out
        },
    }
}

/// `key` or `key=value`, both encoded.
pub open spec fn query_part(r: Row) -> Seq<char> {
    if r.value.len() == 0 {
        url_encode_spec(r.key)
    } else {
        url_encode_spec(r.key) + seq!['='] + url_encode_spec(r.value)
    }
}

pub open spec fn query_parts(rows: Seq<Row>) -> Seq<Seq<char>>
    decreases rows.len(),
{
    if rows.len() == 0 {
        Seq::empty()
    } else {
        let rest = query_parts(rows.drop_last());
        if rows.last().enabled && rows.last().key.len() > 0 {
            rest.push(query_part(rows.last()))
        } else {
            rest
        }
    }
}

pub open spec fn build_url_spec(url: Seq<char>, rows: Seq<Row>) -> Seq<char> {
    let base = before_char(url, '?');
    let parts = query_parts(rows);
    if parts.len() == 0 {
        base
    } else {
        base + seq!['?'] + join(parts, seq!['&'])
    }
}

/// Replace the URL's query string with the enabled params.
pub fn build_url(url: &str, params: &[KeyValue]) -> (r: String)
    ensures
        r@ == build_url_spec(url@, rows_view(params@)),
{
    let uc = chars_of(url);
    let base = before_char_exec(&uc, '?');
    let ghost rv = rows_view(params@);
    let mut parts: Vec<Vec<char>> = Vec::new();
    let mut i: usize = 0;
    assert(rv.take(0) =~= Seq::<Row>::empty());
    assert(parts@.map_values(|v: Vec<char>| v@) =~= Seq::<Seq<char>>::empty());
    while i < params.len()
        invariant
            i <= params@.len(),
            rv == rows_view(params@),
            parts@.map_values(|v: Vec<char>| v@) == query_parts(rv.take(i as int)),
        decreases params@.len() - i,
    {
        let p = &params[i];
        proof {
            assert(rv.take(i + 1).drop_last() =~= rv.take(i as int));
            assert(rv.take(i + 1).last() == p@);
        }
        if p.enabled && !p.key.as_str().is_empty() {
            let k = url_encode(p.key.as_str());
            let mut part = chars_of(k.as_str());
            if !p.value.as_str().is_empty() {
                part.push('=');
                let v = url_encode(p.value.as_str());
                append_str(&mut part, v.as_str());
            }
            assert(part@ =~= query_part(p@));
            let ghost before = parts@.map_values(|v: Vec<char>| v@);
            let ghost pv = part@;
            parts.push(part);
            assert(parts@.map_values(|v: Vec<char>| v@) =~= before.push(pv));
        }
        i += 1;
    }
    assert(rv.take(params@.len() as int) =~= rv);
    if parts.len() == 0 {
        return string_of(&base);
    }
    let mut out = base;
    out.push('?');
    let amp = vec!['&'];
    assert(amp@ =~= seq!['&']);
    let q = join_exec(&parts, &amp);
    append(&mut out, &q);
    string_of(&out)
}

} // verus!
