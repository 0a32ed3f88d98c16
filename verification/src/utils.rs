//! Helpers of the request panels: reading the auth header, counting
//! header lines, completing URLs and editing query parameters.
use crate::kv::{
    basic_auth, basic_auth_value, decode_basic, decode_basic_spec, pct_bytes, pct_encode_char,
    unreserved, Row,
};
use crate::text::{
    append, append_str, before_char, before_char_exec, chars_of, find, find_from_exec,
    lemma_find_from_bounds, lemma_find_shift, lines, lines_exec, lowercase, slice_vec, split_char,
    split_char_exec, split_once, starts_with, starts_with_str, string_of,
    to_lowercase, trim, trim_start, trim_start_vec, trim_vec,
};
use vstd::prelude::*;

verus! {

/// How the auth header was written.
#[derive(Clone, Copy, Debug, PartialEq, Eq, Structural)]
pub enum AuthMode {
    NoAuth,
    Basic,
    Bearer,
    Custom,
}

/// The mode, user name, password and token read from an auth header value.
pub open spec fn infer_auth_spec(auth_text: Seq<char>) -> (AuthMode, Seq<char>, Seq<char>, Seq<char>) {
    let text = trim(auth_text);
    if starts_with(text, "Basic "@) {
        let creds = decode_basic_spec(text);
        (AuthMode::Basic, creds.0, creds.1, Seq::empty())
    } else if starts_with(text, "Bearer "@) {
        (AuthMode::Bearer, Seq::empty(), Seq::empty(), text.skip(7))
    } else if text.len() > 0 {
        (AuthMode::Custom, Seq::empty(), Seq::empty(), Seq::empty())
    } else {
        (AuthMode::NoAuth, Seq::empty(), Seq::empty(), Seq::empty())
    }
}

/// Read the auth settings back from a header value: `Basic` credentials are
/// decoded (empty when they do not decode), a `Bearer` token is what follows
/// `Bearer `, any other text is a custom value.
pub fn infer_auth_config(auth_text: &str) -> (r: (AuthMode, String, String, String))
    ensures
        (r.0, r.1@, r.2@, r.3@) == infer_auth_spec(auth_text@),
{
    let all = chars_of(auth_text);
    let text = trim_vec(&all);
    proof {
        reveal_strlit("Basic ");
        reveal_strlit("Bearer ");
    }
    if starts_with_str(&text, "Basic ") {
        let (u, p) = decode_basic(string_of(&text).as_str());
        (AuthMode::Basic, u, p, String::new())
    } else if starts_with_str(&text, "Bearer ") {
        let token = slice_vec(&text, 7, text.len());
        (AuthMode::Bearer, String::new(), String::new(), string_of(&token))
    } else if text.len() > 0 {
        (AuthMode::Custom, String::new(), String::new(), String::new())
    } else {
        (AuthMode::NoAuth, String::new(), String::new(), String::new())
    }
}

/// A header line that is sent: not blank and not commented out with `#`.
pub open spec fn active_line(l: Seq<char>) -> bool {
    trim(l).len() > 0 && !starts_with(trim(l), "#"@)
}

pub open spec fn active_count(ls: Seq<Seq<char>>) -> nat
    decreases ls.len(),
{
    if ls.len() == 0 {
        0
    } else {
        active_count(ls.drop_last()) + if active_line(ls.last()) {
            1nat
        } else {
            0nat
        }
    }
}

fn active_line_exec(l: &[char]) -> (r: bool)
    ensures
        r == active_line(l@),
{
    let t = trim_vec(l);
    t.len() > 0 && !starts_with_str(&t, "#")
}

/// The number of lines of the header text that are neither blank nor
/// comments.
pub fn count_active_headers(headers_text: &str) -> (r: usize)
    ensures
        r == active_count(lines(headers_text@)),
{
    let ls = lines_exec(&chars_of(headers_text));
    let ghost lv = lines(headers_text@);
    let mut n: usize = 0;
    let mut i: usize = 0;
    assert(lv.take(0) =~= Seq::<Seq<char>>::empty());
    while i < ls.len()
        invariant
            i <= ls@.len(),
            ls@.len() == lv.len(),
            forall|k: int| 0 <= k < ls@.len() ==> #[trigger] ls@[k]@ == lv[k],
            n == active_count(lv.take(i as int)),
            n <= i,
        decreases ls@.len() - i,
    {
        proof {
            assert(lv.take(i + 1).drop_last() =~= lv.take(i as int));
            assert(lv.take(i + 1).last() == ls@[i as int]@);
        }
        if active_line_exec(&ls[i]) {
            n += 1;
        }
        i += 1;
    }
    assert(lv.take(lv.len() as int) =~= lv);
    n
}

pub open spec fn sanitize_url_spec(url: Seq<char>) -> Seq<char> {
    if url.len() > 0 && !starts_with(url, "http://"@) && !starts_with(url, "https://"@) {
        "http://"@ + url
    } else {
        url
    }
}

/// Put `http://` in front of a URL that names no scheme.
pub fn sanitize_url(url: &str) -> (r: String)
    ensures
        r@ == sanitize_url_spec(url@),
{
    let uc = chars_of(url);
    if uc.len() > 0 && !starts_with_str(&uc, "http://") && !starts_with_str(&uc, "https://") {
        let mut out = chars_of("http://");
        append(&mut out, &uc);
        string_of(&out)
    } else {
        string_of(&uc)
    }
}

/// Some active line declares a content type (in any letter case).
pub open spec fn declares_content_type(ls: Seq<Seq<char>>) -> bool
    decreases ls.len(),
{
    if ls.len() == 0 {
        false
    } else {
        declares_content_type(ls.drop_last()) || (active_line(ls.last()) && starts_with(
            lowercase(trim_start(ls.last())),
            "content-type:"@,
        ))
    }
}

pub open spec fn json_header_wanted(body: Seq<char>, headers: Seq<char>) -> bool {
    let b = trim(body);
    (starts_with(b, "{"@) || starts_with(b, "["@)) && !declares_content_type(lines(headers))
}

/// A body that looks like JSON (starts with `{` or `[`) sent without a
/// declared content type.
pub fn should_add_json_header(body: &str, headers: &str) -> (r: bool)
    ensures
        r == json_header_wanted(body@, headers@),
{
    let bc = chars_of(body);
    let b = trim_vec(&bc);
    if !(starts_with_str(&b, "{") || starts_with_str(&b, "[")) {
        return false;
    }
    let ls = lines_exec(&chars_of(headers));
    let ghost lv = lines(headers@);
    let mut found = false;
    let mut i: usize = 0;
    assert(lv.take(0) =~= Seq::<Seq<char>>::empty());
    while i < ls.len()
        invariant
            i <= ls@.len(),
            ls@.len() == lv.len(),
            forall|k: int| 0 <= k < ls@.len() ==> #[trigger] ls@[k]@ == lv[k],
            found == declares_content_type(lv.take(i as int)),
        decreases ls@.len() - i,
    {
        proof {
            assert(lv.take(i + 1).drop_last() =~= lv.take(i as int));
            assert(lv.take(i + 1).last() == ls@[i as int]@);
        }
        let l = &ls[i];
        if active_line_exec(l) {
            let lowered = to_lowercase(&trim_start_vec(l));
            if starts_with_str(&lowered, "content-type:") {
                found = true;
            }
        }
        i += 1;
    }
    assert(lv.take(lv.len() as int) =~= lv);
    !found
}

/// `Basic ` and the base64 of `user:password`.
pub fn generate_basic_auth(username: &str, password: &str) -> (r: String)
    ensures
        r@ == basic_auth_value(username@, password@),
{
    basic_auth(username, password)
}

/// `Bearer ` and the token.
pub fn generate_bearer_auth(token: &str) -> (r: String)
    ensures
        r@ == "Bearer "@ + token@,
{
    let mut out = chars_of("Bearer ");
    append_str(&mut out, token);
    string_of(&out)
}

// ---------------------------------------------------------------------------
// Query parameters
// ---------------------------------------------------------------------------

/// A query parameter with the toggle of the editor.
#[derive(Clone, Debug, PartialEq)]
pub struct QueryParam {
    pub enabled: bool,
    pub key: String,
    pub value: String,
}

impl View for QueryParam {
    type V = Row;

    open spec fn view(&self) -> Row {
        Row { enabled: self.enabled, key: self.key@, value: self.value@ }
    }
}

pub open spec fn params_view(v: Seq<QueryParam>) -> Seq<Row> {
    v.map_values(|p: QueryParam| p@)
}

impl QueryParam {
    /// An enabled parameter.
    pub fn new(key: String, value: String) -> (r: QueryParam)
        ensures
            r@ == (Row { enabled: true, key: key@, value: value@ }),
    {
        QueryParam { enabled: true, key, value }
    }
}

pub open spec fn hex_digit_char(c: char) -> bool {
    ('0' <= c <= '9') || ('A' <= c <= 'F') || ('a' <= c <= 'f')
}

pub open spec fn hex_char_value(c: char) -> int {
    if c <= '9' {
        c as int - '0' as int
    } else if c <= 'F' {
        c as int - 'A' as int + 10
    } else {
        c as int - 'a' as int + 10
    }
}

/// What `u8::from_str_radix` gives for the two characters after a `%`: an
/// optional `+` sign then hex digits.
pub open spec fn hex_chars(c1: char, c2: char) -> Option<u8> {
    if c1 == '+' && hex_digit_char(c2) {
        Some(hex_char_value(c2) as u8)
    } else if hex_digit_char(c1) && hex_digit_char(c2) {
        Some((16 * hex_char_value(c1) + hex_char_value(c2)) as u8)
    } else {
        None
    }
}

/// Decode `%XX` (the byte taken as the character of that code) and `+`; the
/// characters of an escape that does not decode are kept as they are.
pub open spec fn decode_param(s: Seq<char>) -> Seq<char>
    decreases s.len(),
{
    if s.len() == 0 {
        Seq::empty()
    } else if s[0] == '%' {
        if s.len() >= 3 && hex_chars(s[1], s[2]) is Some {
            seq![(hex_chars(s[1], s[2])->0) as char] + decode_param(s.skip(3))
        } else {
            let n: int = if s.len() >= 3 {
                2
            } else {
                s.len() - 1
            };
            seq!['%'] + s.subrange(1, 1 + n) + decode_param(s.skip(1 + n))
        }
    } else if s[0] == '+' {
        seq![' '] + decode_param(s.skip(1))
    } else {
        seq![s[0]] + decode_param(s.skip(1))
    }
}

fn hex_digit_char_exec(c: char) -> (r: bool)
    ensures
        r == hex_digit_char(c),
{
    ('0' <= c && c <= '9') || ('A' <= c && c <= 'F') || ('a' <= c && c <= 'f')
}

fn hex_char_value_exec(c: char) -> (r: u8)
    requires
        hex_digit_char(c),
    ensures
        r == hex_char_value(c),
{
    let v = c as u32;
    if c <= '9' {
        (v - 0x30) as u8
    } else if c <= 'F' {
        (v - 0x41 + 10) as u8
    } else {
        (v - 0x61 + 10) as u8
    }
}

fn hex_chars_exec(c1: char, c2: char) -> (r: Option<u8>)
    ensures
        r == hex_chars(c1, c2),
{
    if c1 == '+' && hex_digit_char_exec(c2) {
        Some(hex_char_value_exec(c2))
    } else if hex_digit_char_exec(c1) && hex_digit_char_exec(c2) {
        Some(16 * hex_char_value_exec(c1) + hex_char_value_exec(c2))
    } else {
        None
    }
}

fn decode_param_exec(s: &[char]) -> (r: Vec<char>)
    ensures
        r@ == decode_param(s@),
{
    let mut out: Vec<char> = Vec::new();
    let mut i: usize = 0;
    assert(s@.skip(0) =~= s@);
    assert(out@ + decode_param(s@) =~= decode_param(s@));
    while i < s.len()
        invariant
            i <= s@.len(),
            decode_param(s@) == out@ + decode_param(s@.skip(i as int)),
        decreases s@.len() - i,
    {
        let ghost rest = s@.skip(i as int);
        let ghost before = out@;
        let n = s.len();
        let c = s[i];
        assert(rest[0] == c);
        if c == '%' {
            let h = if n - i >= 3 {
                hex_chars_exec(s[i + 1], s[i + 2])
            } else {
                None
            };
            proof {
                if n - i >= 3 {
                    assert(rest[1] == s@[i + 1]);
                    assert(rest[2] == s@[i + 2]);
                }
            }
            if h.is_some() {
                let v = h.unwrap();
                out.push(v as char);
                proof {
                    assert(rest.skip(3) =~= s@.skip(i + 3));
                    assert(out@ + decode_param(rest.skip(3)) =~= before + (seq![v as char]
                        + decode_param(rest.skip(3))));
                }
                i += 3;
            } else {
                let m: usize = if n - i >= 3 {
                    2
                } else {
                    n - i - 1
                };
                out.push('%');
                let raw = slice_vec(s, i + 1, i + 1 + m);
                append(&mut out, &raw);
                proof {
                    assert(raw@ =~= rest.subrange(1, 1 + m));
                    assert(rest.skip(1 + m) =~= s@.skip(i + 1 + m));
                    assert(out@ + decode_param(rest.skip(1 + m)) =~= before + (seq!['%']
                        + rest.subrange(1, 1 + m) + decode_param(rest.skip(1 + m))));
                }
                i += 1 + m;
            }
        } else if c == '+' {
            out.push(' ');
            proof {
                assert(rest.skip(1) =~= s@.skip(i + 1));
                assert(out@ + decode_param(rest.skip(1)) =~= before + (seq![' '] + decode_param(
                    rest.skip(1),
                )));
            }
            i += 1;
        } else {
            out.push(c);
            proof {
                assert(rest.skip(1) =~= s@.skip(i + 1));
                assert(out@ + decode_param(rest.skip(1)) =~= before + (seq![c] + decode_param(
                    rest.skip(1),
                )));
            }
            i += 1;
        }
    }
    proof {
        assert(s@.skip(i as int) =~= Seq::<char>::empty());
        assert(out@ + Seq::<char>::empty() =~= out@);
    }
    out
}

/// A `key=value` piece of a query string, both sides decoded.
pub open spec fn param_row(pair: Seq<char>) -> Row {
    let (k, v) = match split_once(pair, seq!['=']) {
        Some(p) => p,
        None => (pair, Seq::empty()),
    };
    Row { enabled: true, key: decode_param(k), value: decode_param(v) }
}

pub open spec fn param_rows(pieces: Seq<Seq<char>>) -> Seq<Row>
    decreases pieces.len(),
{
    if pieces.len() == 0 {
        Seq::empty()
    } else {
        let rest = param_rows(pieces.drop_last());
        if pieces.last().len() == 0 {
            rest
        } else {
            rest.push(param_row(pieces.last()))
        }
    }
}

/// The parameters after the first `?`, up to a `#`, split at `&`, empty
/// pieces left out.
pub open spec fn url_params(url: Seq<char>) -> Seq<Row> {
    match split_once(url, seq!['?']) {
        None => Seq::empty(),
        Some((_, q)) => param_rows(split_char(before_char(q, '#'), '&')),
    }
}

/// The query parameters of a URL, decoded and enabled.
#[verifier::spinoff_prover]
#[verifier::rlimit(40)]
pub fn parse_query_params(url: &str) -> (r: Vec<QueryParam>)
    ensures
        params_view(r@) == url_params(url@),
{
    let uc = chars_of(url);
    let mut out: Vec<QueryParam> = Vec::new();
    match crate::text::split_once_char(&uc, '?') {
        None => {
            assert(params_view(out@) =~= Seq::<Row>::empty());
            out
        },
        Some((_, q)) => {
            let q = before_char_exec(&q, '#');
            let pieces = split_char_exec(&q, '&');
            let ghost pv = pieces@.map_values(|v: Vec<char>| v@);
            let mut i: usize = 0;
            assert(pv.take(0) =~= Seq::<Seq<char>>::empty());
            assert(params_view(out@) =~= Seq::<Row>::empty());
            while i < pieces.len()
                invariant
                    i <= pieces@.len(),
                    pv == pieces@.map_values(|v: Vec<char>| v@),
                    params_view(out@) == param_rows(pv.take(i as int)),
                decreases pieces@.len() - i,
            {
                let pair = &pieces[i];
                proof {
                    assert(pv.take(i + 1).drop_last() =~= pv.take(i as int));
                    assert(pv.take(i + 1).last() == pair@);
                }
                if pair.len() > 0 {
                    let (k, v) = match crate::text::split_once_char(pair, '=') {
                        Some(p) => p,
                        None => (slice_vec(pair, 0, pair.len()), Vec::new()),
                    };
                    proof {
                        if split_once(pair@, seq!['=']) is None {
                            assert(k@ =~= pair@);
                            assert(v@ =~= Seq::<char>::empty());
                        }
                    }
                    let kd = decode_param_exec(&k);
                    let vd = decode_param_exec(&v);
                    let p = QueryParam::new(string_of(&kd), string_of(&vd));
                    let ghost before = params_view(out@);
                    out.push(p);
                    assert(params_view(out@) =~= before.push(param_row(pair@)));
                }
                i += 1;
            }
            assert(pv.take(pieces@.len() as int) =~= pv);
            out
        },
    }
}

/// Percent-encode everything but unreserved characters; a `{{` and what
/// follows it up to and with the next `}}` (or to the end) is copied as it
/// is.
pub open spec fn encode_keep_vars(s: Seq<char>) -> Seq<char>
    decreases s.len(),
{
    if s.len() == 0 {
        Seq::empty()
    } else if starts_with(s, seq!['{', '{']) {
        match find(s.skip(2), seq!['}', '}']) {
            Some(e) => {
                proof {
                    lemma_find_from_bounds(s.skip(2), seq!['}', '}'], 0);
                }
                s.take(e + 4) + encode_keep_vars(s.skip(e + 4))
            },
            None => s,
        }
    } else {
        pct_encode_char(s[0]) + encode_keep_vars(s.drop_first())
    }
}

fn encode_keep_vars_exec(s: &str) -> (r: Vec<char>)
    ensures
        r@ == encode_keep_vars(s@),
{
    let cs = chars_of(s);
    let open = vec!['{', '{'];
    let close = vec!['}', '}'];
    assert(open@ =~= seq!['{', '{']);
    assert(close@ =~= seq!['}', '}']);
    let mut out: Vec<char> = Vec::new();
    let mut i: usize = 0;
    assert(cs@.skip(0) =~= cs@);
    assert(out@ + encode_keep_vars(cs@) =~= encode_keep_vars(cs@));
    while i < cs.len()
        invariant
            i <= cs@.len(),
            cs@ == s@,
            open@ == seq!['{', '{'],
            close@ == seq!['}', '}'],
            encode_keep_vars(s@) == out@ + encode_keep_vars(cs@.skip(i as int)),
        decreases cs@.len() - i,
    {
        let ghost rest = cs@.skip(i as int);
        let ghost before = out@;
        let n = cs.len();
        let at_open = crate::text::matches_at_exec(&cs, &open, i);
        proof {
            if at_open {
                assert(rest.take(2) =~= cs@.subrange(i as int, i + 2));
            } else if starts_with(rest, seq!['{', '{']) {
                assert(rest.take(2) =~= cs@.subrange(i as int, i + 2));
            }
        }
        if at_open {
            let close_at = find_from_exec(&cs, &close, i + 2);
            proof {
                lemma_find_shift(cs@, seq!['}', '}'], i + 2, i + 2);
                assert(cs@.skip(i + 2) =~= rest.skip(2));
                lemma_find_from_bounds(cs@, seq!['}', '}'], i + 2);
            }
            match close_at {
                Some(j) => {
                    let block = slice_vec(&cs, i, j + 2);
                    append(&mut out, &block);
                    proof {
                        let e = j - (i + 2);
                        assert(find(rest.skip(2), seq!['}', '}']) == Some(e as int));
                        assert(block@ =~= rest.take(e + 4));
                        assert(rest.skip(e + 4) =~= cs@.skip(j + 2));
                    }
                    i = j + 2;
                },
                None => {
                    let block = slice_vec(&cs, i, n);
                    append(&mut out, &block);
                    proof {
                        assert(block@ =~= rest);
                        assert(cs@.skip(n as int) =~= Seq::<char>::empty());
                        assert(out@ + encode_keep_vars(cs@.skip(n as int)) =~= before + rest);
                    }
                    i = n;
                },
            }
        } else {
            let c = cs[i];
            proof {
                assert(rest[0] == c);
                assert(rest.drop_first() =~= cs@.skip(i + 1));
            }
            if unreserved_char(c) {
                out.push(c);
            } else {
                let one = string_of(&[c]);
                assert(one@ =~= seq![c]);
                push_pct(&mut out, one.as_str().as_bytes());
            }
            assert(out@ =~= before + pct_encode_char(c));
            i += 1;
        }
    }
    proof {
        assert(cs@.skip(i as int) =~= Seq::<char>::empty());
        assert(out@ + Seq::<char>::empty() =~= out@);
    }
    out
}

fn unreserved_char(c: char) -> (r: bool)
    ensures
        r == unreserved(c),
{
    ('a' <= c && c <= 'z') || ('A' <= c && c <= 'Z') || ('0' <= c && c <= '9') || c == '-' || c
        == '_' || c == '.' || c == '~'
}

fn push_pct(out: &mut Vec<char>, b: &[u8])
    ensures
        final(out)@ == old(out)@ + pct_bytes(b@),
{
    crate::kv::push_pct_bytes(out, b);
}

/// `key` or `key=value`, both encoded.
pub open spec fn param_part(r: Row) -> Seq<char> {
    if r.value.len() == 0 {
        encode_keep_vars(r.key)
    } else {
        encode_keep_vars(r.key) + seq!['='] + encode_keep_vars(r.value)
    }
}

pub open spec fn param_parts(rows: Seq<Row>) -> Seq<Seq<char>>
    decreases rows.len(),
{
    if rows.len() == 0 {
        Seq::empty()
    } else {
        let rest = param_parts(rows.drop_last());
        if rows.last().enabled && rows.last().key.len() > 0 {
            rest.push(param_part(rows.last()))
        } else {
            rest
        }
    }
}

pub open spec fn url_with_params(url: Seq<char>, rows: Seq<Row>) -> Seq<char> {
    let base = before_char(url, '?');
    let parts = param_parts(rows);
    if parts.len() == 0 {
        base
    } else {
        base + seq!['?'] + crate::text::join(parts, seq!['&'])
    }
}

/// The URL without its query string, then `?` and the enabled parameters
/// with a key, joined by `&`.
pub fn build_url_with_params(base_url: &str, params: &[QueryParam]) -> (r: String)
    ensures
        r@ == url_with_params(base_url@, params_view(params@)),
{
    let uc = chars_of(base_url);
    let base = before_char_exec(&uc, '?');
    let ghost rv = params_view(params@);
    let mut parts: Vec<Vec<char>> = Vec::new();
    let mut i: usize = 0;
    assert(rv.take(0) =~= Seq::<Row>::empty());
    assert(parts@.map_values(|v: Vec<char>| v@) =~= Seq::<Seq<char>>::empty());
    while i < params.len()
        invariant
            i <= params@.len(),
            rv == params_view(params@),
            parts@.map_values(|v: Vec<char>| v@) == param_parts(rv.take(i as int)),
        decreases params@.len() - i,
    {
        let p = &params[i];
        proof {
            assert(rv.take(i + 1).drop_last() =~= rv.take(i as int));
            assert(rv.take(i + 1).last() == p@);
        }
        if p.enabled && !p.key.as_str().is_empty() {
            let mut part = encode_keep_vars_exec(p.key.as_str());
            if !p.value.as_str().is_empty() {
                part.push('=');
                let v = encode_keep_vars_exec(p.value.as_str());
                append(&mut part, &v);
            }
            assert(part@ =~= param_part(p@));
            let ghost before = parts@.map_values(|v: Vec<char>| v@);
            let ghost pv = part@;
            parts.push(part);
            assert(parts@.map_values(|v: Vec<char>| v@) =~= before.push(pv));
        }
        i += 1;
    }
    assert(rv.take(params@.len() as int) =~= rv);
    if parts.len() == 0 {
        return string_of(&base);
    }
    let mut out = base;
    out.push('?');
    let amp = vec!['&'];
    assert(amp@ =~= seq!['&']);
    let q = crate::text::join_exec(&parts, &amp);
    append(&mut out, &q);
    string_of(&out)
}

/// The URL up to its first `?`.
pub fn get_base_url(url: &str) -> (r: String)
    ensures
        r@ == before_char(url@, '?'),
{
    let uc = chars_of(url);
    string_of(&before_char_exec(&uc, '?'))
}

/// The parameters that are enabled and have a key.
pub fn count_enabled_params(params: &[QueryParam]) -> (r: usize)
    ensures
        r == crate::kv::count_enabled_spec(params_view(params@)),
{
    let ghost rv = params_view(params@);
    let mut n: usize = 0;
    let mut i: usize = 0;
    assert(rv.take(0) =~= Seq::<Row>::empty());
    while i < params.len()
        invariant
            i <= params@.len(),
            rv == params_view(params@),
            n == crate::kv::count_enabled_spec(rv.take(i as int)),
            n <= i,
        decreases params@.len() - i,
    {
        proof {
            assert(rv.take(i + 1).drop_last() =~= rv.take(i as int));
            assert(rv.take(i + 1).last() == params@[i as int]@);
        }
        if params[i].enabled && !params[i].key.as_str().is_empty() {
            n += 1;
        }
        i += 1;
    }
    assert(rv.take(params@.len() as int) =~= rv);
    n
}

} // verus!
