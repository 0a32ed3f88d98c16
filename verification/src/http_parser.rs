//! Requests written as plain `.http` text: a `METHOD URL` line, `Name: value`
//! header lines, a blank line, then the body.
use crate::kv::{lemma_insert_pos_unique, map_of_pairs};
use crate::model::{is_insert_pos, map_insert, HeaderMap};
use crate::text::{
    chars_of, is_whitespace, is_ws, join, join_exec, lines, lines_exec, slice_vec,
    split_once, split_once_char, string_of, to_uppercase, trim, trim_start, trim_vec, uppercase,
};
use vstd::prelude::*;

verus! {

/// The methods a `.http` file may name.
#[derive(Debug, Clone, Copy, PartialEq, Eq, Structural)]
pub enum HttpMethod {
    GET,
    POST,
    PUT,
    PATCH,
    DELETE,
    HEAD,
    OPTIONS,
    CONNECT,
    TRACE,
}

impl Default for HttpMethod {
    fn default() -> (r: HttpMethod)
        ensures
            r == HttpMethod::GET,
    {
        HttpMethod::GET
    }
}

pub open spec fn method_text(m: HttpMethod) -> Seq<char> {
    match m {
        HttpMethod::GET => "GET"@,
        HttpMethod::POST => "POST"@,
        HttpMethod::PUT => "PUT"@,
        HttpMethod::PATCH => "PATCH"@,
        HttpMethod::DELETE => "DELETE"@,
        HttpMethod::HEAD => "HEAD"@,
        HttpMethod::OPTIONS => "OPTIONS"@,
        HttpMethod::CONNECT => "CONNECT"@,
        HttpMethod::TRACE => "TRACE"@,
    }
}

/// The method whose name is exactly `u`.
pub open spec fn method_named(u: Seq<char>) -> Option<HttpMethod> {
    if u == "GET"@ {
        Some(HttpMethod::GET)
    } else if u == "POST"@ {
        Some(HttpMethod::POST)
    } else if u == "PUT"@ {
        Some(HttpMethod::PUT)
    } else if u == "PATCH"@ {
        Some(HttpMethod::PATCH)
    } else if u == "DELETE"@ {
        Some(HttpMethod::DELETE)
    } else if u == "HEAD"@ {
        Some(HttpMethod::HEAD)
    } else if u == "OPTIONS"@ {
        Some(HttpMethod::OPTIONS)
    } else if u == "CONNECT"@ {
        Some(HttpMethod::CONNECT)
    } else if u == "TRACE"@ {
        Some(HttpMethod::TRACE)
    } else {
        None
    }
}

fn eq_text(a: &[char], b: &str) -> (r: bool)
    ensures
        r == (a@ == b@),
{
    let bc = chars_of(b);
    crate::text::eq_chars(a, &bc)
}

impl HttpMethod {
    /// The method named by an upper-case text.
    pub fn from_upper(u: &[char]) -> (r: Option<HttpMethod>)
        ensures
            r == method_named(u@),
    {
        if eq_text(u, "GET") {
            Some(HttpMethod::GET)
        } else if eq_text(u, "POST") {
            Some(HttpMethod::POST)
        } else if eq_text(u, "PUT") {
            Some(HttpMethod::PUT)
        } else if eq_text(u, "PATCH") {
            Some(HttpMethod::PATCH)
        } else if eq_text(u, "DELETE") {
            Some(HttpMethod::DELETE)
        } else if eq_text(u, "HEAD") {
            Some(HttpMethod::HEAD)
        } else if eq_text(u, "OPTIONS") {
            Some(HttpMethod::OPTIONS)
        } else if eq_text(u, "CONNECT") {
            Some(HttpMethod::CONNECT)
        } else if eq_text(u, "TRACE") {
            Some(HttpMethod::TRACE)
        } else {
            None
        }
    }

    /// The method named by a text, compared in upper case.
    pub fn from_str(s: &str) -> (r: Option<HttpMethod>)
        ensures
            r == method_named(uppercase(s@)),
    {
        let cs = chars_of(s);
        let u = to_uppercase(&cs);
        HttpMethod::from_upper(&u)
    }

    pub fn as_str(&self) -> (r: &'static str)
        ensures
            r@ == method_text(*self),
    {
        match self {
            HttpMethod::GET => "GET",
            HttpMethod::POST => "POST",
            HttpMethod::PUT => "PUT",
            HttpMethod::PATCH => "PATCH",
            HttpMethod::DELETE => "DELETE",
            HttpMethod::HEAD => "HEAD",
            HttpMethod::OPTIONS => "OPTIONS",
            HttpMethod::CONNECT => "CONNECT",
            HttpMethod::TRACE => "TRACE",
        }
    }
}

/// A request read from a `.http` file.
#[derive(Debug)]
pub struct HttpRequest {
    pub method: HttpMethod,
    pub url: String,
    pub headers: HeaderMap,
    pub body: Option<String>,
}

/// Index of the first whitespace character of `s` at or after `i`.
pub open spec fn ws_from(s: Seq<char>, i: int) -> Option<int>
    decreases s.len() - i,
{
    if i < 0 || i >= s.len() {
        None
    } else if is_ws(s[i]) {
        Some(i)
    } else {
        ws_from(s, i + 1)
    }
}

pub proof fn lemma_ws_from_bounds(s: Seq<char>, i: int)
    requires
        0 <= i,
    ensures
        ws_from(s, i) matches Some(k) ==> i <= k < s.len() && is_ws(s[k]),
    decreases s.len() - i,
{
    if i < s.len() && !is_ws(s[i]) {
        lemma_ws_from_bounds(s, i + 1);
    }
}

/// What the lines after the first give: whether the blank line that starts
/// the body was seen, the header pairs, and the body lines.
pub struct HttpScan {
    pub in_body: bool,
    pub pairs: Seq<(Seq<char>, Seq<char>)>,
    pub body: Seq<Seq<char>>,
}

/// Before the first blank line a line with a colon is a header (name and
/// value trimmed); after it every line belongs to the body.
pub open spec fn scan_step(st: HttpScan, line: Seq<char>) -> HttpScan {
    if !st.in_body && trim(line).len() == 0 {
        HttpScan { in_body: true, pairs: st.pairs, body: st.body }
    } else if st.in_body {
        HttpScan { in_body: true, pairs: st.pairs, body: st.body.push(line) }
    } else {
        match split_once(line, seq![':']) {
            Some((k, v)) => HttpScan {
                in_body: false,
                pairs: st.pairs.push((trim(k), trim(v))),
                body: st.body,
            },
            None => st,
        }
    }
}

pub open spec fn scan_lines(ls: Seq<Seq<char>>) -> HttpScan
    decreases ls.len(),
{
    if ls.len() == 0 {
        HttpScan { in_body: false, pairs: seq![], body: seq![] }
    } else {
        scan_step(scan_lines(ls.drop_last()), ls.last())
    }
}

/// A parsed request as plain values: method, URL, headers (as a sorted map)
/// and body.
pub struct HttpRequestSpec {
    pub method: HttpMethod,
    pub url: Seq<char>,
    pub headers: Seq<(Seq<char>, Seq<char>)>,
    pub body: Option<Seq<char>>,
}

pub open spec fn parse_http_spec(content: Seq<char>) -> Result<HttpRequestSpec, Seq<char>> {
    let ls = lines(content);
    if ls.len() == 0 {
        Err("Empty file"@)
    } else {
        let first = trim(ls[0]);
        match ws_from(first, 0) {
            None => Err("Invalid first line. Expected: METHOD URL"@),
            Some(i) => {
                let name = first.take(i);
                match method_named(uppercase(name)) {
                    None => Err("Invalid HTTP method: "@ + name),
                    Some(m) => {
                        let sc = scan_lines(ls.drop_first());
                        Ok(
                            HttpRequestSpec {
                                method: m,
                                url: trim(first.skip(i + 1)),
                                headers: map_of_pairs(sc.pairs),
                                body: if sc.body.len() == 0 {
                                    None
                                } else {
                                    Some(join(sc.body, seq!['\n']))
                                },
                            },
                        )
                    },
                }
            },
        }
    }
}

pub open spec fn opt_string_view(o: Option<String>) -> Option<Seq<char>> {
    match o {
        Some(s) => Some(s@),
        None => None,
    }
}

fn ws_index(s: &[char]) -> (r: Option<usize>)
    ensures
        r matches Some(i) ==> ws_from(s@, 0) == Some(i as int),
        r is None ==> ws_from(s@, 0) is None,
{
    let mut i: usize = 0;
    while i < s.len()
        invariant
            i <= s@.len(),
            ws_from(s@, 0) == ws_from(s@, i as int),
        decreases s@.len() - i,
    {
        if is_whitespace(s[i]) {
            return Some(i);
        }
        i += 1;
    }
    None
}

pub fn parse_http_file(content: &str) -> (r: Result<HttpRequest, String>)
    ensures
        match parse_http_spec(content@) {
            Err(e) => r matches Err(m) && m@ == e,
            Ok(q) => r matches Ok(req) && req.method == q.method && req.url@ == q.url
                && req.headers@ == q.headers && opt_string_view(req.body) == q.body,
        },
{
    let cc = chars_of(content);
    let ls = lines_exec(&cc);
    let ghost lsv = lines(content@);
    if ls.len() == 0 {
        return Err("Empty file".to_string());
    }
    let first = trim_vec(&ls[0]);
    let i = match ws_index(&first) {
        None => {
            return Err("Invalid first line. Expected: METHOD URL".to_string());
        },
        Some(i) => i,
    };
    proof {
        lemma_ws_from_bounds(first@, 0);
        assert(ws_from(first@, 0) == Some(i as int));
    }
    assert(i < first@.len());
    let flen = first.len();
    assert(i < flen);
    let name = slice_vec(&first, 0, i);
    assert(name@ =~= first@.take(i as int));
    let upper = to_uppercase(&name);
    let method = match HttpMethod::from_upper(&upper) {
        None => {
            let mut msg = chars_of("Invalid HTTP method: ");
            crate::text::append(&mut msg, &name);
            return Err(string_of(&msg));
        },
        Some(m) => m,
    };
    let start = i + 1;
    let rest = slice_vec(&first, start, flen);
    assert(rest@ =~= first@.skip(i + 1));
    let url = trim_vec(&rest);
    let ghost tail = lsv.drop_first();
    let mut in_body = false;
    let mut headers = HeaderMap::new();
    let mut body: Vec<Vec<char>> = Vec::new();
    let ghost mut pairs: Seq<(Seq<char>, Seq<char>)> = seq![];
    let mut j: usize = 1;
    assert(tail.take(0) =~= Seq::<Seq<char>>::empty());
    assert(body@.map_values(|v: Vec<char>| v@) =~= Seq::<Seq<char>>::empty());
    while j < ls.len()
        invariant
            1 <= j <= ls@.len(),
            ls@.len() == lsv.len(),
            forall|k: int| 0 <= k < ls@.len() ==> #[trigger] ls@[k]@ == lsv[k],
            tail == lsv.drop_first(),
            scan_lines(tail.take(j - 1)) == (HttpScan {
                in_body,
                pairs,
                body: body@.map_values(|v: Vec<char>| v@),
            }),
            headers@ == map_of_pairs(pairs),
        decreases ls@.len() - j,
    {
        let line = &ls[j];
        proof {
            assert(tail.take(j as int).drop_last() =~= tail.take(j - 1));
            assert(tail.take(j as int).last() == lsv[j as int]);
        }
        let t = trim_vec(line);
        if !in_body && t.len() == 0 {
            in_body = true;
        } else if in_body {
            let ghost before = body@.map_values(|v: Vec<char>| v@);
            let copy = slice_vec(line, 0, line.len());
            assert(copy@ =~= line@);
            body.push(copy);
            assert(body@.map_values(|v: Vec<char>| v@) =~= before.push(lsv[j as int]));
        } else {
            match split_once_char(line, ':') {
                Some((k, v)) => {
                    let kt = trim_vec(&k);
                    let vt = trim_vec(&v);
                    let ghost m0 = headers@;
                    headers.insert(string_of(&kt), string_of(&vt));
                    proof {
                        let p = choose|p: int|
                            is_insert_pos(m0, kt@, p) && headers@ == map_insert(m0, kt@, vt@, p);
                        lemma_insert_pos_unique(m0, kt@, p);
                        let old_pairs = pairs;
                        pairs = old_pairs.push((kt@, vt@));
                        assert(pairs.drop_last() =~= old_pairs);
                        assert(pairs.last() == (kt@, vt@));
                    }
                },
                None => {},
            }
        }
        j += 1;
    }
    assert(tail.take(ls@.len() - 1) =~= tail);
    let body_text = if body.len() == 0 {
        None
    } else {
        let nl = vec!['\n'];
        assert(nl@ =~= seq!['\n']);
        Some(string_of(&join_exec(&body, &nl)))
    };
    Ok(HttpRequest { method, url: string_of(&url), headers, body: body_text })
}

// ---------------------------------------------------------------------------
// Headers come before the first blank line, the body after it
// ---------------------------------------------------------------------------

/// A line that holds nothing but whitespace.
pub open spec fn blank_line(l: Seq<char>) -> bool {
    trim(l).len() == 0
}

/// The header pairs of the lines that have a colon: name and value trimmed.
pub open spec fn header_pairs(ls: Seq<Seq<char>>) -> Seq<(Seq<char>, Seq<char>)>
    decreases ls.len(),
{
    if ls.len() == 0 {
        seq![]
    } else {
        let p = header_pairs(ls.drop_last());
        match split_once(ls.last(), seq![':']) {
            Some((k, v)) => p.push((trim(k), trim(v))),
            None => p,
        }
    }
}

proof fn lemma_scan_before_blank(ls: Seq<Seq<char>>, n: int)
    requires
        0 <= n <= ls.len(),
        forall|j: int| 0 <= j < n ==> !blank_line(#[trigger] ls[j]),
    ensures
        !scan_lines(ls.take(n)).in_body,
        scan_lines(ls.take(n)).pairs == header_pairs(ls.take(n)),
        scan_lines(ls.take(n)).body == Seq::<Seq<char>>::empty(),
    decreases n,
{
    if n > 0 {
        lemma_scan_before_blank(ls, n - 1);
        assert(ls.take(n).drop_last() =~= ls.take(n - 1));
        assert(ls.take(n).last() == ls[n - 1]);
        assert(!blank_line(ls[n - 1]));
    }
}

proof fn lemma_scan_after_blank(ls: Seq<Seq<char>>, b: int, n: int)
    requires
        0 <= b < n <= ls.len(),
        blank_line(ls[b]),
        forall|j: int| 0 <= j < b ==> !blank_line(#[trigger] ls[j]),
    ensures
        scan_lines(ls.take(n)).in_body,
        scan_lines(ls.take(n)).pairs == header_pairs(ls.take(b)),
        scan_lines(ls.take(n)).body == ls.subrange(b + 1, n),
    decreases n,
{
    assert(ls.take(n).drop_last() =~= ls.take(n - 1));
    assert(ls.take(n).last() == ls[n - 1]);
    if n == b + 1 {
        lemma_scan_before_blank(ls, b);
        assert(ls.subrange(b + 1, n) =~= Seq::<Seq<char>>::empty());
    } else {
        lemma_scan_after_blank(ls, b, n - 1);
        assert(ls.subrange(b + 1, n) =~= ls.subrange(b + 1, n - 1).push(ls[n - 1]));
    }
}

/// In a request that parses, the headers are read from the lines after the
/// first one up to the first blank line, and the body is every line after
/// that blank line joined with newlines (none when nothing follows it).
pub proof fn law_http_body_after_first_blank_line(content: Seq<char>, b: int)
    requires
        parse_http_spec(content) is Ok,
        1 <= b < lines(content).len(),
        blank_line(lines(content)[b]),
        forall|j: int| 1 <= j < b ==> !blank_line(#[trigger] lines(content)[j]),
    ensures
        parse_http_spec(content)->Ok_0.headers == map_of_pairs(
            header_pairs(lines(content).subrange(1, b)),
        ),
        parse_http_spec(content)->Ok_0.body == if b + 1 == lines(content).len() {
            None
        } else {
            Some(join(lines(content).skip(b + 1), seq!['\n']))
        },
{
    let ls = lines(content);
    let tail = ls.drop_first();
    assert forall|j: int| 0 <= j < b - 1 implies !blank_line(#[trigger] tail[j]) by {
        assert(tail[j] == ls[j + 1]);
    }
    assert(tail[b - 1] == ls[b]);
    lemma_scan_after_blank(tail, b - 1, tail.len() as int);
    assert(tail.take(tail.len() as int) =~= tail);
    assert(tail.take(b - 1) =~= ls.subrange(1, b));
    assert(tail.subrange(b, tail.len() as int) =~= ls.skip(b + 1));
}

/// In a request that parses and has no blank line after the first, every
/// line after the first is read for headers and there is no body.
pub proof fn law_http_no_blank_line_no_body(content: Seq<char>)
    requires
        parse_http_spec(content) is Ok,
        forall|j: int| 1 <= j < lines(content).len() ==> !blank_line(#[trigger] lines(content)[j]),
    ensures
        parse_http_spec(content)->Ok_0.headers == map_of_pairs(header_pairs(lines(content).skip(1))),
        parse_http_spec(content)->Ok_0.body is None,
{
    let ls = lines(content);
    let tail = ls.drop_first();
    assert forall|j: int| 0 <= j < tail.len() implies !blank_line(#[trigger] tail[j]) by {
        assert(tail[j] == ls[j + 1]);
    }
    lemma_scan_before_blank(tail, tail.len() as int);
    assert(tail.take(tail.len() as int) =~= tail);
    assert(tail =~= ls.skip(1));
}

/// With no whitespace from `i` on, there is none to find.
proof fn lemma_ws_from_none(s: Seq<char>, i: int)
    requires
        0 <= i,
    ensures
        ws_from(s, i) is None <==> forall|k: int| i <= k < s.len() ==> !is_ws(#[trigger] s[k]),
    decreases s.len() - i,
{
    if i < s.len() && !is_ws(s[i]) {
        lemma_ws_from_none(s, i + 1);
    }
}

/// How a `.http` text is refused: `Empty file` exactly when it has no
/// lines; else `Invalid first line` exactly when its trimmed first line has
/// no whitespace; else `Invalid HTTP method` (with the first word) exactly
/// when that word, in capitals, names no method.
pub proof fn law_http_errors(content: Seq<char>)
    ensures
        (lines(content).len() == 0) <==> parse_http_spec(content) == Err::<HttpRequestSpec, Seq<
            char,
        >>("Empty file"@),
        lines(content).len() > 0 ==> ((forall|k: int|
            0 <= k < trim(lines(content)[0]).len() ==> !is_ws(#[trigger] trim(lines(content)[0])[k]))
            <==> parse_http_spec(content) == Err::<HttpRequestSpec, Seq<char>>(
            "Invalid first line. Expected: METHOD URL"@,
        )),
        lines(content).len() > 0 ==> (ws_from(trim(lines(content)[0]), 0) matches Some(i) ==> {
            let name = trim(lines(content)[0]).take(i);
            (method_named(uppercase(name)) is None) <==> parse_http_spec(content) == Err::<
                HttpRequestSpec,
                Seq<char>,
            >("Invalid HTTP method: "@ + name)
        }),
{
    reveal_strlit("Empty file");
    reveal_strlit("Invalid first line. Expected: METHOD URL");
    reveal_strlit("Invalid HTTP method: ");
    let ls = lines(content);
    if ls.len() > 0 {
        let first = trim(ls[0]);
        lemma_ws_from_none(first, 0);
        match ws_from(first, 0) {
            None => {
                assert("Invalid first line. Expected: METHOD URL"@[0] != "Empty file"@[0]);
            },
            Some(i) => {
                let name = first.take(i);
                let e = "Invalid HTTP method: "@ + name;
                assert(e[0] != "Empty file"@[0]);
                assert(e[8] != "Invalid first line. Expected: METHOD URL"@[8]);
            },
        }
    }
}

/// The whitespace `ws_from` finds is the first one from `i` on.
proof fn lemma_ws_from_first(s: Seq<char>, i: int)
    requires
        0 <= i,
    ensures
        ws_from(s, i) matches Some(k) ==> forall|j: int| i <= j < k ==> !is_ws(#[trigger] s[j]),
    decreases s.len() - i,
{
    if i < s.len() && !is_ws(s[i]) {
        lemma_ws_from_first(s, i + 1);
    }
}

/// In a request that parses, the trimmed first line is the method word, one
/// whitespace character, and then the URL with nothing but whitespace around
/// it: the URL is the whole rest of the line, query string and all.
pub proof fn law_http_url_is_rest_of_first_line(content: Seq<char>)
    requires
        parse_http_spec(content) is Ok,
    ensures
        ({
            let first = trim(lines(content)[0]);
            let q = parse_http_spec(content)->Ok_0;
            exists|i: int, a: int|
                #![trigger first.skip(a), first[i]]
                {
                    &&& 0 <= i < first.len()
                    &&& is_ws(first[i])
                    &&& (forall|k: int| 0 <= k < i ==> !is_ws(#[trigger] first[k]))
                    &&& method_named(uppercase(first.take(i))) == Some(q.method)
                    &&& i < a <= first.len()
                    &&& a + q.url.len() <= first.len()
                    &&& first.skip(a).take(q.url.len() as int) == q.url
                    &&& (forall|k: int| i < k < a ==> is_ws(#[trigger] first[k]))
                    &&& (forall|k: int| a + q.url.len() <= k < first.len() ==> is_ws(
                        #[trigger] first[k],
                    ))
                }
        }),
{
    let first = trim(lines(content)[0]);
    let q = parse_http_spec(content)->Ok_0;
    lemma_ws_from_bounds(first, 0);
    lemma_ws_from_first(first, 0);
    let i = ws_from(first, 0)->0;
    let tail = first.skip(i + 1);
    crate::text::lemma_trim_start_shape(tail);
    let k1 = choose|k: int|
        0 <= k <= tail.len() && trim_start(tail) == tail.skip(k) && (forall|j: int|
            0 <= j < k ==> is_ws(tail[j]));
    let ts = trim_start(tail);
    crate::text::lemma_trim_end_shape(ts);
    let k2 = choose|k: int|
        0 <= k <= ts.len() && crate::text::trim_end(ts) == ts.take(k) && (forall|j: int|
            k <= j < ts.len() ==> is_ws(ts[j]));
    assert(q.url == ts.take(k2));
    let a = i + 1 + k1;
    assert(first.skip(a).take(q.url.len() as int) =~= q.url);
    assert forall|k: int| i < k < a implies is_ws(#[trigger] first[k]) by {
        assert(first[k] == tail[k - i - 1]);
    }
    assert forall|k: int| a + q.url.len() <= k < first.len() implies is_ws(#[trigger] first[k]) by {
        assert(first[k] == ts[k - a]);
    }
}

} // verus!
