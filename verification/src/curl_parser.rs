//! A cURL reader with the method set of `.http` files: splits a command line
//! into arguments and reads `-X`, `-H`, `-d`/`--json`, `-u`, `-A`, `-b`,
//! `-I` and `-G` from them.
use crate::curl::{flush, mk, opt_view, vv, TokState};
use crate::http_parser::{method_named, HttpMethod};
use crate::kv::{b64_encode, base64_encode};
use crate::model::entries_view;
use crate::text::{
    append, chars_of, eq_str, split_once, split_once_char, starts_with, starts_with_exec,
    string_of, strip_prefix, trim, trim_vec, uppercase,
};
use vstd::prelude::*;
use vstd::utf8::encode_utf8;

verus! {

#[derive(Debug)]
pub struct CurlRequest {
    pub method: HttpMethod,
    pub url: String,
    pub headers: Vec<(String, String)>,
    pub body: Option<String>,
}

/// A request read from a command line, as plain text values.
pub struct ParsedCurl {
    pub method: HttpMethod,
    pub url: Seq<char>,
    pub headers: Seq<(Seq<char>, Seq<char>)>,
    pub body: Option<Seq<char>>,
}

impl View for CurlRequest {
    type V = ParsedCurl;

    open spec fn view(&self) -> ParsedCurl {
        ParsedCurl {
            method: self.method,
            url: self.url@,
            headers: entries_view(self.headers@),
            body: opt_view(self.body),
        }
    }
}

// ---------------------------------------------------------------------------
// Splitting the command line
// ---------------------------------------------------------------------------

pub open spec fn is_separator(c: char) -> bool {
    c == ' ' || c == '\t' || c == '\n'
}

/// One character of the splitter: quotes of either kind group characters,
/// and inside quotes a backslash takes the next character as it is.
pub open spec fn split_step(st: TokState, ch: char) -> TokState {
    if st.esc {
        mk(st.quote, false, st.cur.push(ch), st.toks)
    } else {
        match st.quote {
            None => if ch == '\'' || ch == '"' {
                mk(Some(ch), false, st.cur, st.toks)
            } else if is_separator(ch) {
                mk(None, false, Seq::empty(), flush(st.cur, st.toks))
            } else {
                mk(None, false, st.cur.push(ch), st.toks)
            },
            Some(q) => if ch == q {
                mk(None, false, st.cur, st.toks)
            } else if ch == '\\' {
                mk(st.quote, true, st.cur, st.toks)
            } else {
                mk(st.quote, false, st.cur.push(ch), st.toks)
            },
        }
    }
}

pub open spec fn split_run(s: Seq<char>, st: TokState) -> TokState
    decreases s.len(),
{
    if s.len() == 0 {
        st
    } else {
        split_run(s.drop_first(), split_step(st, s[0]))
    }
}

/// The arguments of a command line.
pub open spec fn split_args(s: Seq<char>) -> Seq<Seq<char>> {
    let st = split_run(s, mk(None, false, Seq::empty(), Seq::empty()));
    flush(st.cur, st.toks)
}

fn split_exec(s: &[char]) -> (r: Vec<Vec<char>>)
    ensures
        vv(r@) == split_args(s@),
{
    let mut toks: Vec<Vec<char>> = Vec::new();
    let mut cur: Vec<char> = Vec::new();
    let mut quote: Option<char> = None;
    let mut esc = false;
    let mut i: usize = 0;
    assert(s@.skip(0) =~= s@);
    assert(vv(toks@) =~= Seq::<Seq<char>>::empty());
    while i < s.len()
        invariant
            i <= s@.len(),
            split_run(s@, mk(None, false, Seq::empty(), Seq::empty())) == split_run(
                s@.skip(i as int),
                mk(quote, esc, cur@, vv(toks@)),
            ),
        decreases s@.len() - i,
    {
        let ch = s[i];
        let ghost st = mk(quote, esc, cur@, vv(toks@));
        proof {
            assert(s@.skip(i as int).drop_first() =~= s@.skip(i + 1));
            assert(s@.skip(i as int)[0] == ch);
        }
        if esc {
            esc = false;
            cur.push(ch);
        } else {
            match quote {
                None => {
                    if ch == '\'' || ch == '"' {
                        quote = Some(ch);
                    } else if ch == ' ' || ch == '\t' || ch == '\n' {
                        if cur.len() > 0 {
                            let ghost before = vv(toks@);
                            let mut done: Vec<char> = Vec::new();
                            std::mem::swap(&mut done, &mut cur);
                            toks.push(done);
                            assert(vv(toks@) =~= before.push(st.cur));
                        }
                        assert(cur@ =~= Seq::<char>::empty());
                    } else {
                        cur.push(ch);
                    }
                },
                Some(q) => {
                    if ch == q {
                        quote = None;
                    } else if ch == '\\' {
                        esc = true;
                    } else {
                        cur.push(ch);
                    }
                },
            }
        }
        assert(mk(quote, esc, cur@, vv(toks@)) == split_step(st, ch));
        i += 1;
    }
    proof {
        assert(s@.skip(i as int) =~= Seq::<char>::empty());
    }
    if cur.len() > 0 {
        let ghost before = vv(toks@);
        let ghost last = cur@;
        toks.push(cur);
        assert(vv(toks@) =~= before.push(last));
    }
    toks
}

// ---------------------------------------------------------------------------
// Reading the arguments
// ---------------------------------------------------------------------------

pub open spec fn is_method_opt(t: Seq<char>) -> bool {
    t == "-X"@ || t == "--request"@
}

pub open spec fn is_header_opt(t: Seq<char>) -> bool {
    t == "-H"@ || t == "--header"@
}

pub open spec fn is_data_opt(t: Seq<char>) -> bool {
    t == "-d"@ || t == "--data"@ || t == "--data-raw"@ || t == "--data-binary"@ || t == "--json"@
}

pub open spec fn is_user_opt(t: Seq<char>) -> bool {
    t == "-u"@ || t == "--user"@
}

pub open spec fn is_agent_opt(t: Seq<char>) -> bool {
    t == "-A"@ || t == "--user-agent"@
}

pub open spec fn is_cookie_opt(t: Seq<char>) -> bool {
    t == "-b"@ || t == "--cookie"@
}

/// Options whose argument is skipped.
pub open spec fn is_skipped_opt(t: Seq<char>) -> bool {
    ||| t == "-o"@
    ||| t == "--output"@
    ||| t == "-x"@
    ||| t == "--proxy"@
    ||| t == "-c"@
    ||| t == "--cookie-jar"@
    ||| t == "-j"@
    ||| t == "--connect-timeout"@
    ||| t == "--max-time"@
    ||| t == "-m"@
    ||| t == "-w"@
    ||| t == "--write-out"@
    ||| t == "--cacert"@
    ||| t == "--cert"@
    ||| t == "--key"@
    ||| t == "-e"@
    ||| t == "--referer"@
}

/// Options that consume the argument after them.
pub open spec fn takes_value(t: Seq<char>) -> bool {
    is_method_opt(t) || is_header_opt(t) || is_data_opt(t) || is_user_opt(t) || is_agent_opt(t)
        || is_cookie_opt(t) || is_skipped_opt(t)
}

pub open spec fn set_method(r: ParsedCurl, m: HttpMethod) -> ParsedCurl {
    ParsedCurl { method: m, url: r.url, headers: r.headers, body: r.body }
}

pub open spec fn add_header(r: ParsedCurl, k: Seq<char>, v: Seq<char>) -> ParsedCurl {
    ParsedCurl { method: r.method, url: r.url, headers: r.headers.push((k, v)), body: r.body }
}

/// `Basic ` and the base64 of the credentials' UTF-8 bytes, as they are.
pub open spec fn basic_credentials(c: Seq<char>) -> Seq<char> {
    "Basic "@ + b64_encode(encode_utf8(c))
}

/// The effect of option `t` with its argument `a`.
pub open spec fn apply_value(t: Seq<char>, a: Seq<char>, r: ParsedCurl) -> ParsedCurl {
    if is_method_opt(t) {
        set_method(
            r,
            match method_named(uppercase(a)) {
                Some(m) => m,
                None => HttpMethod::GET,
            },
        )
    } else if is_header_opt(t) {
        match split_once(a, seq![':']) {
            Some((k, v)) => add_header(r, trim(k), trim(v)),
            None => r,
        }
    } else if is_data_opt(t) {
        let m = if r.method == HttpMethod::GET {
            HttpMethod::POST
        } else {
            r.method
        };
        let r2 = ParsedCurl { method: m, url: r.url, headers: r.headers, body: Some(a) };
        if t == "--json"@ {
            add_header(r2, "Content-Type"@, "application/json"@)
        } else {
            r2
        }
    } else if is_user_opt(t) {
        add_header(r, "Authorization"@, basic_credentials(a))
    } else if is_agent_opt(t) {
        add_header(r, "User-Agent"@, a)
    } else if is_cookie_opt(t) {
        add_header(r, "Cookie"@, a)
    } else {
        r
    }
}

/// The effect of an argument read on its own: `-I`, `-G`, or the first
/// argument that does not start with `-`, which is the URL.
pub open spec fn apply_alone(t: Seq<char>, r: ParsedCurl) -> ParsedCurl {
    if t == "-I"@ || t == "--head"@ {
        set_method(r, HttpMethod::HEAD)
    } else if t == "-G"@ || t == "--get"@ {
        set_method(r, HttpMethod::GET)
    } else if !starts_with(t, "-"@) && r.url.len() == 0 {
        ParsedCurl { method: r.method, url: t, headers: r.headers, body: r.body }
    } else {
        r
    }
}

pub open spec fn read_args(toks: Seq<Seq<char>>, r: ParsedCurl) -> ParsedCurl
    decreases toks.len(),
{
    if toks.len() == 0 {
        r
    } else {
        let t = toks[0];
        let rest = toks.drop_first();
        if takes_value(t) && rest.len() > 0 {
            read_args(rest.drop_first(), apply_value(t, rest[0], r))
        } else {
            read_args(rest, apply_alone(t, r))
        }
    }
}

/// The command trimmed, without a leading `curl`, trimmed again.
pub open spec fn command_rest(cmd: Seq<char>) -> Seq<char> {
    let c = trim(cmd);
    trim(
        match strip_prefix(c, "curl"@) {
            Some(rest) => rest,
            None => c,
        },
    )
}

pub open spec fn empty_request() -> ParsedCurl {
    ParsedCurl { method: HttpMethod::GET, url: Seq::empty(), headers: Seq::empty(), body: None }
}

/// What `parse_curl` reads from a command.
pub open spec fn parse_curl_spec(cmd: Seq<char>) -> ParsedCurl {
    read_args(split_args(command_rest(cmd)), empty_request())
}

fn is_method_opt_exec(t: &[char]) -> (r: bool)
    ensures
        r == is_method_opt(t@),
{
    eq_str(t, "-X") || eq_str(t, "--request")
}

fn is_header_opt_exec(t: &[char]) -> (r: bool)
    ensures
        r == is_header_opt(t@),
{
    eq_str(t, "-H") || eq_str(t, "--header")
}

fn is_data_opt_exec(t: &[char]) -> (r: bool)
    ensures
        r == is_data_opt(t@),
{
    eq_str(t, "-d") || eq_str(t, "--data") || eq_str(t, "--data-raw") || eq_str(
        t,
        "--data-binary",
    ) || eq_str(t, "--json")
}

fn is_user_opt_exec(t: &[char]) -> (r: bool)
    ensures
        r == is_user_opt(t@),
{
    eq_str(t, "-u") || eq_str(t, "--user")
}

fn is_agent_opt_exec(t: &[char]) -> (r: bool)
    ensures
        r == is_agent_opt(t@),
{
    eq_str(t, "-A") || eq_str(t, "--user-agent")
}

fn is_cookie_opt_exec(t: &[char]) -> (r: bool)
    ensures
        r == is_cookie_opt(t@),
{
    eq_str(t, "-b") || eq_str(t, "--cookie")
}

fn is_skipped_opt_exec(t: &[char]) -> (r: bool)
    ensures
        r == is_skipped_opt(t@),
{
    eq_str(t, "-o") || eq_str(t, "--output") || eq_str(t, "-x") || eq_str(t, "--proxy") || eq_str(
        t,
        "-c",
    ) || eq_str(t, "--cookie-jar") || eq_str(t, "-j") || eq_str(t, "--connect-timeout")
        || eq_str(t, "--max-time") || eq_str(t, "-m") || eq_str(t, "-w") || eq_str(
        t,
        "--write-out",
    ) || eq_str(t, "--cacert") || eq_str(t, "--cert") || eq_str(t, "--key") || eq_str(t, "-e")
        || eq_str(t, "--referer")
}

fn takes_value_exec(t: &[char]) -> (r: bool)
    ensures
        r == takes_value(t@),
{
    is_method_opt_exec(t) || is_header_opt_exec(t) || is_data_opt_exec(t) || is_user_opt_exec(t)
        || is_agent_opt_exec(t) || is_cookie_opt_exec(t) || is_skipped_opt_exec(t)
}

fn add_header_exec(headers: &mut Vec<(String, String)>, k: &str, v: String)
    ensures
        entries_view(final(headers)@) == entries_view(old(headers)@).push((k@, v@)),
{
    let ghost before = entries_view(headers@);
    headers.push((string_of(&chars_of(k)), v));
    assert(entries_view(headers@) =~= before.push((k@, v@)));
}

fn basic_credentials_exec(c: &[char]) -> (r: String)
    ensures
        r@ == basic_credentials(c@),
{
    let creds = string_of(c);
    let encoded = base64_encode(creds.as_str().as_bytes());
    let mut out = chars_of("Basic ");
    let enc = chars_of(encoded.as_str());
    append(&mut out, &enc);
    string_of(&out)
}

/// Read a cURL command. Fails when no argument names a URL.
pub fn parse_curl(curl_cmd: &str) -> (r: Result<CurlRequest, String>)
    ensures
        r matches Ok(req) ==> req@ == parse_curl_spec(curl_cmd@) && req@.url.len() > 0,
        r matches Err(e) ==> parse_curl_spec(curl_cmd@).url.len() == 0 && e@
            == "No URL found in cURL command"@,
{
    let all = chars_of(curl_cmd);
    let c = trim_vec(&all);
    proof {
        reveal_strlit("curl");
    }
    let stripped = if starts_with_exec(&c, &chars_of("curl")) {
        crate::text::slice_vec(&c, 4, c.len())
    } else {
        c.clone()
    };
    let rest = trim_vec(&stripped);
    proof {
        reveal_strlit("curl");
        if starts_with(c@, "curl"@) {
            assert(stripped@ =~= c@.skip(4));
        }
        assert(rest@ == command_rest(curl_cmd@));
    }
    let toks = split_exec(&rest);
    let mut method = HttpMethod::GET;
    let mut url: Vec<char> = Vec::new();
    let mut headers: Vec<(String, String)> = Vec::new();
    let mut body: Option<String> = None;
    let ghost all_toks = vv(toks@);
    let mut i: usize = 0;
    assert(all_toks.skip(0) =~= all_toks);
    assert(entries_view(headers@) =~= Seq::<(Seq<char>, Seq<char>)>::empty());
    assert(url@ =~= Seq::<char>::empty());
    while i < toks.len()
        invariant
            i <= toks@.len(),
            all_toks == vv(toks@),
            read_args(all_toks, empty_request()) == read_args(
                all_toks.skip(i as int),
                ParsedCurl {
                    method,
                    url: url@,
                    headers: entries_view(headers@),
                    body: opt_view(body),
                },
            ),
        decreases toks@.len() - i,
    {
        let t = &toks[i];
        let ghost r0 = ParsedCurl {
            method,
            url: url@,
            headers: entries_view(headers@),
            body: opt_view(body),
        };
        let ghost rest_toks = all_toks.skip(i as int).drop_first();
        proof {
            assert(all_toks.skip(i as int)[0] == t@);
            assert(rest_toks =~= all_toks.skip(i + 1));
        }
        if takes_value_exec(t) && i + 1 < toks.len() {
            let a = &toks[i + 1];
            proof {
                assert(rest_toks[0] == a@);
                assert(rest_toks.drop_first() =~= all_toks.skip(i + 2));
            }
            if is_method_opt_exec(t) {
                let a_str = string_of(a);
                method = match HttpMethod::from_str(a_str.as_str()) {
                    Some(m) => m,
                    None => HttpMethod::GET,
                };
            } else if is_header_opt_exec(t) {
                match split_once_char(a, ':') {
                    Some((k, v)) => {
                        let kt = trim_vec(&k);
                        let vt = trim_vec(&v);
                        let ghost before = entries_view(headers@);
                        headers.push((string_of(&kt), string_of(&vt)));
                        assert(entries_view(headers@) =~= before.push((kt@, vt@)));
                    },
                    None => {},
                }
            } else if is_data_opt_exec(t) {
                body = Some(string_of(a));
                if method == HttpMethod::GET {
                    method = HttpMethod::POST;
                }
                if eq_str(t, "--json") {
                    add_header_exec(
                        &mut headers,
                        "Content-Type",
                        string_of(&chars_of("application/json")),
                    );
                }
            } else if is_user_opt_exec(t) {
                let value = basic_credentials_exec(a);
                add_header_exec(&mut headers, "Authorization", value);
            } else if is_agent_opt_exec(t) {
                add_header_exec(&mut headers, "User-Agent", string_of(a));
            } else if is_cookie_opt_exec(t) {
                add_header_exec(&mut headers, "Cookie", string_of(a));
            }
            assert(ParsedCurl {
                method,
                url: url@,
                headers: entries_view(headers@),
                body: opt_view(body),
            } == apply_value(t@, a@, r0));
            i += 2;
        } else {
            if eq_str(t, "-I") || eq_str(t, "--head") {
                method = HttpMethod::HEAD;
            } else if eq_str(t, "-G") || eq_str(t, "--get") {
                method = HttpMethod::GET;
            } else if !starts_with_exec(t, &chars_of("-")) && url.len() == 0 {
                url = t.clone();
            }
            assert(ParsedCurl {
                method,
                url: url@,
                headers: entries_view(headers@),
                body: opt_view(body),
            } == apply_alone(t@, r0));
            i += 1;
        }
    }
    proof {
        assert(all_toks.skip(i as int) =~= Seq::<Seq<char>>::empty());
    }
    if url.len() == 0 {
        return Err(string_of(&chars_of("No URL found in cURL command")));
    }
    Ok(CurlRequest { method, url: string_of(&url), headers, body })
}

// ---------------------------------------------------------------------------
// A data option turns only a GET into a POST
// ---------------------------------------------------------------------------

/// Every option that takes a value starts with `-`.
proof fn lemma_value_options_start_with_dash(t: Seq<char>)
    requires
        takes_value(t),
    ensures
        t.len() > 0 && t[0] == '-',
{
    reveal_strlit("-X");
    reveal_strlit("--request");
    reveal_strlit("-H");
    reveal_strlit("--header");
    reveal_strlit("-d");
    reveal_strlit("--data");
    reveal_strlit("--data-raw");
    reveal_strlit("--data-binary");
    reveal_strlit("--json");
    reveal_strlit("-u");
    reveal_strlit("--user");
    reveal_strlit("-A");
    reveal_strlit("--user-agent");
    reveal_strlit("-b");
    reveal_strlit("--cookie");
    reveal_strlit("-o");
    reveal_strlit("--output");
    reveal_strlit("-x");
    reveal_strlit("--proxy");
    reveal_strlit("-c");
    reveal_strlit("--cookie-jar");
    reveal_strlit("-j");
    reveal_strlit("--connect-timeout");
    reveal_strlit("--max-time");
    reveal_strlit("-m");
    reveal_strlit("-w");
    reveal_strlit("--write-out");
    reveal_strlit("--cacert");
    reveal_strlit("--cert");
    reveal_strlit("--key");
    reveal_strlit("-e");
    reveal_strlit("--referer");
}

/// A data option is neither a method option nor a header option.
proof fn lemma_data_option_kind(d: Seq<char>)
    requires
        is_data_opt(d),
    ensures
        !is_method_opt(d),
        !is_header_opt(d),
        takes_value(d),
{
    reveal_strlit("-X");
    reveal_strlit("--request");
    reveal_strlit("-H");
    reveal_strlit("--header");
    reveal_strlit("-d");
    reveal_strlit("--data");
    reveal_strlit("--data-raw");
    reveal_strlit("--data-binary");
    reveal_strlit("--json");
    if d == "-d"@ {
        assert(d[1] == 'd' && "-X"@[1] == 'X' && "-H"@[1] == 'H');
        assert(d != "-X"@ && d != "-H"@);
    } else {
        assert(d.len() != 2 && d.len() != 8 && d.len() != 9);
    }
}

/// A data option `d` with its argument `b`, read after the arguments read
/// so far, sets the body to `b` and keeps every other part of the request,
/// except that a GET becomes a POST (any other method is kept) and
/// `--json` adds a JSON content type. What follows is read from there.
pub proof fn law_data_option(
    d: Seq<char>,
    b: Seq<char>,
    toks: Seq<Seq<char>>,
    r: ParsedCurl,
)
    requires
        is_data_opt(d),
    ensures
        read_args(seq![d, b] + toks, r) == read_args(
            toks,
            ParsedCurl {
                method: if r.method == HttpMethod::GET {
                    HttpMethod::POST
                } else {
                    r.method
                },
                url: r.url,
                headers: if d == "--json"@ {
                    r.headers.push(("Content-Type"@, "application/json"@))
                } else {
                    r.headers
                },
                body: Some(b),
            },
        ),
{
    lemma_data_option_kind(d);
    let all = seq![d, b] + toks;
    assert(all[0] == d);
    assert(all.drop_first()[0] == b);
    assert(all.drop_first().drop_first() =~= toks);
}

/// A method set with `-X` to anything but GET is kept when a data option
/// follows; a data option after `-X GET` makes it a POST. The body is the
/// data and the URL the argument that follows.
pub proof fn law_explicit_method_then_data(
    cmd: Seq<char>,
    m: Seq<char>,
    d: Seq<char>,
    b: Seq<char>,
    u: Seq<char>,
    mm: HttpMethod,
)
    requires
        split_args(command_rest(cmd)) == seq!["-X"@, m, d, b, u],
        method_named(uppercase(m)) == Some(mm),
        is_data_opt(d),
        u.len() > 0,
        u[0] != '-',
    ensures
        parse_curl_spec(cmd).method == if mm == HttpMethod::GET {
            HttpMethod::POST
        } else {
            mm
        },
        parse_curl_spec(cmd).body == Some(b),
        parse_curl_spec(cmd).url == u,
{
    reveal_strlit("-X");
    reveal_strlit("-I");
    reveal_strlit("--head");
    reveal_strlit("-G");
    reveal_strlit("--get");
    reveal_strlit("-");
    let toks = seq!["-X"@, m, d, b, u];
    assert(is_method_opt("-X"@));
    let r0 = empty_request();
    let r1 = apply_value("-X"@, m, r0);
    assert(r1.method == mm);
    assert(toks.drop_first().drop_first() =~= seq![d, b] + seq![u]);
    assert(read_args(toks, r0) == read_args(seq![d, b] + seq![u], r1));
    law_data_option(d, b, seq![u], r1);
    let r2 = ParsedCurl {
        method: if r1.method == HttpMethod::GET {
            HttpMethod::POST
        } else {
            r1.method
        },
        url: r1.url,
        headers: if d == "--json"@ {
            r1.headers.push(("Content-Type"@, "application/json"@))
        } else {
            r1.headers
        },
        body: Some(b),
    };
    if takes_value(u) {
        lemma_value_options_start_with_dash(u);
    }
    assert(seq![u].drop_first() =~= Seq::<Seq<char>>::empty());
    assert(u != "-I"@ && u != "--head"@ && u != "-G"@ && u != "--get"@) by {
        if u == "-I"@ || u == "--head"@ || u == "-G"@ || u == "--get"@ {
            assert(u[0] == '-');
        }
    }
    assert(!starts_with(u, "-"@)) by {
        if starts_with(u, "-"@) {
            assert(u.take(1)[0] == u[0]);
        }
    }
    assert(read_args(Seq::<Seq<char>>::empty(), apply_alone(u, r2)) == apply_alone(u, r2));
    assert(read_args(seq![u], r2) == read_args(seq![u].drop_first(), apply_alone(u, r2)));
}

/// The same with the URL before the data: `-X m URL -d body` keeps a method
/// other than GET, and the body and URL are the ones given.
pub proof fn law_explicit_method_url_then_data(
    cmd: Seq<char>,
    m: Seq<char>,
    u: Seq<char>,
    d: Seq<char>,
    b: Seq<char>,
    mm: HttpMethod,
)
    requires
        split_args(command_rest(cmd)) == seq!["-X"@, m, u, d, b],
        method_named(uppercase(m)) == Some(mm),
        is_data_opt(d),
        u.len() > 0,
        u[0] != '-',
    ensures
        parse_curl_spec(cmd).method == if mm == HttpMethod::GET {
            HttpMethod::POST
        } else {
            mm
        },
        parse_curl_spec(cmd).body == Some(b),
        parse_curl_spec(cmd).url == u,
{
    reveal_strlit("-X");
    reveal_strlit("-I");
    reveal_strlit("--head");
    reveal_strlit("-G");
    reveal_strlit("--get");
    reveal_strlit("-");
    let toks = seq!["-X"@, m, u, d, b];
    assert(is_method_opt("-X"@));
    let r0 = empty_request();
    let r1 = apply_value("-X"@, m, r0);
    assert(r1.method == mm);
    let after = toks.drop_first().drop_first();
    assert(after =~= seq![u, d, b]);
    assert(read_args(toks, r0) == read_args(after, r1));
    if takes_value(u) {
        lemma_value_options_start_with_dash(u);
    }
    assert(u != "-I"@ && u != "--head"@ && u != "-G"@ && u != "--get"@) by {
        if u == "-I"@ || u == "--head"@ || u == "-G"@ || u == "--get"@ {
            assert(u[0] == '-');
        }
    }
    assert(!starts_with(u, "-"@)) by {
        if starts_with(u, "-"@) {
            assert(u.take(1)[0] == u[0]);
        }
    }
    let r1u = apply_alone(u, r1);
    assert(r1u.url == u && r1u.method == mm);
    assert(after.drop_first() =~= seq![d, b] + Seq::<Seq<char>>::empty());
    assert(read_args(after, r1) == read_args(after.drop_first(), r1u));
    law_data_option(d, b, Seq::<Seq<char>>::empty(), r1u);
}

// ---------------------------------------------------------------------------
// What each option does, read in front of the rest of the arguments
// ---------------------------------------------------------------------------

proof fn lemma_short_options_differ()
    ensures
        "-X"@ != "-H"@,
        "-X"@ != "-d"@,
        "-H"@ != "-d"@,
        "-u"@ != "-X"@ && "-u"@ != "-H"@ && "-u"@ != "-d"@,
        "-A"@ != "-X"@ && "-A"@ != "-H"@ && "-A"@ != "-d"@ && "-A"@ != "-u"@,
        "-b"@ != "-X"@ && "-b"@ != "-H"@ && "-b"@ != "-d"@ && "-b"@ != "-u"@ && "-b"@ != "-A"@,
        !is_method_opt("-H"@) && is_header_opt("-H"@),
        is_method_opt("-X"@),
        !is_method_opt("-u"@) && !is_header_opt("-u"@) && !is_data_opt("-u"@) && is_user_opt(
            "-u"@,
        ),
        !is_method_opt("-A"@) && !is_header_opt("-A"@) && !is_data_opt("-A"@) && !is_user_opt(
            "-A"@,
        ) && is_agent_opt("-A"@),
        !is_method_opt("-b"@) && !is_header_opt("-b"@) && !is_data_opt("-b"@) && !is_user_opt(
            "-b"@,
        ) && !is_agent_opt("-b"@) && is_cookie_opt("-b"@),
{
    reveal_strlit("-X");
    reveal_strlit("--request");
    reveal_strlit("-H");
    reveal_strlit("--header");
    reveal_strlit("-d");
    reveal_strlit("--data");
    reveal_strlit("--data-raw");
    reveal_strlit("--data-binary");
    reveal_strlit("--json");
    reveal_strlit("-u");
    reveal_strlit("--user");
    reveal_strlit("-A");
    reveal_strlit("--user-agent");
    reveal_strlit("-b");
    reveal_strlit("--cookie");
    assert("-X"@[1] == 'X' && "-H"@[1] == 'H' && "-d"@[1] == 'd' && "-u"@[1] == 'u' && "-A"@[1]
        == 'A' && "-b"@[1] == 'b');
}

/// The request with one more header.
pub open spec fn with_header(r: ParsedCurl, k: Seq<char>, v: Seq<char>) -> ParsedCurl {
    ParsedCurl { method: r.method, url: r.url, headers: r.headers.push((k, v)), body: r.body }
}

/// `-X m` sets the method to the one `m` names in any case, or GET when it
/// names none, and changes nothing else.
pub proof fn law_method_option(m: Seq<char>, toks: Seq<Seq<char>>, r: ParsedCurl)
    ensures
        read_args(seq!["-X"@, m] + toks, r) == read_args(
            toks,
            ParsedCurl {
                method: match method_named(uppercase(m)) {
                    Some(mm) => mm,
                    None => HttpMethod::GET,
                },
                url: r.url,
                headers: r.headers,
                body: r.body,
            },
        ),
{
    lemma_short_options_differ();
    let all = seq!["-X"@, m] + toks;
    assert(all[0] == "-X"@);
    assert(all.drop_first()[0] == m);
    assert(all.drop_first().drop_first() =~= toks);
}

/// `-H "name: value"` adds the header with name and value trimmed, the
/// name being what comes before the first colon.
pub proof fn law_header_option(
    k: Seq<char>,
    v: Seq<char>,
    toks: Seq<Seq<char>>,
    r: ParsedCurl,
)
    requires
        crate::text::lacks(k, ':'),
    ensures
        read_args(seq!["-H"@, k + seq![':'] + v] + toks, r) == read_args(
            toks,
            with_header(r, trim(k), trim(v)),
        ),
{
    lemma_short_options_differ();
    let h = k + seq![':'] + v;
    crate::text::lemma_find_char_after(k, ':', v);
    assert(h.take(k.len() as int) =~= k);
    assert(h.skip(k.len() + 1 as int) =~= v);
    let all = seq!["-H"@, h] + toks;
    assert(all[0] == "-H"@);
    assert(all.drop_first()[0] == h);
    assert(all.drop_first().drop_first() =~= toks);
    assert(takes_value("-H"@));
}

/// `-u user:password` adds an `Authorization` header with `Basic ` and the
/// base64 of the credentials; `-A agent` adds `User-Agent` and `-b cookie`
/// adds `Cookie`, each with the argument as its value.
pub proof fn law_credential_options(a: Seq<char>, toks: Seq<Seq<char>>, r: ParsedCurl)
    ensures
        read_args(seq!["-u"@, a] + toks, r) == read_args(
            toks,
            with_header(r, "Authorization"@, "Basic "@ + b64_encode(encode_utf8(a))),
        ),
        read_args(seq!["-A"@, a] + toks, r) == read_args(toks, with_header(r, "User-Agent"@, a)),
        read_args(seq!["-b"@, a] + toks, r) == read_args(toks, with_header(r, "Cookie"@, a)),
{
    lemma_short_options_differ();
    let u = seq!["-u"@, a] + toks;
    assert(u[0] == "-u"@ && u.drop_first()[0] == a);
    assert(u.drop_first().drop_first() =~= toks);
    let g = seq!["-A"@, a] + toks;
    assert(g[0] == "-A"@ && g.drop_first()[0] == a);
    assert(g.drop_first().drop_first() =~= toks);
    let c = seq!["-b"@, a] + toks;
    assert(c[0] == "-b"@ && c.drop_first()[0] == a);
    assert(c.drop_first().drop_first() =~= toks);
}

/// The first argument that is not an option is the URL; a later one is
/// ignored.
pub proof fn law_first_positional_is_url(u: Seq<char>, toks: Seq<Seq<char>>, r: ParsedCurl)
    requires
        u.len() > 0,
        u[0] != '-',
    ensures
        r.url.len() == 0 ==> read_args(seq![u] + toks, r) == read_args(
            toks,
            ParsedCurl { method: r.method, url: u, headers: r.headers, body: r.body },
        ),
        r.url.len() > 0 ==> read_args(seq![u] + toks, r) == read_args(toks, r),
{
    reveal_strlit("-I");
    reveal_strlit("--head");
    reveal_strlit("-G");
    reveal_strlit("--get");
    reveal_strlit("-");
    if takes_value(u) {
        lemma_value_options_start_with_dash(u);
    }
    assert(u != "-I"@ && u != "--head"@ && u != "-G"@ && u != "--get"@) by {
        if u == "-I"@ || u == "--head"@ || u == "-G"@ || u == "--get"@ {
            assert(u[0] == '-');
        }
    }
    assert(!starts_with(u, "-"@)) by {
        if starts_with(u, "-"@) {
            assert(u.take(1)[0] == u[0]);
        }
    }
    let all = seq![u] + toks;
    assert(all[0] == u);
    assert(all.drop_first() =~= toks);
}

} // verus!
