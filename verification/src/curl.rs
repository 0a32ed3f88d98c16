//! cURL import (paste into the URL bar) and export (Copy as cURL).
use crate::kv::{basic_auth, basic_auth_value};
use crate::model::{
    entries_view, law_method_parse_roundtrip, method_name, parse_method, HeaderMap, HttpMethod,
};
use crate::text::{
    append, append_str, chars_of, eq_str, find, is_trimmed, lemma_find_from_skip, lemma_trim_trimmed, matches_at, split_once,
    split_once_char, starts_with, starts_with_exec, string_of, strip_prefix, trim, trim_start, trim_vec,
};
use vstd::prelude::*;

verus! {

#[derive(Debug)]
pub struct CurlRequest {
    pub method: HttpMethod,
    pub url: String,
    pub headers: Vec<(String, String)>,
    pub body: Option<String>,
}

/// A parsed request as plain text values.
pub struct CurlSpec {
    pub method: HttpMethod,
    pub url: Seq<char>,
    pub headers: Seq<(Seq<char>, Seq<char>)>,
    pub body: Option<Seq<char>>,
}

pub open spec fn opt_view(o: Option<String>) -> Option<Seq<char>> {
    match o {
        Some(s) => Some(s@),
        None => None,
    }
}

impl View for CurlRequest {
    type V = CurlSpec;

    open spec fn view(&self) -> CurlSpec {
        CurlSpec {
            method: self.method,
            url: self.url@,
            headers: entries_view(self.headers@),
            body: opt_view(self.body),
        }
    }
}

// ---------------------------------------------------------------------------
// Tokenizer: a POSIX-shell-like splitter, one character at a time
// ---------------------------------------------------------------------------

/// Tokenizer state: the open quote, whether a backslash escape is pending,
/// the token being built and the tokens so far.
pub struct TokState {
    pub quote: Option<char>,
    pub esc: bool,
    pub cur: Seq<char>,
    pub toks: Seq<Seq<char>>,
}

pub open spec fn is_blank(c: char) -> bool {
    c == ' ' || c == '\t' || c == '\n' || c == '\r'
}

/// The tokens with the current one closed (if it is not empty).
pub open spec fn flush(cur: Seq<char>, toks: Seq<Seq<char>>) -> Seq<Seq<char>> {
    if cur.len() > 0 {
        toks.push(cur)
    } else {
        toks
    }
}

pub open spec fn mk(quote: Option<char>, esc: bool, cur: Seq<char>, toks: Seq<Seq<char>>) -> TokState {
    TokState { quote, esc, cur, toks }
}

/// Single quotes are literal; a backslash escapes the next character outside
/// quotes and inside double quotes; backslash-newline is a line continuation.
pub open spec fn tok_step(st: TokState, ch: char) -> TokState {
    if st.esc {
        mk(st.quote, false, if ch == '\n' { st.cur } else { st.cur.push(ch) }, st.toks)
    } else {
        match st.quote {
            None => if ch == '\'' || ch == '"' {
                mk(Some(ch), false, st.cur, st.toks)
            } else if ch == '\\' {
                mk(None, true, st.cur, st.toks)
            } else if is_blank(ch) {
                mk(None, false, Seq::empty(), flush(st.cur, st.toks))
            } else {
                mk(None, false, st.cur.push(ch), st.toks)
            },
            Some(q) => if ch == q {
                mk(None, false, st.cur, st.toks)
            } else if q == '"' && ch == '\\' {
                mk(st.quote, true, st.cur, st.toks)
            } else {
                mk(st.quote, false, st.cur.push(ch), st.toks)
            },
        }
    }
}

pub open spec fn run(s: Seq<char>, st: TokState) -> TokState
    decreases s.len(),
{
    if s.len() == 0 {
        st
    } else {
        run(s.drop_first(), tok_step(st, s[0]))
    }
}

pub open spec fn tok_init() -> TokState {
    mk(None, false, Seq::empty(), Seq::empty())
}

/// The arguments of a command line.
pub open spec fn tokenize_spec(s: Seq<char>) -> Seq<Seq<char>> {
    let st = run(s, tok_init());
    flush(st.cur, st.toks)
}

pub proof fn lemma_run_concat(a: Seq<char>, b: Seq<char>, st: TokState)
    ensures
        run(a + b, st) == run(b, run(a, st)),
    decreases a.len(),
{
    if a.len() == 0 {
        assert(a + b =~= b);
    } else {
        assert((a + b).drop_first() =~= a.drop_first() + b);
        lemma_run_concat(a.drop_first(), b, tok_step(st, a[0]));
    }
}

pub proof fn lemma_run_one(c: char, st: TokState)
    ensures
        run(seq![c], st) == tok_step(st, c),
{
    assert(seq![c].drop_first() =~= Seq::<char>::empty());
    assert(run(Seq::<char>::empty(), tok_step(st, c)) == tok_step(st, c));
}

pub open spec fn vv(v: Seq<Vec<char>>) -> Seq<Seq<char>> {
    v.map_values(|x: Vec<char>| x@)
}

fn tokenize(s: &[char]) -> (r: Vec<Vec<char>>)
    ensures
        vv(r@) == tokenize_spec(s@),
{
    let mut toks: Vec<Vec<char>> = Vec::new();
    let mut cur: Vec<char> = Vec::new();
    let mut quote: Option<char> = None;
    let mut esc = false;
    let mut i: usize = 0;
    assert(s@.skip(0) =~= s@);
    assert(vv(toks@) =~= Seq::<Seq<char>>::empty());
    while i < s.len()
        invariant
            i <= s@.len(),
            run(s@, tok_init()) == run(s@.skip(i as int), mk(quote, esc, cur@, vv(toks@))),
        decreases s@.len() - i,
    {
        let ch = s[i];
        let ghost st = mk(quote, esc, cur@, vv(toks@));
        proof {
            assert(s@.skip(i as int).drop_first() =~= s@.skip(i + 1));
            assert(s@.skip(i as int)[0] == ch);
        }
        if esc {
            esc = false;
            if ch != '\n' {
                cur.push(ch);
            }
        } else {
            match quote {
                None => {
                    if ch == '\'' || ch == '"' {
                        quote = Some(ch);
                    } else if ch == '\\' {
                        esc = true;
                    } else if ch == ' ' || ch == '\t' || ch == '\n' || ch == '\r' {
                        if cur.len() > 0 {
                            let ghost before = vv(toks@);
                            let mut done: Vec<char> = Vec::new();
                            std::mem::swap(&mut done, &mut cur);
                            toks.push(done);
                            assert(vv(toks@) =~= before.push(st.cur));
                        }
                        assert(cur@ =~= Seq::<char>::empty());
                    } else {
                        cur.push(ch);
                    }
                },
                Some(q) => {
                    if ch == q {
                        quote = None;
                    } else if q == '"' && ch == '\\' {
                        esc = true;
                    } else {
                        cur.push(ch);
                    }
                },
            }
        }
        assert(mk(quote, esc, cur@, vv(toks@)) == tok_step(st, ch));
        i += 1;
    }
    proof {
        assert(s@.skip(i as int) =~= Seq::<char>::empty());
    }
    if cur.len() > 0 {
        let ghost before = vv(toks@);
        let ghost last = cur@;
        toks.push(cur);
        assert(vv(toks@) =~= before.push(last));
    }
    toks
}


// ---------------------------------------------------------------------------
// Arguments to request
// ---------------------------------------------------------------------------

pub open spec fn init_req() -> CurlSpec {
    CurlSpec { method: HttpMethod::GET, url: Seq::empty(), headers: Seq::empty(), body: None }
}

pub open spec fn is_method_flag(t: Seq<char>) -> bool {
    t == "-X"@ || t == "--request"@
}

pub open spec fn is_header_flag(t: Seq<char>) -> bool {
    t == "-H"@ || t == "--header"@
}

pub open spec fn is_data_flag(t: Seq<char>) -> bool {
    t == "-d"@ || t == "--data"@ || t == "--data-raw"@ || t == "--data-binary"@ || t == "--json"@
}

pub open spec fn is_user_flag(t: Seq<char>) -> bool {
    t == "-u"@ || t == "--user"@
}

pub open spec fn is_agent_flag(t: Seq<char>) -> bool {
    t == "-A"@ || t == "--user-agent"@
}

pub open spec fn is_cookie_flag(t: Seq<char>) -> bool {
    t == "-b"@ || t == "--cookie"@
}

/// Flags whose argument is not used.
pub open spec fn is_ignored_arg_flag(t: Seq<char>) -> bool {
    ||| t == "-o"@
    ||| t == "--output"@
    ||| t == "-x"@
    ||| t == "--proxy"@
    ||| t == "-c"@
    ||| t == "--cookie-jar"@
    ||| t == "--connect-timeout"@
    ||| t == "--max-time"@
    ||| t == "-m"@
    ||| t == "-w"@
    ||| t == "--write-out"@
    ||| t == "--cacert"@
    ||| t == "--cert"@
    ||| t == "--key"@
    ||| t == "-e"@
    ||| t == "--referer"@
}

pub open spec fn takes_arg(t: Seq<char>) -> bool {
    is_method_flag(t) || is_header_flag(t) || is_data_flag(t) || is_user_flag(t) || is_agent_flag(t)
        || is_cookie_flag(t) || is_ignored_arg_flag(t)
}

pub open spec fn with_method(r: CurlSpec, m: HttpMethod) -> CurlSpec {
    CurlSpec { method: m, url: r.url, headers: r.headers, body: r.body }
}

pub open spec fn with_header(r: CurlSpec, k: Seq<char>, v: Seq<char>) -> CurlSpec {
    CurlSpec { method: r.method, url: r.url, headers: r.headers.push((k, v)), body: r.body }
}

/// The effect of flag `t` with argument `a`.
pub open spec fn apply_flag(t: Seq<char>, a: Seq<char>, r: CurlSpec) -> CurlSpec {
    if is_method_flag(t) {
        with_method(
            r,
            match parse_method(a) {
                Some(m) => m,
                None => HttpMethod::GET,
            },
        )
    } else if is_header_flag(t) {
        match split_once(a, seq![':']) {
            Some((k, v)) => with_header(r, trim(k), trim(v)),
            None => r,
        }
    } else if is_data_flag(t) {
        let m = if r.method == HttpMethod::GET {
            HttpMethod::POST
        } else {
            r.method
        };
        let r2 = CurlSpec { method: m, url: r.url, headers: r.headers, body: Some(a) };
        if t == "--json"@ {
            with_header(r2, "Content-Type"@, "application/json"@)
        } else {
            r2
        }
    } else if is_user_flag(t) {
        let (user, pass) = match split_once(a, seq![':']) {
            Some(p) => p,
            None => (a, Seq::empty()),
        };
        with_header(r, "Authorization"@, basic_auth_value(user, pass))
    } else if is_agent_flag(t) {
        with_header(r, "User-Agent"@, a)
    } else if is_cookie_flag(t) {
        with_header(r, "Cookie"@, a)
    } else {
        r
    }
}

/// The effect of an argument that is not followed by one it consumes.
pub open spec fn apply_bare(t: Seq<char>, r: CurlSpec) -> CurlSpec {
    if t == "-I"@ || t == "--head"@ {
        with_method(r, HttpMethod::HEAD)
    } else if t == "-G"@ || t == "--get"@ {
        with_method(r, HttpMethod::GET)
    } else if !takes_arg(t) && !starts_with(t, "-"@) && r.url.len() == 0 {
        CurlSpec { method: r.method, url: t, headers: r.headers, body: r.body }
    } else {
        r
    }
}

pub open spec fn parse_args(toks: Seq<Seq<char>>, r: CurlSpec) -> CurlSpec
    decreases toks.len(),
{
    if toks.len() == 0 {
        r
    } else {
        let t = toks[0];
        let rest = toks.drop_first();
        if takes_arg(t) && rest.len() > 0 {
            parse_args(rest.drop_first(), apply_flag(t, rest[0], r))
        } else {
            parse_args(rest, apply_bare(t, r))
        }
    }
}

/// The command after trimming and dropping a leading `curl`.
pub open spec fn command_args(cmd: Seq<char>) -> Seq<char> {
    let c = trim(cmd);
    match strip_prefix(c, "curl"@) {
        Some(rest) => rest,
        None => c,
    }
}

/// What `parse` reads from a command line.
pub open spec fn parse_spec(cmd: Seq<char>) -> CurlSpec {
    parse_args(tokenize_spec(command_args(cmd)), init_req())
}

/// Some argument is positional: not starting with `-` and not the value of
/// an option that takes one.
pub open spec fn has_positional(toks: Seq<Seq<char>>) -> bool
    decreases toks.len(),
{
    if toks.len() == 0 {
        false
    } else {
        let t = toks[0];
        let rest = toks.drop_first();
        if takes_arg(t) && rest.len() > 0 {
            has_positional(rest.drop_first())
        } else {
            (!takes_arg(t) && !starts_with(t, "-"@) && t.len() > 0) || has_positional(rest)
        }
    }
}

proof fn lemma_url_found(toks: Seq<Seq<char>>, r: CurlSpec)
    ensures
        (parse_args(toks, r).url.len() == 0) == (r.url.len() == 0 && !has_positional(toks)),
    decreases toks.len(),
{
    if toks.len() > 0 {
        let t = toks[0];
        let rest = toks.drop_first();
        if takes_arg(t) && rest.len() > 0 {
            lemma_url_found(rest.drop_first(), apply_flag(t, rest[0], r));
        } else {
            lemma_url_found(rest, apply_bare(t, r));
            reveal_strlit("-I");
            reveal_strlit("--head");
            reveal_strlit("-G");
            reveal_strlit("--get");
            reveal_strlit("-");
            if t == "-I"@ || t == "--head"@ || t == "-G"@ || t == "--get"@ {
                assert(t.take(1) =~= "-"@);
            }
        }
    }
}

/// Pasting a command fails for want of a URL exactly when, after trimming,
/// dropping a leading `curl` and splitting it into arguments, no argument
/// is positional.
pub proof fn law_parse_needs_positional(cmd: Seq<char>)
    ensures
        (parse_spec(cmd).url.len() == 0) == !has_positional(tokenize_spec(command_args(cmd))),
{
    lemma_url_found(tokenize_spec(command_args(cmd)), init_req());
}

fn is_method_flag_exec(t: &[char]) -> (r: bool)
    ensures
        r == is_method_flag(t@),
{
    eq_str(t, "-X") || eq_str(t, "--request")
}

fn is_header_flag_exec(t: &[char]) -> (r: bool)
    ensures
        r == is_header_flag(t@),
{
    eq_str(t, "-H") || eq_str(t, "--header")
}

fn is_data_flag_exec(t: &[char]) -> (r: bool)
    ensures
        r == is_data_flag(t@),
{
    eq_str(t, "-d") || eq_str(t, "--data") || eq_str(t, "--data-raw") || eq_str(
        t,
        "--data-binary",
    ) || eq_str(t, "--json")
}

fn is_user_flag_exec(t: &[char]) -> (r: bool)
    ensures
        r == is_user_flag(t@),
{
    eq_str(t, "-u") || eq_str(t, "--user")
}

fn is_agent_flag_exec(t: &[char]) -> (r: bool)
    ensures
        r == is_agent_flag(t@),
{
    eq_str(t, "-A") || eq_str(t, "--user-agent")
}

fn is_cookie_flag_exec(t: &[char]) -> (r: bool)
    ensures
        r == is_cookie_flag(t@),
{
    eq_str(t, "-b") || eq_str(t, "--cookie")
}

fn is_ignored_arg_flag_exec(t: &[char]) -> (r: bool)
    ensures
        r == is_ignored_arg_flag(t@),
{
    eq_str(t, "-o") || eq_str(t, "--output") || eq_str(t, "-x") || eq_str(t, "--proxy") || eq_str(
        t,
        "-c",
    ) || eq_str(t, "--cookie-jar") || eq_str(t, "--connect-timeout") || eq_str(t, "--max-time")
        || eq_str(t, "-m") || eq_str(t, "-w") || eq_str(t, "--write-out") || eq_str(t, "--cacert")
        || eq_str(t, "--cert") || eq_str(t, "--key") || eq_str(t, "-e") || eq_str(t, "--referer")
}

fn takes_arg_exec(t: &[char]) -> (r: bool)
    ensures
        r == takes_arg(t@),
{
    is_method_flag_exec(t) || is_header_flag_exec(t) || is_data_flag_exec(t) || is_user_flag_exec(t)
        || is_agent_flag_exec(t) || is_cookie_flag_exec(t) || is_ignored_arg_flag_exec(t)
}

fn push_header(headers: &mut Vec<(String, String)>, k: &str, v: String)
    ensures
        entries_view(final(headers)@) == entries_view(old(headers)@).push((k@, v@)),
{
    let ghost before = entries_view(headers@);
    headers.push((string_of(&chars_of(k)), v));
    assert(entries_view(headers@) =~= before.push((k@, v@)));
}

/// Parse a pasted cURL command. Fails when no URL is found.
pub fn parse(cmd: &str) -> (r: Result<CurlRequest, String>)
    ensures
        r matches Ok(req) ==> req@ == parse_spec(cmd@) && parse_spec(cmd@).url.len() > 0,
        r matches Err(e) ==> parse_spec(cmd@).url.len() == 0 && e@
            == "Invalid cURL command: no URL found"@,
{
    let all = chars_of(cmd);
    let c = trim_vec(&all);
    proof {
        reveal_strlit("curl");
    }
    let stripped = if starts_with_exec(&c, &chars_of("curl")) {
        crate::text::slice_vec(&c, 4, c.len())
    } else {
        c.clone()
    };
    proof {
        reveal_strlit("curl");
        if starts_with(c@, "curl"@) {
            assert(stripped@ =~= c@.skip(4));
        }
        assert(stripped@ == command_args(cmd@));
    }
    let toks = tokenize(&stripped);
    let mut method = HttpMethod::GET;
    let mut url: Vec<char> = Vec::new();
    let mut headers: Vec<(String, String)> = Vec::new();
    let mut body: Option<String> = None;
    let ghost all_toks = vv(toks@);
    let mut i: usize = 0;
    assert(all_toks.skip(0) =~= all_toks);
    assert(entries_view(headers@) =~= Seq::<(Seq<char>, Seq<char>)>::empty());
    assert(url@ =~= Seq::<char>::empty());
    while i < toks.len()
        invariant
            i <= toks@.len(),
            all_toks == vv(toks@),
            parse_args(all_toks, init_req()) == parse_args(
                all_toks.skip(i as int),
                CurlSpec { method, url: url@, headers: entries_view(headers@), body: opt_view(body) },
            ),
        decreases toks@.len() - i,
    {
        let t = &toks[i];
        let ghost r0 = CurlSpec {
            method,
            url: url@,
            headers: entries_view(headers@),
            body: opt_view(body),
        };
        let ghost rest = all_toks.skip(i as int).drop_first();
        proof {
            assert(all_toks.skip(i as int)[0] == t@);
            assert(rest =~= all_toks.skip(i + 1));
        }
        if takes_arg_exec(t) && i + 1 < toks.len() {
            let a = &toks[i + 1];
            proof {
                assert(rest[0] == a@);
                assert(rest.drop_first() =~= all_toks.skip(i + 2));
            }
            if is_method_flag_exec(t) {
                let a_str = string_of(a);
                method = match HttpMethod::parse(a_str.as_str()) {
                    Some(m) => m,
                    None => HttpMethod::GET,
                };
            } else if is_header_flag_exec(t) {
                match split_once_char(a, ':') {
                    Some((k, v)) => {
                        let kt = trim_vec(&k);
                        let vt = trim_vec(&v);
                        let ghost before = entries_view(headers@);
                        headers.push((string_of(&kt), string_of(&vt)));
                        assert(entries_view(headers@) =~= before.push((kt@, vt@)));
                    },
                    None => {},
                }
            } else if is_data_flag_exec(t) {
                body = Some(string_of(a));
                if method == HttpMethod::GET {
                    method = HttpMethod::POST;
                }
                if eq_str(t, "--json") {
                    push_header(&mut headers, "Content-Type", string_of(&chars_of("application/json")));
                }
            } else if is_user_flag_exec(t) {
                let (user, pass) = match split_once_char(a, ':') {
                    Some(p) => p,
                    None => (a.clone(), Vec::new()),
                };
                proof {
                    if split_once(a@, seq![':']) is None {
                        assert(pass@ =~= Seq::<char>::empty());
                    }
                }
                let value = basic_auth(string_of(&user).as_str(), string_of(&pass).as_str());
                push_header(&mut headers, "Authorization", value);
            } else if is_agent_flag_exec(t) {
                push_header(&mut headers, "User-Agent", string_of(a));
            } else if is_cookie_flag_exec(t) {
                push_header(&mut headers, "Cookie", string_of(a));
            }
            assert(CurlSpec {
                method,
                url: url@,
                headers: entries_view(headers@),
                body: opt_view(body),
            } == apply_flag(t@, a@, r0));
            i += 2;
        } else {
            if eq_str(t, "-I") || eq_str(t, "--head") {
                method = HttpMethod::HEAD;
            } else if eq_str(t, "-G") || eq_str(t, "--get") {
                method = HttpMethod::GET;
            } else if !takes_arg_exec(t) && !starts_with_exec(t, &chars_of("-")) && url.len() == 0 {
                url = t.clone();
            }
            assert(CurlSpec {
                method,
                url: url@,
                headers: entries_view(headers@),
                body: opt_view(body),
            } == apply_bare(t@, r0));
            i += 1;
        }
    }
    proof {
        assert(all_toks.skip(i as int) =~= Seq::<Seq<char>>::empty());
    }
    if url.len() == 0 {
        return Err(string_of(&chars_of("Invalid cURL command: no URL found")));
    }
    Ok(CurlRequest { method, url: string_of(&url), headers, body })
}


// ---------------------------------------------------------------------------
// Export
// ---------------------------------------------------------------------------

pub open spec fn quote_piece(c: char) -> Seq<char> {
    if c == '\'' {
        seq!['\'', '\\', '\'', '\'']
    } else {
        seq![c]
    }
}

pub open spec fn quote_body(s: Seq<char>) -> Seq<char>
    decreases s.len(),
{
    if s.len() == 0 {
        Seq::empty()
    } else {
        quote_body(s.drop_last()) + quote_piece(s.last())
    }
}

/// `s` in single quotes, each `'` written as `'\''`.
pub open spec fn shell_quoted(s: Seq<char>) -> Seq<char> {
    seq!['\''] + quote_body(s) + seq!['\'']
}

fn shell_quote(s: &str) -> (r: Vec<char>)
    ensures
        r@ == shell_quoted(s@),
{
    let cs = chars_of(s);
    let mut out: Vec<char> = vec!['\''];
    let mut i: usize = 0;
    assert(cs@.take(0) =~= Seq::<char>::empty());
    while i < cs.len()
        invariant
            i <= cs@.len(),
            cs@ == s@,
            out@ == seq!['\''] + quote_body(cs@.take(i as int)),
        decreases cs@.len() - i,
    {
        let c = cs[i];
        if c == '\'' {
            out.push('\'');
            out.push('\\');
            out.push('\'');
            out.push('\'');
        } else {
            out.push(c);
        }
        proof {
            assert(cs@.take(i + 1).drop_last() =~= cs@.take(i as int));
            assert(cs@.take(i + 1).last() == c);
            assert(out@ =~= seq!['\''] + quote_body(cs@.take(i + 1)));
        }
        i += 1;
    }
    out.push('\'');
    assert(cs@.take(cs@.len() as int) =~= cs@);
    assert(out@ =~= shell_quoted(s@));
    out
}

/// ` \` newline, two spaces, the flag and a space: how each option after the
/// URL starts.
pub open spec fn option_lead(flag: Seq<char>) -> Seq<char> {
    seq![' ', '\\', '\n', ' ', ' '] + flag + seq![' ']
}

pub open spec fn header_flag() -> Seq<char> {
    seq!['-', 'H']
}

pub open spec fn data_flag() -> Seq<char> {
    seq!['-', 'd']
}

/// `Key: Value` as one argument.
pub open spec fn header_arg(h: (Seq<char>, Seq<char>)) -> Seq<char> {
    h.0 + seq![':', ' '] + h.1
}

pub open spec fn header_options(hs: Seq<(Seq<char>, Seq<char>)>) -> Seq<char>
    decreases hs.len(),
{
    if hs.len() == 0 {
        Seq::empty()
    } else {
        header_options(hs.drop_last()) + option_lead(header_flag()) + shell_quoted(
            header_arg(hs.last()),
        )
    }
}

/// Everything after the word `curl`.
pub open spec fn generated_args(
    m: HttpMethod,
    url: Seq<char>,
    hs: Seq<(Seq<char>, Seq<char>)>,
    body: Seq<char>,
) -> Seq<char> {
    seq![' ', '-', 'X', ' '] + method_name(m) + seq![' '] + shell_quoted(url) + header_options(hs)
        + if body.len() > 0 {
        option_lead(data_flag()) + shell_quoted(body)
    } else {
        Seq::empty()
    }
}

pub open spec fn generate_spec(
    m: HttpMethod,
    url: Seq<char>,
    hs: Seq<(Seq<char>, Seq<char>)>,
    body: Seq<char>,
) -> Seq<char> {
    seq!['c', 'u', 'r', 'l'] + generated_args(m, url, hs, body)
}

/// A copy-pasteable cURL command (variables already substituted).
pub fn generate(method: HttpMethod, url: &str, headers: &HeaderMap, body: &str) -> (r: String)
    ensures
        r@ == generate_spec(method, url@, headers@, body@),
{
    let mut out = chars_of("curl -X ");
    append_str(&mut out, method.as_str());
    out.push(' ');
    let qu = shell_quote(url);
    append(&mut out, &qu);
    proof {
        reveal_strlit("curl -X ");
        assert(out@ =~= seq!['c', 'u', 'r', 'l'] + seq![' ', '-', 'X', ' '] + method_name(method)
            + seq![' '] + shell_quoted(url@));
    }
    let ghost head = out@;
    let entries = headers.entries();
    let ghost hs = headers@;
    let mut i: usize = 0;
    assert(hs.take(0) =~= Seq::<(Seq<char>, Seq<char>)>::empty());
    while i < entries.len()
        invariant
            i <= entries@.len(),
            entries_view(entries@) == hs,
            out@ == head + header_options(hs.take(i as int)),
        decreases entries@.len() - i,
    {
        let (k, v) = &entries[i];
        append_str(&mut out, " \\\n  -H ");
        let mut kv = chars_of(k.as_str());
        append_str(&mut kv, ": ");
        append_str(&mut kv, v.as_str());
        let q = shell_quote(string_of(&kv).as_str());
        append(&mut out, &q);
        proof {
            reveal_strlit(" \\\n  -H ");
            reveal_strlit(": ");
            assert(hs[i as int] == (k@, v@));
            assert(kv@ =~= header_arg(hs[i as int]));
            assert(hs.take(i + 1).drop_last() =~= hs.take(i as int));
            assert(hs.take(i + 1).last() == hs[i as int]);
            assert(out@ =~= head + header_options(hs.take(i + 1)));
        }
        i += 1;
    }
    assert(hs.take(entries@.len() as int) =~= hs);
    if !body.is_empty() {
        append_str(&mut out, " \\\n  -d ");
        let qb = shell_quote(body);
        append(&mut out, &qb);
        proof {
            reveal_strlit(" \\\n  -d ");
        }
    }
    proof {
        assert(out@ =~= generate_spec(method, url@, headers@, body@));
    }
    string_of(&out)
}


// ---------------------------------------------------------------------------
// Export then import gives the request back
// ---------------------------------------------------------------------------

/// Characters the tokenizer treats specially outside quotes.
pub open spec fn is_special(c: char) -> bool {
    c == '\'' || c == '"' || c == '\\' || is_blank(c)
}

proof fn lemma_run_plain(s: Seq<char>, cur: Seq<char>, t: Seq<Seq<char>>)
    requires
        forall|i: int| 0 <= i < s.len() ==> !is_special(#[trigger] s[i]),
    ensures
        run(s, mk(None, false, cur, t)) == mk(None, false, cur + s, t),
    decreases s.len(),
{
    if s.len() == 0 {
        assert(cur + s =~= cur);
    } else {
        let s0 = s.drop_last();
        assert(s0 + seq![s.last()] =~= s);
        lemma_run_concat(s0, seq![s.last()], mk(None, false, cur, t));
        assert forall|i: int| 0 <= i < s0.len() implies !is_special(#[trigger] s0[i]) by {
            assert(s0[i] == s[i]);
        }
        lemma_run_plain(s0, cur, t);
        lemma_run_one(s.last(), mk(None, false, cur + s0, t));
        assert((cur + s0).push(s.last()) =~= cur + s);
    }
}

proof fn lemma_run_quote_body(s: Seq<char>, cur: Seq<char>, t: Seq<Seq<char>>)
    ensures
        run(quote_body(s), mk(Some('\''), false, cur, t)) == mk(Some('\''), false, cur + s, t),
    decreases s.len(),
{
    if s.len() == 0 {
        assert(cur + s =~= cur);
    } else {
        let s0 = s.drop_last();
        let c = s.last();
        lemma_run_concat(quote_body(s0), quote_piece(c), mk(Some('\''), false, cur, t));
        lemma_run_quote_body(s0, cur, t);
        let st = mk(Some('\''), false, cur + s0, t);
        if c == '\'' {
            let p = quote_piece(c);
            assert(p =~= seq!['\''] + seq!['\\'] + seq!['\''] + seq!['\'']);
            let st1 = tok_step(st, '\'');
            let st2 = tok_step(st1, '\\');
            let st3 = tok_step(st2, '\'');
            let st4 = tok_step(st3, '\'');
            lemma_run_concat(seq!['\''] + seq!['\\'] + seq!['\''], seq!['\''], st);
            lemma_run_concat(seq!['\''] + seq!['\\'], seq!['\''], st);
            lemma_run_concat(seq!['\''], seq!['\\'], st);
            lemma_run_one('\'', st);
            lemma_run_one('\\', st1);
            lemma_run_one('\'', st2);
            lemma_run_one('\'', st3);
            assert(st4 == mk(Some('\''), false, (cur + s0).push('\''), t));
        } else {
            lemma_run_one(c, st);
        }
        assert((cur + s0).push(c) =~= cur + s);
    }
}

proof fn lemma_run_shell_quoted(s: Seq<char>, cur: Seq<char>, t: Seq<Seq<char>>)
    ensures
        run(shell_quoted(s), mk(None, false, cur, t)) == mk(None, false, cur + s, t),
{
    let st = mk(None, false, cur, t);
    lemma_run_concat(seq!['\''] + quote_body(s), seq!['\''], st);
    lemma_run_concat(seq!['\''], quote_body(s), st);
    lemma_run_one('\'', st);
    lemma_run_quote_body(s, cur, t);
    lemma_run_one('\'', mk(Some('\''), false, cur + s, t));
}

/// A flag written by `generate` is plain text.
pub open spec fn is_plain(s: Seq<char>) -> bool {
    s.len() > 0 && forall|i: int| 0 <= i < s.len() ==> !is_special(#[trigger] s[i])
}

proof fn lemma_run_option(flag: Seq<char>, v: Seq<char>, y: Seq<char>, t: Seq<Seq<char>>)
    requires
        y.len() > 0,
        is_plain(flag),
    ensures
        run(option_lead(flag) + shell_quoted(v), mk(None, false, y, t)) == mk(
            None,
            false,
            v,
            t.push(y).push(flag),
        ),
{
    let st = mk(None, false, y, t);
    let lead = seq![' ', '\\', '\n', ' ', ' '];
    lemma_run_concat(option_lead(flag), shell_quoted(v), st);
    lemma_run_concat(lead + flag, seq![' '], st);
    lemma_run_concat(lead, flag, st);
    let s1 = tok_step(st, ' ');
    let s2 = tok_step(s1, '\\');
    let s3 = tok_step(s2, '\n');
    let s4 = tok_step(s3, ' ');
    let s5 = tok_step(s4, ' ');
    assert(lead =~= seq![' '] + seq!['\\'] + seq!['\n'] + seq![' '] + seq![' ']);
    lemma_run_concat(seq![' '] + seq!['\\'] + seq!['\n'] + seq![' '], seq![' '], st);
    lemma_run_concat(seq![' '] + seq!['\\'] + seq!['\n'], seq![' '], st);
    lemma_run_concat(seq![' '] + seq!['\\'], seq!['\n'], st);
    lemma_run_concat(seq![' '], seq!['\\'], st);
    lemma_run_one(' ', st);
    lemma_run_one('\\', s1);
    lemma_run_one('\n', s2);
    lemma_run_one(' ', s3);
    lemma_run_one(' ', s4);
    assert(s5 == mk(None, false, Seq::empty(), t.push(y)));
    lemma_run_plain(flag, Seq::empty(), t.push(y));
    assert(Seq::<char>::empty() + flag =~= flag);
    lemma_run_one(' ', mk(None, false, flag, t.push(y)));
    lemma_run_shell_quoted(v, Seq::empty(), t.push(y).push(flag));
    assert(Seq::<char>::empty() + v =~= v);
}

/// The arguments `generate` writes for the headers.
pub open spec fn header_tokens(hs: Seq<(Seq<char>, Seq<char>)>) -> Seq<Seq<char>>
    decreases hs.len(),
{
    if hs.len() == 0 {
        Seq::empty()
    } else {
        header_tokens(hs.drop_last()) + seq![header_flag(), header_arg(hs.last())]
    }
}

proof fn lemma_run_headers(hs: Seq<(Seq<char>, Seq<char>)>, x: Seq<char>, t: Seq<Seq<char>>)
    requires
        x.len() > 0,
    ensures
        ({
            let l = seq![x] + header_tokens(hs);
            run(header_options(hs), mk(None, false, x, t)) == mk(
                None,
                false,
                l.last(),
                t + l.drop_last(),
            )
        }),
    decreases hs.len(),
{
    let l = seq![x] + header_tokens(hs);
    if hs.len() == 0 {
        assert(l =~= seq![x]);
        assert(t + l.drop_last() =~= t);
    } else {
        let h0 = hs.drop_last();
        let l0 = seq![x] + header_tokens(h0);
        lemma_run_headers(h0, x, t);
        let st0 = mk(None, false, l0.last(), t + l0.drop_last());
        assert(l0.last().len() > 0) by {
            if h0.len() > 0 {
                assert(l0.last() == header_arg(h0.last()));
            }
        }
        assert(header_options(hs) =~= header_options(h0) + (option_lead(header_flag())
            + shell_quoted(header_arg(hs.last()))));
        lemma_run_concat(
            header_options(h0),
            option_lead(header_flag()) + shell_quoted(header_arg(hs.last())),
            mk(None, false, x, t),
        );
        lemma_run_option(header_flag(), header_arg(hs.last()), l0.last(), t + l0.drop_last());
        assert(l =~= l0 + seq![header_flag(), header_arg(hs.last())]);
        assert((t + l0.drop_last()).push(l0.last()).push(header_flag()) =~= t + l.drop_last());
    }
}

pub open spec fn body_tokens(body: Seq<char>) -> Seq<Seq<char>> {
    if body.len() > 0 {
        seq![data_flag(), body]
    } else {
        Seq::empty()
    }
}

proof fn lemma_method_name_plain(m: HttpMethod)
    ensures
        is_plain(method_name(m)),
{
    reveal_strlit("GET");
    reveal_strlit("POST");
    reveal_strlit("PUT");
    reveal_strlit("PATCH");
    reveal_strlit("DELETE");
    reveal_strlit("HEAD");
    reveal_strlit("OPTIONS");
    reveal_strlit("CONNECT");
    reveal_strlit("TRACE");
    assert forall|i: int| 0 <= i < method_name(m).len() implies !is_special(
        #[trigger] method_name(m)[i],
    ) by {
        assert('A' <= method_name(m)[i] <= 'Z');
    }
}

proof fn lemma_tokenize_generated(
    m: HttpMethod,
    url: Seq<char>,
    hs: Seq<(Seq<char>, Seq<char>)>,
    body: Seq<char>,
)
    requires
        url.len() > 0,
    ensures
        tokenize_spec(generated_args(m, url, hs, body)) == seq![seq!['-', 'X'], method_name(m), url]
            + header_tokens(hs) + body_tokens(body),
{
    let name = method_name(m);
    lemma_method_name_plain(m);
    let a1 = seq![' ', '-', 'X', ' '];
    let a2 = a1 + name + seq![' '];
    let a3 = a2 + shell_quoted(url);
    let a4 = a3 + header_options(hs);
    let d = if body.len() > 0 {
        option_lead(data_flag()) + shell_quoted(body)
    } else {
        Seq::empty()
    };
    assert(generated_args(m, url, hs, body) =~= a4 + d);
    let init = tok_init();
    // " -X "
    let s1 = tok_step(init, ' ');
    let s2 = tok_step(s1, '-');
    let s3 = tok_step(s2, 'X');
    let s4 = tok_step(s3, ' ');
    assert(a1 =~= seq![' '] + seq!['-'] + seq!['X'] + seq![' ']);
    lemma_run_concat(seq![' '] + seq!['-'] + seq!['X'], seq![' '], init);
    lemma_run_concat(seq![' '] + seq!['-'], seq!['X'], init);
    lemma_run_concat(seq![' '], seq!['-'], init);
    lemma_run_one(' ', init);
    lemma_run_one('-', s1);
    lemma_run_one('X', s2);
    lemma_run_one(' ', s3);
    assert(s2.cur =~= seq!['-']);
    assert(s3.cur =~= seq!['-', 'X']);
    let t1 = seq![seq!['-', 'X']];
    assert(s4 == mk(None, false, Seq::empty(), t1));
    // method name and the space after it
    lemma_run_concat(a1, name, init);
    lemma_run_plain(name, Seq::empty(), t1);
    assert(Seq::<char>::empty() + name =~= name);
    lemma_run_concat(a1 + name, seq![' '], init);
    lemma_run_one(' ', mk(None, false, name, t1));
    let t2 = t1.push(name);
    // the URL
    lemma_run_concat(a2, shell_quoted(url), init);
    lemma_run_shell_quoted(url, Seq::empty(), t2);
    assert(Seq::<char>::empty() + url =~= url);
    // the headers
    lemma_run_concat(a3, header_options(hs), init);
    lemma_run_headers(hs, url, t2);
    let l = seq![url] + header_tokens(hs);
    let st4 = mk(None, false, l.last(), t2 + l.drop_last());
    assert(l.last().len() > 0) by {
        if hs.len() > 0 {
            assert(l.last() == header_arg(hs.last()));
        }
    }
    lemma_run_concat(a4, d, init);
    if body.len() > 0 {
        assert(is_plain(data_flag()));
        lemma_run_option(data_flag(), body, l.last(), t2 + l.drop_last());
        assert(tokenize_spec(a4 + d) =~= (t2 + l.drop_last()).push(l.last()).push(data_flag()).push(
            body,
        ));
        assert((t2 + l.drop_last()).push(l.last()).push(data_flag()).push(body) =~= seq![
            seq!['-', 'X'],
            name,
            url,
        ] + header_tokens(hs) + body_tokens(body));
    } else {
        assert(run(d, st4) == st4);
        assert((t2 + l.drop_last()).push(l.last()) =~= seq![seq!['-', 'X'], name, url]
            + header_tokens(hs) + body_tokens(body));
    }
}

/// Every flag the parser knows starts with `-`.
proof fn lemma_flags_start_with_dash(t: Seq<char>)
    requires
        takes_arg(t) || t == "-I"@ || t == "--head"@ || t == "-G"@ || t == "--get"@,
    ensures
        t.len() > 0 && t[0] == '-',
{
    reveal_strlit("-X");
    reveal_strlit("--request");
    reveal_strlit("-H");
    reveal_strlit("--header");
    reveal_strlit("-d");
    reveal_strlit("--data");
    reveal_strlit("--data-raw");
    reveal_strlit("--data-binary");
    reveal_strlit("--json");
    reveal_strlit("-u");
    reveal_strlit("--user");
    reveal_strlit("-A");
    reveal_strlit("--user-agent");
    reveal_strlit("-b");
    reveal_strlit("--cookie");
    reveal_strlit("-o");
    reveal_strlit("--output");
    reveal_strlit("-x");
    reveal_strlit("--proxy");
    reveal_strlit("-c");
    reveal_strlit("--cookie-jar");
    reveal_strlit("--connect-timeout");
    reveal_strlit("--max-time");
    reveal_strlit("-m");
    reveal_strlit("-w");
    reveal_strlit("--write-out");
    reveal_strlit("--cacert");
    reveal_strlit("--cert");
    reveal_strlit("--key");
    reveal_strlit("-e");
    reveal_strlit("--referer");
    reveal_strlit("-I");
    reveal_strlit("--head");
    reveal_strlit("-G");
    reveal_strlit("--get");
}

/// A header `generate` writes can be read back by `-H`.
pub open spec fn header_roundtrips(h: (Seq<char>, Seq<char>)) -> bool {
    &&& forall|j: int| 0 <= j < h.0.len() ==> #[trigger] h.0[j] != ':'
    &&& is_trimmed(h.0)
    &&& is_trimmed(h.1)
}

pub open spec fn with_headers(r: CurlSpec, hs: Seq<(Seq<char>, Seq<char>)>) -> CurlSpec {
    CurlSpec { method: r.method, url: r.url, headers: r.headers + hs, body: r.body }
}

proof fn lemma_split_header_arg(h: (Seq<char>, Seq<char>))
    requires
        header_roundtrips(h),
    ensures
        split_once(header_arg(h), seq![':']) == Some((h.0, seq![' '] + h.1)),
        trim(h.0) == h.0,
        trim(seq![' '] + h.1) == h.1,
{
    let a = header_arg(h);
    let k = h.0.len() as int;
    assert forall|j: int| 0 <= j < k implies !matches_at(a, seq![':'], j) by {
        assert(a[j] == h.0[j]);
        if matches_at(a, seq![':'], j) {
            assert(a.subrange(j, j + 1)[0] == a[j]);
        }
    }
    lemma_find_from_skip(a, seq![':'], 0, k);
    assert(a.subrange(k, k + 1) =~= seq![':']);
    assert(find(a, seq![':']) == Some(k));
    assert(a.take(k) =~= h.0);
    assert(a.skip(k + 1) =~= seq![' '] + h.1);
    lemma_trim_trimmed(h.0);
    lemma_trim_trimmed(h.1);
    assert((seq![' '] + h.1).drop_first() =~= h.1);
    assert(trim_start(seq![' '] + h.1) == trim_start(h.1));
}

proof fn lemma_parse_headers(hs: Seq<(Seq<char>, Seq<char>)>, rest: Seq<Seq<char>>, r: CurlSpec)
    requires
        forall|i: int| 0 <= i < hs.len() ==> header_roundtrips(#[trigger] hs[i]),
    ensures
        parse_args(header_tokens(hs) + rest, r) == parse_args(rest, with_headers(r, hs)),
    decreases hs.len(),
{
    reveal_strlit("-X");
    reveal_strlit("--request");
    reveal_strlit("-H");
    if hs.len() == 0 {
        assert(header_tokens(hs) + rest =~= rest);
        assert(r.headers + hs =~= r.headers);
    } else {
        let h0 = hs.drop_last();
        let h = hs.last();
        let rest2 = seq![header_flag(), header_arg(h)] + rest;
        assert(header_tokens(hs) + rest =~= header_tokens(h0) + rest2);
        assert forall|i: int| 0 <= i < h0.len() implies header_roundtrips(#[trigger] h0[i]) by {
            assert(h0[i] == hs[i]);
        }
        lemma_parse_headers(h0, rest2, r);
        let r0 = with_headers(r, h0);
        assert(header_flag() == "-H"@);
        assert(rest2[0] == header_flag());
        assert(rest2.drop_first()[0] == header_arg(h));
        assert(rest2.drop_first().drop_first() =~= rest);
        assert(header_roundtrips(hs[hs.len() - 1]));
        lemma_split_header_arg(h);
        assert(apply_flag(header_flag(), header_arg(h), r0) == with_header(r0, h.0, h.1));
        assert((r.headers + h0).push((h.0, h.1)) =~= r.headers + hs);
        assert(with_header(r0, h.0, h.1) == with_headers(r, hs));
    }
}

proof fn lemma_generated_command(
    m: HttpMethod,
    url: Seq<char>,
    hs: Seq<(Seq<char>, Seq<char>)>,
    body: Seq<char>,
)
    ensures
        command_args(generate_spec(m, url, hs, body)) == generated_args(m, url, hs, body),
{
    let g = generate_spec(m, url, hs, body);
    let args = generated_args(m, url, hs, body);
    reveal_strlit("curl");
    assert(g[0] == 'c');
    assert(g.last() == '\'') by {
        let a3 = seq![' ', '-', 'X', ' '] + method_name(m) + seq![' '] + shell_quoted(url);
        if body.len() > 0 {
            assert(g =~= seq!['c', 'u', 'r', 'l'] + a3 + header_options(hs) + (option_lead(
                data_flag(),
            ) + shell_quoted(body)));
        } else if hs.len() > 0 {
            assert(g =~= seq!['c', 'u', 'r', 'l'] + a3 + header_options(hs.drop_last()) + (
            option_lead(header_flag()) + shell_quoted(header_arg(hs.last()))));
        } else {
            assert(header_options(hs) =~= Seq::<char>::empty());
            assert(g =~= seq!['c', 'u', 'r', 'l'] + a3);
        }
    }
    lemma_trim_trimmed(g);
    assert(g.take(4) =~= "curl"@);
    assert(g.skip(4) =~= args);
}

/// The request read from the arguments `generate` writes.
pub open spec fn generated_request(
    m: HttpMethod,
    url: Seq<char>,
    hs: Seq<(Seq<char>, Seq<char>)>,
    body: Seq<char>,
) -> CurlSpec {
    CurlSpec {
        method: if m == HttpMethod::GET && body.len() > 0 {
            HttpMethod::POST
        } else {
            m
        },
        url,
        headers: hs,
        body: if body.len() > 0 {
            Some(body)
        } else {
            None
        },
    }
}

proof fn lemma_parse_body(body: Seq<char>, r: CurlSpec)
    ensures
        parse_args(body_tokens(body), r) == if body.len() > 0 {
            CurlSpec {
                method: if r.method == HttpMethod::GET {
                    HttpMethod::POST
                } else {
                    r.method
                },
                url: r.url,
                headers: r.headers,
                body: Some(body),
            }
        } else {
            r
        },
{
    if body.len() > 0 {
        reveal_strlit("-d");
        reveal_strlit("-X");
        reveal_strlit("-H");
        reveal_strlit("--header");
        reveal_strlit("--request");
        reveal_strlit("--json");
        let bt = body_tokens(body);
        assert(data_flag() == "-d"@);
        assert(bt[0] == "-d"@);
        assert(takes_arg(bt[0]));
        assert(bt.drop_first()[0] == body);
        assert(bt.drop_first().drop_first() =~= Seq::<Seq<char>>::empty());
        assert(parse_args(bt, r) == parse_args(
            bt.drop_first().drop_first(),
            apply_flag(bt[0], body, r),
        ));
    } else {
        assert(body_tokens(body) =~= Seq::<Seq<char>>::empty());
    }
}

proof fn lemma_parse_generated_tokens(
    m: HttpMethod,
    url: Seq<char>,
    hs: Seq<(Seq<char>, Seq<char>)>,
    body: Seq<char>,
)
    requires
        url.len() > 0,
        url[0] != '-',
        forall|i: int| 0 <= i < hs.len() ==> header_roundtrips(#[trigger] hs[i]),
    ensures
        parse_args(
            seq![seq!['-', 'X'], method_name(m), url] + header_tokens(hs) + body_tokens(body),
            init_req(),
        ) == generated_request(m, url, hs, body),
{
    let name = method_name(m);
    let toks = seq![seq!['-', 'X'], name, url] + header_tokens(hs) + body_tokens(body);
    reveal_strlit("-X");
    reveal_strlit("-");
    assert(toks[0] == "-X"@);
    assert(takes_arg(toks[0]));
    law_method_parse_roundtrip(m, name);
    let r1 = with_method(init_req(), m);
    assert(toks.drop_first()[0] == name);
    assert(apply_flag(toks[0], name, init_req()) == r1);
    let t2 = toks.drop_first().drop_first();
    assert(t2 =~= seq![url] + header_tokens(hs) + body_tokens(body));
    assert(parse_args(toks, init_req()) == parse_args(t2, r1));
    assert(!takes_arg(url) && !(url == "-I"@ || url == "--head"@ || url == "-G"@ || url
        == "--get"@)) by {
        if takes_arg(url) || url == "-I"@ || url == "--head"@ || url == "-G"@ || url == "--get"@ {
            lemma_flags_start_with_dash(url);
        }
    }
    assert(!starts_with(url, "-"@)) by {
        assert(url.take(1)[0] == url[0]);
    }
    let r2 = CurlSpec { method: m, url, headers: Seq::empty(), body: None };
    assert(apply_bare(url, r1) == r2);
    assert(t2[0] == url);
    let t3 = t2.drop_first();
    assert(t3 =~= header_tokens(hs) + body_tokens(body));
    assert(parse_args(t2, r1) == parse_args(t3, r2));
    lemma_parse_headers(hs, body_tokens(body), r2);
    let r3 = with_headers(r2, hs);
    assert(Seq::<(Seq<char>, Seq<char>)>::empty() + hs =~= hs);
    lemma_parse_body(body, r3);
}

/// Law: importing an exported command gives the request back. The URL must
/// not be empty or start with `-`, and header names must hold no `:` and
/// names and values no whitespace at their ends. A body makes a GET a POST,
/// as `curl -d` does.
pub proof fn law_generate_parse_roundtrip(
    m: HttpMethod,
    url: Seq<char>,
    hs: Seq<(Seq<char>, Seq<char>)>,
    body: Seq<char>,
)
    requires
        url.len() > 0,
        url[0] != '-',
        forall|i: int| 0 <= i < hs.len() ==> header_roundtrips(#[trigger] hs[i]),
    ensures
        parse_spec(generate_spec(m, url, hs, body)) == generated_request(m, url, hs, body),
{
    lemma_generated_command(m, url, hs, body);
    lemma_tokenize_generated(m, url, hs, body);
    lemma_parse_generated_tokens(m, url, hs, body);
}

} // verus!
