//! Importing Postman (v2.1) and Insomnia exports into a workspace folder.
//!
//! Reading the export and writing files is the application's part; the
//! library decides the file and folder names, the request each entry
//! becomes, the environment files' content, and the order of the steps.
use crate::kv::{lemma_insert_pos_unique, map_of_pairs, url_encode, url_encode_spec};
use crate::model::{is_insert_pos, map_insert, parse_method, HeaderMap, HttpMethod, RequestFile};
use crate::text::{
    append, append_str, chars_of, join, join_exec, lowercase, string_of, to_lowercase,
};
use vstd::prelude::*;

verus! {

// ---------------------------------------------------------------------------
// File names
// ---------------------------------------------------------------------------

/// Characters that are invalid in a file name on some system, and the space.
pub open spec fn is_unsafe_char(c: char) -> bool {
    c == ' ' || c == '/' || c == '\\' || c == ':' || c == '*' || c == '?' || c == '"' || c == '<'
        || c == '>' || c == '|'
}

/// Unsafe characters become one dash, never two in a row nor a leading one.
pub open spec fn dash_runs(s: Seq<char>) -> Seq<char>
    decreases s.len(),
{
    if s.len() == 0 {
        seq![]
    } else {
        let out = dash_runs(s.drop_last());
        if is_unsafe_char(s.last()) {
            if out.len() > 0 && out.last() != '-' {
                out.push('-')
            } else {
                out
            }
        } else {
            out.push(s.last())
        }
    }
}

/// `s` without the copies of `c` at its end.
pub open spec fn trim_end_char(s: Seq<char>, c: char) -> Seq<char>
    decreases s.len(),
{
    if s.len() > 0 && s.last() == c {
        trim_end_char(s.drop_last(), c)
    } else {
        s
    }
}

/// `s` without the copies of `c` at its start.
pub open spec fn trim_start_char(s: Seq<char>, c: char) -> Seq<char>
    decreases s.len(),
{
    if s.len() > 0 && s[0] == c {
        trim_start_char(s.drop_first(), c)
    } else {
        s
    }
}

/// The file name for a lower-case display name.
pub open spec fn sanitized(lower: Seq<char>) -> Seq<char> {
    let t = trim_start_char(trim_end_char(dash_runs(lower), '-'), '.');
    if t.len() == 0 {
        "untitled"@
    } else {
        t
    }
}

/// A name that stays a single entry inside its folder: not empty, no
/// separator or other unsafe character, and not starting with a dot (so
/// neither `.` nor `..` nor hidden).
pub open spec fn safe_file_name(s: Seq<char>) -> bool {
    &&& s.len() > 0
    &&& s[0] != '.'
    &&& forall|i: int| 0 <= i < s.len() ==> !is_unsafe_char(#[trigger] s[i])
}

pub open spec fn no_unsafe(s: Seq<char>) -> bool {
    forall|i: int| 0 <= i < s.len() ==> !is_unsafe_char(#[trigger] s[i])
}

proof fn lemma_dash_runs_safe(s: Seq<char>)
    ensures
        no_unsafe(dash_runs(s)),
    decreases s.len(),
{
    if s.len() > 0 {
        lemma_dash_runs_safe(s.drop_last());
        let out = dash_runs(s.drop_last());
        assert(no_unsafe(out.push('-')));
        assert(!is_unsafe_char(s.last()) ==> no_unsafe(out.push(s.last())));
    }
}

proof fn lemma_trim_end_char_sub(s: Seq<char>, c: char)
    ensures
        trim_end_char(s, c) == s.take(trim_end_char(s, c).len() as int),
        trim_end_char(s, c).len() <= s.len(),
    decreases s.len(),
{
    if s.len() > 0 && s.last() == c {
        lemma_trim_end_char_sub(s.drop_last(), c);
        assert(s.drop_last().take(trim_end_char(s, c).len() as int) =~= s.take(
            trim_end_char(s, c).len() as int,
        ));
    } else {
        assert(s.take(s.len() as int) =~= s);
    }
}

proof fn lemma_trim_start_char_sub(s: Seq<char>, c: char)
    ensures
        trim_start_char(s, c) == s.skip(s.len() - trim_start_char(s, c).len()),
        trim_start_char(s, c).len() <= s.len(),
        trim_start_char(s, c).len() > 0 ==> trim_start_char(s, c)[0] != c,
    decreases s.len(),
{
    if s.len() > 0 && s[0] == c {
        lemma_trim_start_char_sub(s.drop_first(), c);
        let t = trim_start_char(s, c);
        assert(s.drop_first().skip(s.drop_first().len() - t.len()) =~= s.skip(s.len() - t.len()));
    } else {
        assert(s.skip(0) =~= s);
    }
}

/// Every sanitized name is a safe file name.
pub proof fn lemma_sanitized_safe(lower: Seq<char>)
    ensures
        safe_file_name(sanitized(lower)),
{
    let d = dash_runs(lower);
    lemma_dash_runs_safe(lower);
    let e = trim_end_char(d, '-');
    lemma_trim_end_char_sub(d, '-');
    assert forall|i: int| 0 <= i < e.len() implies !is_unsafe_char(#[trigger] e[i]) by {
        assert(e[i] == d[i]);
    }
    let t = trim_start_char(e, '.');
    lemma_trim_start_char_sub(e, '.');
    assert forall|i: int| 0 <= i < t.len() implies !is_unsafe_char(#[trigger] t[i]) by {
        assert(t[i] == e[e.len() - t.len() + i]);
    }
    reveal_strlit("untitled");
}

fn is_unsafe(c: char) -> (r: bool)
    ensures
        r == is_unsafe_char(c),
{
    c == ' ' || c == '/' || c == '\\' || c == ':' || c == '*' || c == '?' || c == '"' || c == '<'
        || c == '>' || c == '|'
}

/// The file name for a lower-case display name.
pub fn sanitize_lowered(lower: &[char]) -> (r: String)
    ensures
        r@ == sanitized(lower@),
        safe_file_name(r@),
{
    let mut out: Vec<char> = Vec::new();
    let mut i: usize = 0;
    assert(lower@.take(0) =~= Seq::<char>::empty());
    while i < lower.len()
        invariant
            i <= lower@.len(),
            out@ == dash_runs(lower@.take(i as int)),
        decreases lower@.len() - i,
    {
        let ch = lower[i];
        proof {
            assert(lower@.take(i + 1).drop_last() =~= lower@.take(i as int));
        }
        if is_unsafe(ch) {
            if out.len() > 0 && out[out.len() - 1] != '-' {
                out.push('-');
            }
        } else {
            out.push(ch);
        }
        i += 1;
    }
    assert(lower@.take(lower@.len() as int) =~= lower@);
    let ghost d = out@;
    let mut end = out.len();
    assert(d.take(end as int) =~= d);
    while end > 0 && out[end - 1] == '-'
        invariant
            end <= out@.len(),
            out@ == d,
            trim_end_char(d, '-') == trim_end_char(d.take(end as int), '-'),
        decreases end,
    {
        assert(d.take(end as int).drop_last() =~= d.take(end - 1));
        end -= 1;
    }
    let mut start: usize = 0;
    let ghost e = d.take(end as int);
    assert(e.skip(0) =~= e);
    while start < end && out[start] == '.'
        invariant
            start <= end <= out@.len(),
            out@ == d,
            e == d.take(end as int),
            trim_start_char(e, '.') == trim_start_char(e.skip(start as int), '.'),
        decreases end - start,
    {
        assert(e.skip(start as int).drop_first() =~= e.skip(start + 1));
        start += 1;
    }
    proof {
        lemma_sanitized_safe(lower@);
    }
    if start == end {
        "untitled".to_string()
    } else {
        let r = crate::text::slice_vec(&out, start, end);
        assert(r@ =~= e.skip(start as int));
        string_of(&r)
    }
}

/// Lowercase, one dash for each run of spaces and characters invalid on
/// some system, no trailing dash, no leading dot; `untitled` if nothing is
/// left.
pub fn sanitize_filename(name: &str) -> (r: String)
    ensures
        r@ == sanitized(lowercase(name@)),
        safe_file_name(r@),
{
    let cs = chars_of(name);
    let lower = to_lowercase(&cs);
    sanitize_lowered(&lower)
}

// ---------------------------------------------------------------------------
// Environment files
// ---------------------------------------------------------------------------

pub open spec fn is_ascii_alnum(c: char) -> bool {
    ('a' <= c && c <= 'z') || ('A' <= c && c <= 'Z') || ('0' <= c && c <= '9')
}

pub open spec fn key_char(c: char) -> char {
    if is_ascii_alnum(c) || c == '_' {
        c
    } else {
        '_'
    }
}

/// Letters, digits and `_` kept, anything else `_`; a leading digit gets a
/// `_` before it.
pub open spec fn env_key_spec(key: Seq<char>) -> Seq<char> {
    let k = key.map_values(|c: char| key_char(c));
    if k.len() > 0 && '0' <= k[0] && k[0] <= '9' {
        seq!['_'] + k
    } else {
        k
    }
}

pub fn sanitize_env_key(key: &str) -> (r: String)
    ensures
        r@ == env_key_spec(key@),
{
    let cs = chars_of(key);
    let mut k: Vec<char> = Vec::new();
    let mut i: usize = 0;
    while i < cs.len()
        invariant
            i <= cs@.len(),
            k@ == cs@.take(i as int).map_values(|c: char| key_char(c)),
        decreases cs@.len() - i,
    {
        let c = cs[i];
        let kc = if ('a' <= c && c <= 'z') || ('A' <= c && c <= 'Z') || ('0' <= c && c <= '9')
            || c == '_' {
            c
        } else {
            '_'
        };
        k.push(kc);
        i += 1;
        assert(k@ =~= cs@.take(i as int).map_values(|c: char| key_char(c)));
    }
    assert(cs@.take(cs@.len() as int) =~= cs@);
    if k.len() > 0 && '0' <= k[0] && k[0] <= '9' {
        let mut out = vec!['_'];
        append(&mut out, &k);
        assert(out@ =~= seq!['_'] + k@);
        string_of(&out)
    } else {
        string_of(&k)
    }
}

pub open spec fn needs_quotes(c: char) -> bool {
    c == '=' || c == '\n' || c == '"' || c == ' '
}

/// Each `"` behind a backslash.
pub open spec fn escape_quotes(v: Seq<char>) -> Seq<char>
    decreases v.len(),
{
    if v.len() == 0 {
        seq![]
    } else {
        escape_quotes(v.drop_last()) + if v.last() == '"' {
            seq!['\\', '"']
        } else {
            seq![v.last()]
        }
    }
}

/// A value that holds `=`, a newline, a quote or a space is written quoted,
/// with its quotes escaped.
pub open spec fn env_value_spec(v: Seq<char>) -> Seq<char> {
    if exists|i: int| 0 <= i < v.len() && needs_quotes(#[trigger] v[i]) {
        seq!['"'] + escape_quotes(v) + seq!['"']
    } else {
        v
    }
}

pub fn escape_env_value(value: &str) -> (r: String)
    ensures
        r@ == env_value_spec(value@),
{
    let cs = chars_of(value);
    let mut quote = false;
    let mut esc: Vec<char> = Vec::new();
    let mut i: usize = 0;
    assert(cs@.take(0) =~= Seq::<char>::empty());
    while i < cs.len()
        invariant
            i <= cs@.len(),
            esc@ == escape_quotes(cs@.take(i as int)),
            quote == exists|j: int| 0 <= j < i && needs_quotes(#[trigger] cs@[j]),
        decreases cs@.len() - i,
    {
        let c = cs[i];
        proof {
            assert(cs@.take(i + 1).drop_last() =~= cs@.take(i as int));
        }
        if c == '=' || c == '\n' || c == '"' || c == ' ' {
            quote = true;
        }
        if c == '"' {
            esc.push('\\');
            esc.push('"');
        } else {
            esc.push(c);
        }
        proof {
            assert(esc@ =~= escape_quotes(cs@.take(i + 1)));
            if quote {
                if needs_quotes(c) {
                    assert(needs_quotes(cs@[i as int]));
                }
            } else {
                assert forall|j: int| 0 <= j < i + 1 implies !needs_quotes(#[trigger] cs@[j]) by {
                }
            }
        }
        i += 1;
    }
    assert(cs@.take(cs@.len() as int) =~= cs@);
    if quote {
        let mut out = vec!['"'];
        append(&mut out, &esc);
        out.push('"');
        assert(out@ =~= seq!['"'] + esc@ + seq!['"']);
        string_of(&out)
    } else {
        value.to_string()
    }
}

pub open spec fn env_line(kv: (Seq<char>, Seq<char>)) -> Seq<char> {
    env_key_spec(kv.0) + seq!['='] + env_value_spec(kv.1) + seq!['\n']
}

/// The lines of an environment file, in order.
pub open spec fn env_content_spec(vars: Seq<(Seq<char>, Seq<char>)>) -> Seq<char>
    decreases vars.len(),
{
    if vars.len() == 0 {
        seq![]
    } else {
        env_content_spec(vars.drop_last()) + env_line(vars.last())
    }
}

/// One `KEY=value` line per variable.
pub fn env_file_content(vars: &[(String, String)]) -> (r: String)
    ensures
        r@ == env_content_spec(crate::model::entries_view(vars@)),
{
    let ghost vs = crate::model::entries_view(vars@);
    let mut out: Vec<char> = Vec::new();
    let mut i: usize = 0;
    assert(vs.take(0) =~= Seq::<(Seq<char>, Seq<char>)>::empty());
    while i < vars.len()
        invariant
            i <= vars@.len(),
            vs == crate::model::entries_view(vars@),
            out@ == env_content_spec(vs.take(i as int)),
        decreases vars@.len() - i,
    {
        let ghost before = out@;
        append_str(&mut out, sanitize_env_key(vars[i].0.as_str()).as_str());
        out.push('=');
        append_str(&mut out, escape_env_value(vars[i].1.as_str()).as_str());
        out.push('\n');
        proof {
            assert(vs.take(i + 1).drop_last() =~= vs.take(i as int));
            assert(vs.take(i + 1).last() == vs[i as int]);
            assert(out@ =~= before + env_line(vs[i as int]));
        }
        i += 1;
    }
    assert(vs.take(vs.len() as int) =~= vs);
    string_of(&out)
}

// ---------------------------------------------------------------------------
// Requests and the steps of an import
// ---------------------------------------------------------------------------

/// The request stored for an imported entry: an unknown method becomes GET,
/// and later headers of the same name win.
pub fn request_file(method: &str, url: String, headers: &[(String, String)], body: String) -> (r:
    RequestFile)
    ensures
        r.method == (match parse_method(method@) {
            Some(m) => m,
            None => HttpMethod::GET,
        }),
        r.url@ == url@,
        r.headers@ == map_of_pairs(crate::model::entries_view(headers@)),
        r.body@ == body@,
{
    let m = match HttpMethod::parse(method) {
        Some(m) => m,
        None => HttpMethod::GET,
    };
    let ghost ps = crate::model::entries_view(headers@);
    let mut map = HeaderMap::new();
    let mut i: usize = 0;
    assert(ps.take(0) =~= Seq::<(Seq<char>, Seq<char>)>::empty());
    while i < headers.len()
        invariant
            i <= headers@.len(),
            ps == crate::model::entries_view(headers@),
            map@ == map_of_pairs(ps.take(i as int)),
        decreases headers@.len() - i,
    {
        let k = headers[i].0.clone();
        let v = headers[i].1.clone();
        let ghost m0 = map@;
        map.insert(k, v);
        proof {
            let p = choose|p: int|
                is_insert_pos(m0, ps[i as int].0, p) && map@ == map_insert(
                    m0,
                    ps[i as int].0,
                    ps[i as int].1,
                    p,
                );
            lemma_insert_pos_unique(m0, ps[i as int].0, p);
            assert(ps.take(i + 1).drop_last() =~= ps.take(i as int));
            assert(ps.take(i + 1).last() == ps[i as int]);
        }
        i += 1;
    }
    assert(ps.take(ps.len() as int) =~= ps);
    RequestFile { method: m, url, headers: map, body }
}

/// One thing an import does, in order: create a folder, write a request file
/// or write an environment file. Folders are given as the names leading to
/// them from the import's output folder.
#[derive(Debug)]
pub enum ImportStep {
    CreateDir { dir: Vec<String> },
    WriteRequest { dir: Vec<String>, file: String, request: RequestFile },
    WriteEnv { file: String, content: String },
}

/// A step as plain values.
pub enum StepView {
    Dir(Seq<Seq<char>>),
    Request(Seq<Seq<char>>, Seq<char>, HttpMethod, Seq<char>, Seq<(Seq<char>, Seq<char>)>, Seq<char>),
    Env(Seq<char>, Seq<char>),
}

pub open spec fn strs_view(v: Seq<String>) -> Seq<Seq<char>> {
    v.map_values(|s: String| s@)
}

pub open spec fn step_view(s: ImportStep) -> StepView {
    match s {
        ImportStep::CreateDir { dir } => StepView::Dir(strs_view(dir@)),
        ImportStep::WriteRequest { dir, file, request } => StepView::Request(
            strs_view(dir@),
            file@,
            request.method,
            request.url@,
            request.headers@,
            request.body@,
        ),
        ImportStep::WriteEnv { file, content } => StepView::Env(file@, content@),
    }
}

pub open spec fn steps_view(v: Seq<ImportStep>) -> Seq<StepView> {
    v.map_values(|s: ImportStep| step_view(s))
}

/// The file a request named `name` is written to.
pub open spec fn request_file_name(name: Seq<char>) -> Seq<char> {
    sanitized(lowercase(name)) + ".json"@
}

/// The step that writes a request.
pub open spec fn request_step(
    dir: Seq<Seq<char>>,
    name: Seq<char>,
    method: Seq<char>,
    url: Seq<char>,
    headers: Seq<(Seq<char>, Seq<char>)>,
    body: Seq<char>,
) -> StepView {
    StepView::Request(
        dir,
        request_file_name(name),
        match parse_method(method) {
            Some(m) => m,
            None => HttpMethod::GET,
        },
        url,
        map_of_pairs(headers),
        body,
    )
}

fn copy_strings(v: &Vec<String>) -> (r: Vec<String>)
    ensures
        strs_view(r@) == strs_view(v@),
{
    let mut out: Vec<String> = Vec::new();
    let mut i: usize = 0;
    while i < v.len()
        invariant
            i <= v@.len(),
            strs_view(out@) == strs_view(v@).take(i as int),
        decreases v@.len() - i,
    {
        let ghost before = strs_view(out@);
        let c = v[i].clone();
        assert(c@ == strs_view(v@)[i as int]);
        out.push(c);
        assert(strs_view(out@) =~= before.push(strs_view(v@)[i as int]));
        i += 1;
        assert(strs_view(out@) =~= strs_view(v@).take(i as int));
    }
    assert(strs_view(v@).take(i as int) =~= strs_view(v@));
    out
}

fn write_request_step(
    dir: &Vec<String>,
    name: &str,
    method: &str,
    url: String,
    headers: &[(String, String)],
    body: String,
) -> (r: ImportStep)
    ensures
        step_view(r) == request_step(
            strs_view(dir@),
            name@,
            method@,
            url@,
            crate::model::entries_view(headers@),
            body@,
        ),
{
    let request = request_file(method, url, headers, body);
    let mut file = chars_of(sanitize_filename(name).as_str());
    append_str(&mut file, ".json");
    ImportStep::WriteRequest { dir: copy_strings(dir), file: string_of(&file), request }
}

/// The number of request files an import writes.
pub open spec fn request_count(steps: Seq<StepView>) -> nat
    decreases steps.len(),
{
    if steps.len() == 0 {
        0
    } else {
        request_count(steps.drop_last()) + if steps.last() is Request {
            1nat
        } else {
            0nat
        }
    }
}

fn count_requests(steps: &Vec<ImportStep>) -> (r: usize)
    ensures
        r == request_count(steps_view(steps@)),
{
    let mut n: usize = 0;
    let mut i: usize = 0;
    assert(steps_view(steps@).take(0) =~= Seq::<StepView>::empty());
    while i < steps.len()
        invariant
            i <= steps@.len(),
            n <= i,
            n == request_count(steps_view(steps@).take(i as int)),
        decreases steps@.len() - i,
    {
        proof {
            assert(steps_view(steps@).take(i + 1).drop_last() =~= steps_view(steps@).take(
                i as int,
            ));
        }
        match &steps[i] {
            ImportStep::WriteRequest { .. } => {
                n += 1;
            },
            _ => {},
        }
        i += 1;
    }
    assert(steps_view(steps@).take(i as int) =~= steps_view(steps@));
    n
}

// ---------------------------------------------------------------------------
// Postman
// ---------------------------------------------------------------------------

#[derive(Debug)]
pub struct PostmanKeyValue {
    pub key: String,
    pub value: String,
    pub disabled: bool,
}

/// A request URL: a plain string, or its parts (with the raw text when the
/// export has it).
#[derive(Debug)]
pub enum PostmanUrl {
    String(String),
    Object {
        raw: Option<String>,
        protocol: Option<String>,
        host: Vec<String>,
        path: Vec<String>,
        query: Vec<PostmanKeyValue>,
    },
}

#[derive(Debug)]
pub struct PostmanBody {
    pub raw: Option<String>,
}

#[derive(Debug)]
pub struct PostmanRequest {
    pub method: String,
    pub header: Vec<PostmanKeyValue>,
    pub url: PostmanUrl,
    pub body: Option<PostmanBody>,
}

/// A request, or a folder of items.
#[derive(Debug)]
pub struct PostmanItem {
    pub name: String,
    pub item: Vec<PostmanItem>,
    pub request: Option<PostmanRequest>,
}

/// A collection: its name, items, and variables (values as text).
#[derive(Debug)]
pub struct PostmanCollection {
    pub name: String,
    pub item: Vec<PostmanItem>,
    pub variable: Vec<(String, String)>,
}

/// `/segment` for each path segment, URL-encoded.
pub open spec fn path_part(segs: Seq<Seq<char>>) -> Seq<char>
    decreases segs.len(),
{
    if segs.len() == 0 {
        seq![]
    } else {
        path_part(segs.drop_last()) + seq!['/'] + url_encode_spec(segs.last())
    }
}

/// `key=value` for each enabled query parameter, URL-encoded.
pub open spec fn query_pairs(q: Seq<PostmanKeyValue>) -> Seq<Seq<char>>
    decreases q.len(),
{
    if q.len() == 0 {
        seq![]
    } else {
        let rest = query_pairs(q.drop_last());
        if q.last().disabled {
            rest
        } else {
            rest.push(url_encode_spec(q.last().key@) + seq!['='] + url_encode_spec(q.last().value@))
        }
    }
}

/// The raw URL when present, else one rebuilt from its parts (disabled
/// parameters dropped, `https` and `localhost` by default).
pub open spec fn postman_url_spec(u: PostmanUrl) -> Seq<char> {
    match u {
        PostmanUrl::String(s) => s@,
        PostmanUrl::Object { raw: Some(r), .. } => r@,
        PostmanUrl::Object { protocol, host, path, query, .. } => {
            let proto = match protocol {
                Some(p) => p@,
                None => "https"@,
            };
            let h = if host.len() == 0 {
                "localhost"@
            } else {
                join(strs_view(host@), seq!['.'])
            };
            let qs = query_pairs(query@);
            let q = if qs.len() == 0 {
                seq![]
            } else {
                seq!['?'] + join(qs, seq!['&'])
            };
            proto + "://"@ + h + path_part(strs_view(path@)) + q
        },
    }
}

fn to_char_vecs(v: &Vec<String>) -> (r: Vec<Vec<char>>)
    ensures
        r@.map_values(|c: Vec<char>| c@) == strs_view(v@),
{
    let mut out: Vec<Vec<char>> = Vec::new();
    let mut i: usize = 0;
    while i < v.len()
        invariant
            i <= v@.len(),
            out@.map_values(|c: Vec<char>| c@) == strs_view(v@).take(i as int),
        decreases v@.len() - i,
    {
        let ghost before = out@.map_values(|c: Vec<char>| c@);
        let c = chars_of(v[i].as_str());
        assert(c@ == strs_view(v@)[i as int]);
        out.push(c);
        assert(out@.map_values(|c: Vec<char>| c@) =~= before.push(strs_view(v@)[i as int]));
        i += 1;
        assert(out@.map_values(|c: Vec<char>| c@) =~= strs_view(v@).take(i as int));
    }
    assert(strs_view(v@).take(i as int) =~= strs_view(v@));
    out
}

/// Use `raw` when present, else rebuild from parts (disabled params dropped).
pub fn postman_url(url: &PostmanUrl) -> (r: String)
    ensures
        r@ == postman_url_spec(*url),
{
    match url {
        PostmanUrl::String(s) => s.clone(),
        PostmanUrl::Object { raw: Some(raw), .. } => raw.clone(),
        PostmanUrl::Object { protocol, host, path, query, .. } => {
            let mut out = match protocol {
                Some(p) => chars_of(p.as_str()),
                None => chars_of("https"),
            };
            append_str(&mut out, "://");
            if host.len() == 0 {
                append_str(&mut out, "localhost");
            } else {
                let parts = to_char_vecs(host);
                let dot = vec!['.'];
                assert(dot@ =~= seq!['.']);
                let h = join_exec(&parts, &dot);
                append(&mut out, &h);
            }
            let ghost segs = strs_view(path@);
            let ghost base = out@;
            let mut i: usize = 0;
            assert(segs.take(0) =~= Seq::<Seq<char>>::empty());
            while i < path.len()
                invariant
                    i <= path@.len(),
                    segs == strs_view(path@),
                    out@ == base + path_part(segs.take(i as int)),
                decreases path@.len() - i,
            {
                out.push('/');
                append_str(&mut out, url_encode(path[i].as_str()).as_str());
                proof {
                    assert(segs.take(i + 1).drop_last() =~= segs.take(i as int));
                    assert(segs.take(i + 1).last() == segs[i as int]);
                }
                i += 1;
                assert(out@ =~= base + path_part(segs.take(i as int)));
            }
            assert(segs.take(i as int) =~= segs);
            let mut qs: Vec<Vec<char>> = Vec::new();
            let mut j: usize = 0;
            assert(query@.take(0) =~= Seq::<PostmanKeyValue>::empty());
            assert(qs@.map_values(|c: Vec<char>| c@) =~= Seq::<Seq<char>>::empty());
            while j < query.len()
                invariant
                    j <= query@.len(),
                    qs@.map_values(|c: Vec<char>| c@) == query_pairs(query@.take(j as int)),
                decreases query@.len() - j,
            {
                proof {
                    assert(query@.take(j + 1).drop_last() =~= query@.take(j as int));
                    assert(query@.take(j + 1).last() == query@[j as int]);
                }
                let q = &query[j];
                if !q.disabled {
                    let mut pair = chars_of(url_encode(q.key.as_str()).as_str());
                    pair.push('=');
                    append_str(&mut pair, url_encode(q.value.as_str()).as_str());
                    let ghost before = qs@.map_values(|c: Vec<char>| c@);
                    let ghost pv = pair@;
                    assert(pv =~= url_encode_spec(query@[j as int].key@) + seq!['=']
                        + url_encode_spec(query@[j as int].value@));
                    qs.push(pair);
                    assert(qs@.map_values(|c: Vec<char>| c@) =~= before.push(pv));
                }
                assert(qs@.map_values(|c: Vec<char>| c@) == query_pairs(query@.take(j + 1)));
                j += 1;
            }
            assert(query@.take(j as int) =~= query@);
            if qs.len() > 0 {
                out.push('?');
                let amp = vec!['&'];
                assert(amp@ =~= seq!['&']);
                let joined = join_exec(&qs, &amp);
                append(&mut out, &joined);
            }
            proof {
                reveal_strlit("://");
                assert(out@ =~= postman_url_spec(*url));
            }
            string_of(&out)
        },
    }
}

/// The enabled `(key, value)` pairs, in order.
pub open spec fn enabled_pairs(h: Seq<PostmanKeyValue>) -> Seq<(Seq<char>, Seq<char>)>
    decreases h.len(),
{
    if h.len() == 0 {
        seq![]
    } else {
        let rest = enabled_pairs(h.drop_last());
        if h.last().disabled {
            rest
        } else {
            rest.push((h.last().key@, h.last().value@))
        }
    }
}

pub open spec fn postman_body(b: Option<PostmanBody>) -> Seq<char> {
    match b {
        Some(PostmanBody { raw: Some(r) }) => r@,
        _ => seq![],
    }
}

/// An item's steps: a request is written into `dir`; a folder with items
/// becomes a sub-folder holding their steps; an empty folder is skipped.
pub open spec fn item_steps(item: PostmanItem, dir: Seq<Seq<char>>) -> Seq<StepView>
    decreases item,
{
    match item.request {
        Some(req) => seq![
            request_step(
                dir,
                item.name@,
                req.method@,
                postman_url_spec(req.url),
                enabled_pairs(req.header@),
                postman_body(req.body),
            ),
        ],
        None => if item.item.len() == 0 {
            seq![]
        } else {
            let sub = dir.push(sanitized(lowercase(item.name@)));
            proof {
                broadcast use vstd::std_specs::vec::axiom_vec_decreases_to_view;

                assert(decreases_to!(item => item.item));
                assert(decreases_to!(item.item => item.item@));
            }
            seq![StepView::Dir(sub)] + items_steps(item.item@, sub)
        },
    }
}

/// An imported Postman request is one step that writes it into its folder,
/// with the request's raw body as the body (empty only when it has none),
/// its method when that names one (else GET), and its enabled headers.
pub proof fn law_postman_request_step(item: PostmanItem, dir: Seq<Seq<char>>)
    requires
        item.request is Some,
    ensures
        item_steps(item, dir).len() == 1,
        item_steps(item, dir)[0] matches StepView::Request(d, f, m, u, h, b) && d == dir && f
            == request_file_name(item.name@) && b == (match item.request->Some_0.body {
            Some(pb) => match pb.raw {
                Some(r) => r@,
                None => Seq::<char>::empty(),
            },
            None => Seq::<char>::empty(),
        }) && m == (match parse_method(item.request->Some_0.method@) {
            Some(pm) => pm,
            None => HttpMethod::GET,
        }) && h == map_of_pairs(enabled_pairs(item.request->Some_0.header@)),
{
}

/// The steps of a list of items, one item after the other.
pub open spec fn items_steps(items: Seq<PostmanItem>, dir: Seq<Seq<char>>) -> Seq<StepView>
    decreases items,
{
    if items.len() == 0 {
        seq![]
    } else {
        proof {
            assert(decreases_to!(items => items[items.len() - 1]));
        }
        items_steps(items.subrange(0, items.len() - 1), dir) + item_steps(
            items[items.len() - 1],
            dir,
        )
    }
}

fn enabled_header_pairs(h: &Vec<PostmanKeyValue>) -> (r: Vec<(String, String)>)
    ensures
        crate::model::entries_view(r@) == enabled_pairs(h@),
{
    let mut out: Vec<(String, String)> = Vec::new();
    let mut i: usize = 0;
    assert(h@.take(0) =~= Seq::<PostmanKeyValue>::empty());
    assert(crate::model::entries_view(out@) =~= Seq::<(Seq<char>, Seq<char>)>::empty());
    while i < h.len()
        invariant
            i <= h@.len(),
            crate::model::entries_view(out@) == enabled_pairs(h@.take(i as int)),
        decreases h@.len() - i,
    {
        proof {
            assert(h@.take(i + 1).drop_last() =~= h@.take(i as int));
            assert(h@.take(i + 1).last() == h@[i as int]);
        }
        if !h[i].disabled {
            let ghost before = crate::model::entries_view(out@);
            let k = h[i].key.clone();
            let v = h[i].value.clone();
            out.push((k, v));
            assert(crate::model::entries_view(out@) =~= before.push((h@[i as int].key@, h@[i as int].value@)));
        }
        i += 1;
    }
    assert(h@.take(i as int) =~= h@);
    out
}

/// Appends the steps of `item`, written into `dir`.
fn plan_item(item: &PostmanItem, dir: &Vec<String>, steps: &mut Vec<ImportStep>)
    ensures
        steps_view(final(steps)@) == steps_view(old(steps)@) + item_steps(*item, strs_view(dir@)),
    decreases item,
{
    match &item.request {
        Some(req) => {
            let headers = enabled_header_pairs(&req.header);
            let body = match &req.body {
                Some(b) => match &b.raw {
                    Some(r) => r.clone(),
                    None => String::new(),
                },
                None => String::new(),
            };
            let url = postman_url(&req.url);
            let step = write_request_step(dir, item.name.as_str(), req.method.as_str(), url, &headers, body);
            let ghost before = steps_view(steps@);
            steps.push(step);
            assert(steps_view(steps@) =~= before + item_steps(*item, strs_view(dir@)));
        },
        None => {
            if item.item.len() == 0 {
                assert(steps_view(steps@) =~= steps_view(old(steps)@) + item_steps(*item, strs_view(dir@)));
                return;
            }
            let mut sub = copy_strings(dir);
            sub.push(sanitize_filename(item.name.as_str()));
            let ghost subv = strs_view(dir@).push(sanitized(lowercase(item.name@)));
            assert(strs_view(sub@) =~= subv);
            let ghost before = steps_view(steps@);
            steps.push(ImportStep::CreateDir { dir: copy_strings(&sub) });
            assert(steps_view(steps@) =~= before + seq![StepView::Dir(subv)]);
            let mut i: usize = 0;
            let ghost children = item.item@;
            assert(children.subrange(0, 0) =~= Seq::<PostmanItem>::empty());
            while i < item.item.len()
                invariant
                    i <= children.len(),
                    children == item.item@,
                    item.request is None,
                    strs_view(sub@) == subv,
                    steps_view(steps@) == before + seq![StepView::Dir(subv)] + items_steps(
                        children.subrange(0, i as int),
                        subv,
                    ),
                decreases children.len() - i,
            {
                proof {
                    broadcast use vstd::std_specs::vec::axiom_vec_index_decreases;

                    assert(decreases_to!(*item => item.item));
                    assert(decreases_to!(item.item => item.item[i as int]));
                    assert(children.subrange(0, i + 1).subrange(0, i as int) =~= children.subrange(
                        0,
                        i as int,
                    ));
                    assert(children.subrange(0, i + 1)[i as int] == children[i as int]);
                }
                let ghost mid = steps_view(steps@);
                plan_item(&item.item[i], &sub, steps);
                assert(steps_view(steps@) =~= before + seq![StepView::Dir(subv)] + items_steps(
                    children.subrange(0, i + 1),
                    subv,
                ));
                i += 1;
            }
            assert(children.subrange(0, i as int) =~= children);
        },
    }
}

/// What an import does, and how many request and environment files it
/// writes.
pub struct ImportPlan {
    pub steps: Vec<ImportStep>,
    pub requests: usize,
    pub envs: usize,
}

pub open spec fn env_count(steps: Seq<StepView>) -> nat
    decreases steps.len(),
{
    if steps.len() == 0 {
        0
    } else {
        env_count(steps.drop_last()) + if steps.last() is Env {
            1nat
        } else {
            0nat
        }
    }
}

fn count_envs(steps: &Vec<ImportStep>) -> (r: usize)
    ensures
        r == env_count(steps_view(steps@)),
{
    let mut n: usize = 0;
    let mut i: usize = 0;
    assert(steps_view(steps@).take(0) =~= Seq::<StepView>::empty());
    while i < steps.len()
        invariant
            i <= steps@.len(),
            n <= i,
            n == env_count(steps_view(steps@).take(i as int)),
        decreases steps@.len() - i,
    {
        proof {
            assert(steps_view(steps@).take(i + 1).drop_last() =~= steps_view(steps@).take(
                i as int,
            ));
        }
        match &steps[i] {
            ImportStep::WriteEnv { .. } => {
                n += 1;
            },
            _ => {},
        }
        i += 1;
    }
    assert(steps_view(steps@).take(i as int) =~= steps_view(steps@));
    n
}

/// The file an environment named `name` is written to.
pub open spec fn env_file_name(name: Seq<char>) -> Seq<char> {
    ".env."@ + sanitized(lowercase(name))
}

fn env_step(name: &str, vars: &[(String, String)]) -> (r: ImportStep)
    ensures
        step_view(r) == StepView::Env(
            env_file_name(name@),
            env_content_spec(crate::model::entries_view(vars@)),
        ),
{
    let mut file = chars_of(".env.");
    append_str(&mut file, sanitize_filename(name).as_str());
    ImportStep::WriteEnv { file: string_of(&file), content: env_file_content(vars) }
}

/// The steps of a Postman import: the collection's variables (if any) as an
/// environment file named after it, then the items from the output folder.
pub open spec fn postman_steps(c: PostmanCollection) -> Seq<StepView> {
    let env = if c.variable.len() > 0 {
        seq![
            StepView::Env(
                env_file_name(c.name@),
                env_content_spec(crate::model::entries_view(c.variable@)),
            ),
        ]
    } else {
        seq![]
    };
    env + items_steps(c.item@, seq![])
}

pub fn plan_postman(c: &PostmanCollection) -> (r: ImportPlan)
    ensures
        steps_view(r.steps@) == postman_steps(*c),
        r.requests == request_count(steps_view(r.steps@)),
        r.envs == env_count(steps_view(r.steps@)),
{
    let mut steps: Vec<ImportStep> = Vec::new();
    if c.variable.len() > 0 {
        steps.push(env_step(c.name.as_str(), c.variable.as_slice()));
    }
    let ghost before = steps_view(steps@);
    assert(before =~= (if c.variable.len() > 0 {
        seq![
            StepView::Env(
                env_file_name(c.name@),
                env_content_spec(crate::model::entries_view(c.variable@)),
            ),
        ]
    } else {
        seq![]
    }));
    let root: Vec<String> = Vec::new();
    assert(strs_view(root@) =~= Seq::<Seq<char>>::empty());
    let mut i: usize = 0;
    let ghost items = c.item@;
    assert(items.subrange(0, 0) =~= Seq::<PostmanItem>::empty());
    while i < c.item.len()
        invariant
            i <= items.len(),
            items == c.item@,
            strs_view(root@) == Seq::<Seq<char>>::empty(),
            steps_view(steps@) == before + items_steps(items.subrange(0, i as int), seq![]),
        decreases items.len() - i,
    {
        proof {
            assert(items.subrange(0, i + 1).subrange(0, i as int) =~= items.subrange(0, i as int));
            assert(items.subrange(0, i + 1)[i as int] == items[i as int]);
        }
        plan_item(&c.item[i], &root, &mut steps);
        assert(steps_view(steps@) =~= before + items_steps(items.subrange(0, i + 1), seq![]));
        i += 1;
    }
    assert(items.subrange(0, i as int) =~= items);
    let requests = count_requests(&steps);
    let envs = count_envs(&steps);
    ImportPlan { steps, requests, envs }
}

// ---------------------------------------------------------------------------
// Insomnia
// ---------------------------------------------------------------------------

#[derive(Debug)]
pub struct InsomniaHeader {
    pub name: String,
    pub value: String,
    pub disabled: bool,
}

#[derive(Debug)]
pub struct InsomniaBody {
    pub text: Option<String>,
}

/// The resources of an export that an import uses (environment values as
/// text).
#[derive(Debug)]
pub enum InsomniaResource {
    Request {
        name: String,
        method: String,
        url: String,
        headers: Vec<InsomniaHeader>,
        body: Option<InsomniaBody>,
        parent_id: Option<String>,
    },
    Group { id: String, name: String },
    Environment { name: String, data: Vec<(String, String)> },
    Other,
}

/// `(id, name)` of each request group, in order.
pub open spec fn group_pairs(rs: Seq<InsomniaResource>) -> Seq<(Seq<char>, Seq<char>)>
    decreases rs.len(),
{
    if rs.len() == 0 {
        seq![]
    } else {
        let rest = group_pairs(rs.drop_last());
        match rs.last() {
            InsomniaResource::Group { id, name } => rest.push((id@, name@)),
            _ => rest,
        }
    }
}

pub open spec fn insomnia_headers(h: Seq<InsomniaHeader>) -> Seq<(Seq<char>, Seq<char>)>
    decreases h.len(),
{
    if h.len() == 0 {
        seq![]
    } else {
        let rest = insomnia_headers(h.drop_last());
        if h.last().disabled {
            rest
        } else {
            rest.push((h.last().name@, h.last().value@))
        }
    }
}

pub open spec fn insomnia_body(b: Option<InsomniaBody>) -> Seq<char> {
    match b {
        Some(InsomniaBody { text: Some(t) }) => t@,
        _ => seq![],
    }
}

/// The folder of a request: its group's name, or `imported` when it has no
/// known group.
pub open spec fn folder_for(parent: Option<String>, groups: Seq<(Seq<char>, Seq<char>)>) -> Seq<
    char,
> {
    match parent {
        Some(p) => match crate::model::map_get(groups, p@) {
            Some(g) => sanitized(lowercase(g)),
            None => "imported"@,
        },
        None => "imported"@,
    }
}

/// A non-empty environment becomes an environment file (variables sorted
/// by name); a request is written into its group's folder, created first.
pub open spec fn resource_steps(r: InsomniaResource, groups: Seq<(Seq<char>, Seq<char>)>) -> Seq<
    StepView,
> {
    match r {
        InsomniaResource::Environment { name, data } => if data.len() > 0 {
            seq![
                StepView::Env(
                    env_file_name(name@),
                    env_content_spec(map_of_pairs(crate::model::entries_view(data@))),
                ),
            ]
        } else {
            seq![]
        },
        InsomniaResource::Request { name, method, url, headers, body, parent_id } => {
            let folder = folder_for(parent_id, groups);
            seq![
                StepView::Dir(seq![folder]),
                request_step(
                    seq![folder],
                    name@,
                    method@,
                    url@,
                    insomnia_headers(headers@),
                    insomnia_body(body),
                ),
            ]
        },
        _ => seq![],
    }
}

pub open spec fn resources_steps(rs: Seq<InsomniaResource>, groups: Seq<(Seq<char>, Seq<char>)>) -> Seq<
    StepView,
>
    decreases rs.len(),
{
    if rs.len() == 0 {
        seq![]
    } else {
        resources_steps(rs.drop_last(), groups) + resource_steps(rs.last(), groups)
    }
}

/// An imported Insomnia request creates its folder and is written into it,
/// with its body text as the body (empty only when it has none), its
/// method when that names one (else GET), its URL as it is and its enabled
/// headers.
pub proof fn law_insomnia_request_steps(
    r: InsomniaResource,
    groups: Seq<(Seq<char>, Seq<char>)>,
)
    requires
        r is Request,
    ensures
        ({
            let folder = folder_for(r->Request_parent_id, groups);
            &&& resource_steps(r, groups).len() == 2
            &&& resource_steps(r, groups)[0] == StepView::Dir(seq![folder])
            &&& resource_steps(r, groups)[1] matches StepView::Request(d, f, m, u, h, b) && d
                == seq![folder] && f == request_file_name(r->Request_name@) && u
                == r->Request_url@ && b == (match r->Request_body {
                Some(ib) => match ib.text {
                    Some(t) => t@,
                    None => Seq::<char>::empty(),
                },
                None => Seq::<char>::empty(),
            }) && m == (match parse_method(r->Request_method@) {
                Some(pm) => pm,
                None => HttpMethod::GET,
            }) && h == map_of_pairs(insomnia_headers(r->Request_headers@))
        }),
{
}

/// The steps of an Insomnia import, resource by resource.
pub open spec fn insomnia_steps(rs: Seq<InsomniaResource>) -> Seq<StepView> {
    resources_steps(rs, map_of_pairs(group_pairs(rs)))
}

pub(crate) fn group_map(rs: &Vec<InsomniaResource>) -> (r: HeaderMap)
    ensures
        r@ == map_of_pairs(group_pairs(rs@)),
{
    let mut map = HeaderMap::new();
    let mut i: usize = 0;
    assert(rs@.take(0) =~= Seq::<InsomniaResource>::empty());
    while i < rs.len()
        invariant
            i <= rs@.len(),
            map@ == map_of_pairs(group_pairs(rs@.take(i as int))),
        decreases rs@.len() - i,
    {
        proof {
            assert(rs@.take(i + 1).drop_last() =~= rs@.take(i as int));
            assert(rs@.take(i + 1).last() == rs@[i as int]);
        }
        match &rs[i] {
            InsomniaResource::Group { id, name } => {
                let ghost m0 = map@;
                map.insert(id.clone(), name.clone());
                proof {
                    let p = choose|p: int|
                        is_insert_pos(m0, id@, p) && map@ == map_insert(m0, id@, name@, p);
                    lemma_insert_pos_unique(m0, id@, p);
                    let ps = group_pairs(rs@.take(i + 1));
                    assert(ps.drop_last() =~= group_pairs(rs@.take(i as int)));
                }
            },
            _ => {},
        }
        i += 1;
    }
    assert(rs@.take(i as int) =~= rs@);
    map
}

pub(crate) fn insomnia_header_pairs(h: &Vec<InsomniaHeader>) -> (r: Vec<(String, String)>)
    ensures
        crate::model::entries_view(r@) == insomnia_headers(h@),
{
    let mut out: Vec<(String, String)> = Vec::new();
    let mut i: usize = 0;
    assert(h@.take(0) =~= Seq::<InsomniaHeader>::empty());
    assert(crate::model::entries_view(out@) =~= Seq::<(Seq<char>, Seq<char>)>::empty());
    while i < h.len()
        invariant
            i <= h@.len(),
            crate::model::entries_view(out@) == insomnia_headers(h@.take(i as int)),
        decreases h@.len() - i,
    {
        proof {
            assert(h@.take(i + 1).drop_last() =~= h@.take(i as int));
            assert(h@.take(i + 1).last() == h@[i as int]);
        }
        if !h[i].disabled {
            let ghost before = crate::model::entries_view(out@);
            let k = h[i].name.clone();
            let v = h[i].value.clone();
            out.push((k, v));
            assert(crate::model::entries_view(out@) =~= before.push(
                (h@[i as int].name@, h@[i as int].value@),
            ));
        }
        i += 1;
    }
    assert(h@.take(i as int) =~= h@);
    out
}

fn sorted_vars(data: &Vec<(String, String)>) -> (r: HeaderMap)
    ensures
        r@ == map_of_pairs(crate::model::entries_view(data@)),
{
    let ghost ps = crate::model::entries_view(data@);
    let mut map = HeaderMap::new();
    let mut i: usize = 0;
    assert(ps.take(0) =~= Seq::<(Seq<char>, Seq<char>)>::empty());
    while i < data.len()
        invariant
            i <= data@.len(),
            ps == crate::model::entries_view(data@),
            map@ == map_of_pairs(ps.take(i as int)),
        decreases data@.len() - i,
    {
        let ghost m0 = map@;
        map.insert(data[i].0.clone(), data[i].1.clone());
        proof {
            let p = choose|p: int|
                is_insert_pos(m0, ps[i as int].0, p) && map@ == map_insert(
                    m0,
                    ps[i as int].0,
                    ps[i as int].1,
                    p,
                );
            lemma_insert_pos_unique(m0, ps[i as int].0, p);
            assert(ps.take(i + 1).drop_last() =~= ps.take(i as int));
            assert(ps.take(i + 1).last() == ps[i as int]);
        }
        i += 1;
    }
    assert(ps.take(ps.len() as int) =~= ps);
    map
}

pub fn plan_insomnia(resources: &Vec<InsomniaResource>) -> (r: ImportPlan)
    ensures
        steps_view(r.steps@) == insomnia_steps(resources@),
        r.requests == request_count(steps_view(r.steps@)),
        r.envs == env_count(steps_view(r.steps@)),
{
    let groups = group_map(resources);
    let ghost gv = groups@;
    let mut steps: Vec<ImportStep> = Vec::new();
    let mut i: usize = 0;
    assert(resources@.take(0) =~= Seq::<InsomniaResource>::empty());
    assert(steps_view(steps@) =~= Seq::<StepView>::empty());
    while i < resources.len()
        invariant
            i <= resources@.len(),
            groups@ == gv,
            gv == map_of_pairs(group_pairs(resources@)),
            steps_view(steps@) == resources_steps(resources@.take(i as int), gv),
        decreases resources@.len() - i,
    {
        proof {
            assert(resources@.take(i + 1).drop_last() =~= resources@.take(i as int));
            assert(resources@.take(i + 1).last() == resources@[i as int]);
        }
        let ghost before = steps_view(steps@);
        match &resources[i] {
            InsomniaResource::Environment { name, data } => {
                if data.len() > 0 {
                    let vars = sorted_vars(data);
                    steps.push(env_step(name.as_str(), vars.entries()));
                }
            },
            InsomniaResource::Request { name, method, url, headers, body, parent_id } => {
                let folder = match parent_id {
                    Some(p) => match groups.get(p.as_str()) {
                        Some(g) => sanitize_filename(g.as_str()),
                        None => "imported".to_string(),
                    },
                    None => "imported".to_string(),
                };
                let dir = vec![folder];
                let pairs = insomnia_header_pairs(headers);
                let text = match body {
                    Some(b) => match &b.text {
                        Some(t) => t.clone(),
                        None => String::new(),
                    },
                    None => String::new(),
                };
                let ghost fv = dir@[0]@;
                assert(strs_view(dir@) =~= seq![fv]);
                steps.push(ImportStep::CreateDir { dir: copy_strings(&dir) });
                let step = write_request_step(&dir, name.as_str(), method.as_str(), url.clone(), &pairs, text);
                steps.push(step);
            },
            _ => {},
        }
        assert(steps_view(steps@) =~= before + resource_steps(resources@[i as int], gv));
        i += 1;
    }
    assert(resources@.take(i as int) =~= resources@);
    let requests = count_requests(&steps);
    let envs = count_envs(&steps);
    ImportPlan { steps, requests, envs }
}

} // verus!
