//! Classifying and formatting HTTP responses.
//!
//! Sending a request is I/O and happens outside the library; what the library
//! decides is how the reply is described: which header gives the content type,
//! which cookies were set, how the body is classified for display, the text
//! shown for the body, the message shown for a failed request, and how JSON
//! and XML bodies are laid out.
use crate::model::{entries_view, eq_ignore_ascii_case, eq_ignore_ascii_case_exec};
use crate::text::{
    append_str, chars_of, contains, contains_str, decimal, from_utf8,
    from_utf8_lossy, lowercase, push_decimal, starts_with, starts_with_str, string_of, to_lowercase,
    is_ws, trim, trim_end, trim_start, trim_start_vec, trim_vec, append, ends_with, ends_with_str, utf8_head, utf8_head_exec, utf8_lossy,
};
use vstd::prelude::*;
use vstd::utf8::{decode_utf8, valid_utf8};

verus! {

pub const TIMEOUT_SECS: u64 = 30;

/// Bodies larger than this are not downloaded ("Response Too Large").
pub const MAX_RESPONSE_SIZE: usize = 10 * 1024 * 1024;

/// Text bodies larger than this are not rendered inline.
pub const MAX_INLINE_SIZE: usize = 100 * 1024;

/// How the response panel renders a body.
#[derive(Debug, Clone, Copy, PartialEq, Eq, Structural)]
pub enum ResponseType {
    Json,
    Xml,
    Html,
    PlainText,
    Image,
    Binary,
    /// Exceeded `MAX_RESPONSE_SIZE`; body not downloaded.
    TooLarge,
    /// Text over `MAX_INLINE_SIZE`; offered as a download instead.
    LargeText,
    Empty,
}

/// A received response, as the application shows and stores it.
#[derive(Debug, Clone)]
pub struct HttpResponse {
    pub status: u16,
    pub status_text: String,
    pub headers: Vec<(String, String)>,
    pub cookies: Vec<String>,
    pub body: String,
    /// Raw bytes for Image/Binary so "Save" writes the real file.
    pub raw_bytes: Option<Vec<u8>>,
    pub duration_ms: u128,
    pub size_bytes: usize,
    pub content_type: String,
    pub response_type: ResponseType,
}

pub open spec fn strings_view(v: Seq<String>) -> Seq<Seq<char>> {
    v.map_values(|s: String| s@)
}

// ---------------------------------------------------------------------------
// Headers
// ---------------------------------------------------------------------------

/// Values of the `Set-Cookie` headers (any case), in order.
pub open spec fn cookies_spec(h: Seq<(Seq<char>, Seq<char>)>) -> Seq<Seq<char>>
    decreases h.len(),
{
    if h.len() == 0 {
        seq![]
    } else {
        let rest = cookies_spec(h.drop_last());
        if eq_ignore_ascii_case(h.last().0, "set-cookie"@) {
            rest.push(h.last().1)
        } else {
            rest
        }
    }
}

pub fn extract_cookies(headers: &[(String, String)]) -> (r: Vec<String>)
    ensures
        strings_view(r@) == cookies_spec(entries_view(headers@)),
{
    let name = chars_of("set-cookie");
    let mut out: Vec<String> = Vec::new();
    let mut i: usize = 0;
    while i < headers.len()
        invariant
            i <= headers@.len(),
            name@ == "set-cookie"@,
            strings_view(out@) == cookies_spec(entries_view(headers@.take(i as int))),
        decreases headers@.len() - i,
    {
        let k = chars_of(headers[i].0.as_str());
        proof {
            assert(entries_view(headers@.take(i + 1)).drop_last() =~= entries_view(
                headers@.take(i as int),
            ));
        }
        if eq_ignore_ascii_case_exec(&k, &name) {
            out.push(headers[i].1.clone());
        }
        proof {
            assert(strings_view(out@) =~= cookies_spec(entries_view(headers@.take(i + 1))));
        }
        i += 1;
    }
    assert(headers@.take(headers@.len() as int) =~= headers@);
    out
}

/// `name=value` of each cookie (the part before its first `;`, split at its
/// first `=`); a cookie without `=` there is left out.
pub open spec fn cookie_pairs_spec(cs: Seq<Seq<char>>) -> Seq<(Seq<char>, Seq<char>)>
    decreases cs.len(),
{
    if cs.len() == 0 {
        seq![]
    } else {
        let rest = cookie_pairs_spec(cs.drop_last());
        match crate::text::split_once(crate::text::before_char(cs.last(), ';'), seq!['=']) {
            Some(p) => rest.push(p),
            None => rest,
        }
    }
}

/// The name and value of each cookie, for showing them as a table.
pub fn cookie_pairs(cookies: &[String]) -> (r: Vec<(String, String)>)
    ensures
        entries_view(r@) == cookie_pairs_spec(strings_view(cookies@)),
{
    let ghost cv = strings_view(cookies@);
    let mut out: Vec<(String, String)> = Vec::new();
    let mut i: usize = 0;
    assert(cv.take(0) =~= Seq::<Seq<char>>::empty());
    assert(entries_view(out@) =~= Seq::<(Seq<char>, Seq<char>)>::empty());
    while i < cookies.len()
        invariant
            i <= cookies@.len(),
            cv == strings_view(cookies@),
            entries_view(out@) == cookie_pairs_spec(cv.take(i as int)),
        decreases cookies@.len() - i,
    {
        proof {
            assert(cv.take(i + 1).drop_last() =~= cv.take(i as int));
            assert(cv.take(i + 1).last() == cookies@[i as int]@);
        }
        let first = crate::text::before_char_exec(&chars_of(cookies[i].as_str()), ';');
        match crate::text::split_once_char(&first, '=') {
            Some((k, v)) => {
                let ghost before = entries_view(out@);
                out.push((string_of(&k), string_of(&v)));
                assert(entries_view(out@) =~= before.push((k@, v@)));
            },
            None => {},
        }
        i += 1;
    }
    assert(cv.take(cookies@.len() as int) =~= cv);
    out
}

/// Value of the first `Content-Type` header (any case), or empty.
pub open spec fn content_type_spec(h: Seq<(Seq<char>, Seq<char>)>) -> Seq<char>
    decreases h.len(),
{
    if h.len() == 0 {
        seq![]
    } else if eq_ignore_ascii_case(h[0].0, "content-type"@) {
        h[0].1
    } else {
        content_type_spec(h.drop_first())
    }
}

pub fn content_type_of(headers: &[(String, String)]) -> (r: String)
    ensures
        r@ == content_type_spec(entries_view(headers@)),
{
    let name = chars_of("content-type");
    let mut i: usize = 0;
    assert(entries_view(headers@).skip(0) =~= entries_view(headers@));
    while i < headers.len()
        invariant
            i <= headers@.len(),
            name@ == "content-type"@,
            content_type_spec(entries_view(headers@)) == content_type_spec(
                entries_view(headers@).skip(i as int),
            ),
        decreases headers@.len() - i,
    {
        let k = chars_of(headers[i].0.as_str());
        proof {
            assert(entries_view(headers@).skip(i as int).drop_first() =~= entries_view(
                headers@,
            ).skip(i + 1));
        }
        if eq_ignore_ascii_case_exec(&k, &name) {
            return headers[i].1.clone();
        }
        i += 1;
    }
    String::new()
}

// ---------------------------------------------------------------------------
// Classifying a body
// ---------------------------------------------------------------------------

/// What the (lower-case) content type, the body's length and the status
/// decide on their own; `None` when the body must be sniffed.
pub open spec fn header_kind(ct: Seq<char>, body_len: nat, status: u16) -> Option<ResponseType> {
    if status == 204 || body_len == 0 {
        Some(ResponseType::Empty)
    } else if body_len > MAX_RESPONSE_SIZE {
        Some(ResponseType::TooLarge)
    } else if starts_with(ct, "image/"@) && !contains(ct, "svg"@) {
        Some(ResponseType::Image)
    } else if starts_with(ct, "application/octet-stream"@) || starts_with(
        ct,
        "application/pdf"@,
    ) || starts_with(ct, "audio/"@) || starts_with(ct, "video/"@) || contains(ct, "zip"@)
        || contains(ct, "tar"@) || contains(ct, "gzip"@) {
        Some(ResponseType::Binary)
    } else if body_len > MAX_INLINE_SIZE {
        Some(ResponseType::LargeText)
    } else if contains(ct, "application/json"@) || contains(ct, "+json"@) {
        Some(ResponseType::Json)
    } else if contains(ct, "application/xml"@) || contains(ct, "text/xml"@) || contains(
        ct,
        "+xml"@,
    ) {
        Some(ResponseType::Xml)
    } else if contains(ct, "text/html"@) {
        Some(ResponseType::Html)
    } else if starts_with(ct, "text/"@) {
        Some(ResponseType::PlainText)
    } else {
        None
    }
}

pub fn kind_from_header(ct: &[char], body_len: usize, status: u16) -> (r: Option<ResponseType>)
    ensures
        r == header_kind(ct@, body_len as nat, status),
{
    if status == 204 || body_len == 0 {
        return Some(ResponseType::Empty);
    }
    if body_len > MAX_RESPONSE_SIZE {
        return Some(ResponseType::TooLarge);
    }
    if starts_with_str(ct, "image/") && !contains_str(ct, "svg") {
        return Some(ResponseType::Image);
    }
    if starts_with_str(ct, "application/octet-stream") || starts_with_str(ct, "application/pdf")
        || starts_with_str(ct, "audio/") || starts_with_str(ct, "video/") || contains_str(
        ct,
        "zip",
    ) || contains_str(ct, "tar") || contains_str(ct, "gzip") {
        return Some(ResponseType::Binary);
    }
    if body_len > MAX_INLINE_SIZE {
        return Some(ResponseType::LargeText);
    }
    if contains_str(ct, "application/json") || contains_str(ct, "+json") {
        return Some(ResponseType::Json);
    }
    if contains_str(ct, "application/xml") || contains_str(ct, "text/xml") || contains_str(
        ct,
        "+xml",
    ) {
        return Some(ResponseType::Xml);
    }
    if contains_str(ct, "text/html") {
        return Some(ResponseType::Html);
    }
    if starts_with_str(ct, "text/") {
        return Some(ResponseType::PlainText);
    }
    None
}

/// A body that starts with `<`: HTML if its (lower-case) head says so.
pub open spec fn markup_kind(head: Seq<char>) -> ResponseType {
    if contains(head, "<!doctype html"@) || contains(head, "<html"@) {
        ResponseType::Html
    } else {
        ResponseType::Xml
    }
}

pub fn markup_type(head: &[char]) -> (r: ResponseType)
    ensures
        r == markup_kind(head@),
{
    if contains_str(head, "<!doctype html") || contains_str(head, "<html") {
        ResponseType::Html
    } else {
        ResponseType::Xml
    }
}

/// The body's text without leading whitespace, when it is UTF-8.
pub open spec fn sniff_text(body: Seq<u8>) -> Seq<char> {
    trim_start(decode_utf8(body))
}

/// The type of a body whose content type did not decide it.
pub open spec fn sniff_spec(body: Seq<u8>) -> ResponseType {
    if !valid_utf8(body) {
        ResponseType::Binary
    } else {
        let t = sniff_text(body);
        if starts_with(t, "{"@) || starts_with(t, "["@) {
            ResponseType::Json
        } else if starts_with(t, "<"@) {
            markup_kind(lowercase(utf8_head(t, 512)))
        } else {
            ResponseType::PlainText
        }
    }
}

pub fn sniff_body(body: &[u8]) -> (r: ResponseType)
    ensures
        r == sniff_spec(body@),
{
    match from_utf8(body) {
        None => ResponseType::Binary,
        Some(text) => {
            let cs = chars_of(text.as_str());
            let t = trim_start_vec(&cs);
            if starts_with_str(&t, "{") || starts_with_str(&t, "[") {
                ResponseType::Json
            } else if starts_with_str(&t, "<") {
                let head = utf8_head_exec(&t, 512);
                let low = to_lowercase(&head);
                markup_type(&low)
            } else {
                ResponseType::PlainText
            }
        },
    }
}

/// How a body is shown, from its content type, bytes and status.
pub open spec fn detect_spec(ct: Seq<char>, body: Seq<u8>, status: u16) -> ResponseType {
    match header_kind(lowercase(ct), body.len(), status) {
        Some(k) => k,
        None => sniff_spec(body),
    }
}

/// The size and status rules of the defaults: a response is empty exactly
/// for status 204 or no body, too large over 10 MB, shown as a download
/// only between 100 KB and 10 MB, and an image only for an `image/` content
/// type that is not SVG.
pub proof fn law_response_limits(ct: Seq<char>, body: Seq<u8>, status: u16)
    ensures
        (detect_spec(ct, body, status) == ResponseType::Empty) == (status == 204 || body.len()
            == 0),
        status != 204 && body.len() > MAX_RESPONSE_SIZE ==> detect_spec(ct, body, status)
            == ResponseType::TooLarge,
        detect_spec(ct, body, status) == ResponseType::LargeText ==> MAX_INLINE_SIZE < body.len()
            <= MAX_RESPONSE_SIZE,
        detect_spec(ct, body, status) == ResponseType::Image ==> starts_with(
            lowercase(ct),
            "image/"@,
        ) && !contains(lowercase(ct), "svg"@),
{
}

/// How a small, non-empty response is classified by its (lower-cased)
/// content type, once it is neither an image nor a binary type: JSON for
/// `application/json` or `+json`; else XML for `application/xml`,
/// `text/xml` or `+xml`; else HTML for `text/html`; else plain text for any
/// other `text/` type.
pub proof fn law_content_type_kinds(ct: Seq<char>, body: Seq<u8>, status: u16)
    requires
        status != 204,
        0 < body.len() <= MAX_INLINE_SIZE,
        !(starts_with(lowercase(ct), "image/"@) && !contains(lowercase(ct), "svg"@)),
        !starts_with(lowercase(ct), "application/octet-stream"@),
        !starts_with(lowercase(ct), "application/pdf"@),
        !starts_with(lowercase(ct), "audio/"@),
        !starts_with(lowercase(ct), "video/"@),
        !contains(lowercase(ct), "zip"@),
        !contains(lowercase(ct), "tar"@),
        !contains(lowercase(ct), "gzip"@),
    ensures
        ({
            let l = lowercase(ct);
            let json = contains(l, "application/json"@) || contains(l, "+json"@);
            let xml = contains(l, "application/xml"@) || contains(l, "text/xml"@) || contains(
                l,
                "+xml"@,
            );
            &&& json ==> detect_spec(ct, body, status) == ResponseType::Json
            &&& !json && xml ==> detect_spec(ct, body, status) == ResponseType::Xml
            &&& !json && !xml && contains(l, "text/html"@) ==> detect_spec(ct, body, status)
                == ResponseType::Html
            &&& !json && !xml && !contains(l, "text/html"@) && starts_with(l, "text/"@)
                ==> detect_spec(ct, body, status) == ResponseType::PlainText
        }),
{
}

/// A small, non-empty response with a binary content type (and no image
/// type) is classified as binary.
pub proof fn law_binary_content_types(ct: Seq<char>, body: Seq<u8>, status: u16)
    requires
        status != 204,
        0 < body.len() <= MAX_RESPONSE_SIZE,
        !(starts_with(lowercase(ct), "image/"@) && !contains(lowercase(ct), "svg"@)),
        starts_with(lowercase(ct), "application/octet-stream"@) || starts_with(
            lowercase(ct),
            "application/pdf"@,
        ) || starts_with(lowercase(ct), "audio/"@) || starts_with(lowercase(ct), "video/"@)
            || contains(lowercase(ct), "zip"@) || contains(lowercase(ct), "tar"@) || contains(
            lowercase(ct),
            "gzip"@,
        ),
    ensures
        detect_spec(ct, body, status) == ResponseType::Binary,
{
}

/// A body is sniffed from its text: bytes that are not UTF-8 are binary;
/// text that (after leading whitespace) opens with `{` or `[` is JSON, and
/// text that opens with anything but `{`, `[` or `<` is plain text.
pub proof fn law_sniffed_kinds(body: Seq<u8>)
    ensures
        !valid_utf8(body) ==> sniff_spec(body) == ResponseType::Binary,
        valid_utf8(body) && trim_start(decode_utf8(body)).len() > 0 ==> ({
            let c = trim_start(decode_utf8(body))[0];
            &&& (c == '{' || c == '[') ==> sniff_spec(body) == ResponseType::Json
            &&& (c != '{' && c != '[' && c != '<') ==> sniff_spec(body)
                == ResponseType::PlainText
        }),
        valid_utf8(body) && trim_start(decode_utf8(body)).len() == 0 ==> sniff_spec(body)
            == ResponseType::PlainText,
{
    reveal_strlit("{");
    reveal_strlit("[");
    reveal_strlit("<");
    if valid_utf8(body) {
        let t = trim_start(decode_utf8(body));
        if t.len() > 0 {
            assert(starts_with(t, "{"@) == (t[0] == '{')) by {
                if t[0] == '{' {
                    assert(t.take(1) =~= "{"@);
                }
                if starts_with(t, "{"@) {
                    assert(t.take(1)[0] == t[0]);
                    assert("{"@[0] == '{');
                }
            }
            assert(starts_with(t, "["@) == (t[0] == '[')) by {
                if t[0] == '[' {
                    assert(t.take(1) =~= "["@);
                }
                if starts_with(t, "["@) {
                    assert(t.take(1)[0] == t[0]);
                    assert("["@[0] == '[');
                }
            }
            assert(starts_with(t, "<"@) == (t[0] == '<')) by {
                if t[0] == '<' {
                    assert(t.take(1) =~= "<"@);
                }
                if starts_with(t, "<"@) {
                    assert(t.take(1)[0] == t[0]);
                    assert("<"@[0] == '<');
                }
            }
        }
    }
}

pub fn detect_response_type(content_type: &str, body: &[u8], status: u16) -> (r: ResponseType)
    ensures
        r == detect_spec(content_type@, body@, status),
{
    let ct = chars_of(content_type);
    let lower = to_lowercase(&ct);
    match kind_from_header(&lower, body.len(), status) {
        Some(k) => k,
        None => sniff_body(body),
    }
}

/// Whether a declared `Content-Length` is too large to download.
pub fn too_large_to_download(declared: Option<u64>) -> (r: bool)
    ensures
        r == (match declared {
            Some(n) => n as usize > MAX_RESPONSE_SIZE,
            None => false,
        }),
{
    match declared {
        Some(n) => n as usize > MAX_RESPONSE_SIZE,
        None => false,
    }
}

// ---------------------------------------------------------------------------
// The body text and the response
// ---------------------------------------------------------------------------

/// What is shown in place of a binary body.
pub open spec fn binary_note(n: nat) -> Seq<char> {
    "[Binary data: "@ + decimal(n) + " bytes]"@
}

/// The text shown for a body of the given type.
pub open spec fn body_text_spec(kind: ResponseType, bytes: Seq<u8>) -> Seq<char> {
    match kind {
        ResponseType::Image | ResponseType::Binary => binary_note(bytes.len()),
        ResponseType::TooLarge => seq![],
        _ => utf8_lossy(bytes),
    }
}

pub fn body_text(kind: ResponseType, bytes: &[u8]) -> (r: String)
    ensures
        r@ == body_text_spec(kind, bytes@),
{
    match kind {
        ResponseType::Image | ResponseType::Binary => {
            let mut out: Vec<char> = Vec::new();
            append_str(&mut out, "[Binary data: ");
            push_decimal(&mut out, bytes.len() as u128);
            append_str(&mut out, " bytes]");
            string_of(&out)
        },
        ResponseType::TooLarge => String::new(),
        _ => from_utf8_lossy(bytes),
    }
}

/// The response for what was received: `body` is `None` when the declared
/// length was too large to download, and then `declared` is its size.
pub fn build_response(
    status: u16,
    status_text: String,
    headers: Vec<(String, String)>,
    body: Option<Vec<u8>>,
    declared: usize,
    duration_ms: u128,
) -> (resp: HttpResponse)
    ensures
        ({
            &&& resp.status == status
            &&& resp.status_text@ == status_text@
            &&& entries_view(resp.headers@) == entries_view(headers@)
            &&& strings_view(resp.cookies@) == cookies_spec(entries_view(headers@))
            &&& resp.content_type@ == content_type_spec(entries_view(headers@))
            &&& resp.duration_ms == duration_ms
            &&& match body {
                None => {
                    &&& resp.response_type == ResponseType::TooLarge
                    &&& resp.size_bytes == declared
                    &&& resp.body@ == Seq::<char>::empty()
                    &&& resp.raw_bytes is None
                },
                Some(b) => {
                    let kind = detect_spec(content_type_spec(entries_view(headers@)), b@, status);
                    &&& resp.response_type == kind
                    &&& resp.size_bytes == b@.len()
                    &&& resp.body@ == body_text_spec(kind, b@)
                    &&& (kind == ResponseType::Image || kind == ResponseType::Binary) ==> resp.raw_bytes
                        == Some(b)
                    &&& !(kind == ResponseType::Image || kind == ResponseType::Binary)
                        ==> resp.raw_bytes is None
                },
            }
        }),
{
    let cookies = extract_cookies(&headers);
    let content_type = content_type_of(&headers);
    match body {
        None => HttpResponse {
            status,
            status_text,
            headers,
            cookies,
            body: String::new(),
            raw_bytes: None,
            duration_ms,
            size_bytes: declared,
            content_type,
            response_type: ResponseType::TooLarge,
        },
        Some(bytes) => {
            let kind = detect_response_type(content_type.as_str(), &bytes, status);
            let text = body_text(kind, &bytes);
            let size = bytes.len();
            let raw = match kind {
                ResponseType::Image | ResponseType::Binary => Some(bytes),
                _ => None,
            };
            HttpResponse {
                status,
                status_text,
                headers,
                cookies,
                body: text,
                raw_bytes: raw,
                duration_ms,
                size_bytes: size,
                content_type,
                response_type: kind,
            }
        },
    }
}

// ---------------------------------------------------------------------------
// Errors
// ---------------------------------------------------------------------------

/// The message shown for a failed request, from the error's text, its
/// lower-case form and what kind of failure it was.
pub open spec fn error_text(
    text: Seq<char>,
    lower: Seq<char>,
    timeout: bool,
    connect: bool,
    builder: bool,
) -> Seq<char> {
    if timeout {
        "Request timed out after "@ + decimal(TIMEOUT_SECS as nat) + "s"@
    } else if connect && (contains(lower, "certificate"@) || contains(lower, "ssl"@) || contains(
        lower,
        "tls"@,
    ) || contains(lower, "handshake"@)) {
        "SSL/TLS error: "@ + text
    } else if connect {
        "Connection failed: "@ + text
    } else if builder {
        "Invalid URL: "@ + text
    } else {
        "Request failed: "@ + text
    }
}

pub fn describe_error(
    text: &str,
    lower: &[char],
    is_timeout: bool,
    is_connect: bool,
    is_builder: bool,
) -> (r: String)
    ensures
        r@ == error_text(text@, lower@, is_timeout, is_connect, is_builder),
{
    let mut out: Vec<char> = Vec::new();
    if is_timeout {
        append_str(&mut out, "Request timed out after ");
        push_decimal(&mut out, TIMEOUT_SECS as u128);
        append_str(&mut out, "s");
    } else if is_connect && (contains_str(lower, "certificate") || contains_str(lower, "ssl")
        || contains_str(lower, "tls") || contains_str(lower, "handshake")) {
        append_str(&mut out, "SSL/TLS error: ");
        append_str(&mut out, text);
    } else if is_connect {
        append_str(&mut out, "Connection failed: ");
        append_str(&mut out, text);
    } else if is_builder {
        append_str(&mut out, "Invalid URL: ");
        append_str(&mut out, text);
    } else {
        append_str(&mut out, "Request failed: ");
        append_str(&mut out, text);
    }
    string_of(&out)
}

/// The message shown for a failed request.
pub fn error_message(text: &str, is_timeout: bool, is_connect: bool, is_builder: bool) -> (r:
    String)
    ensures
        r@ == error_text(text@, lowercase(text@), is_timeout, is_connect, is_builder),
{
    let cs = chars_of(text);
    let lower = to_lowercase(&cs);
    describe_error(text, &lower, is_timeout, is_connect, is_builder)
}

// ---------------------------------------------------------------------------
// Formatting
// ---------------------------------------------------------------------------

/// What `serde_json` makes of a text: the JSON value it holds, written back
/// pretty-printed (two-space indent); `None` when the text is not JSON.
pub uninterp spec fn json_pretty(s: Seq<char>) -> Option<Seq<char>>;

pub open spec fn opt_string_view(o: Option<String>) -> Option<Seq<char>> {
    match o {
        Some(s) => Some(s@),
        None => None,
    }
}

/// `serde_json::from_str::<Value>` followed by `serde_json::to_string_pretty`.
/// Their result is named, not stated: it is the JSON grammar and serde_json's
/// layout. Writing a parsed `Value` back does not fail.
#[verifier::external_body]
fn pretty_json(body: &str) -> (r: Option<String>)
    ensures
        opt_string_view(r) == json_pretty(body@),
{
    serde_json::from_str::<serde_json::Value>(body).ok().and_then(
        |v| serde_json::to_string_pretty(&v).ok(),
    )
}

/// The pretty form where there is one, else the body unchanged.
pub fn pretty_or_unchanged(body: &str, pretty: Option<String>) -> (r: String)
    ensures
        r@ == match opt_string_view(pretty) {
            Some(p) => p,
            None => body@,
        },
{
    match pretty {
        Some(p) => p,
        None => body.to_string(),
    }
}

/// Pretty-print JSON; the input unchanged if it isn't valid JSON.
pub fn format_json(body: &str) -> (r: String)
    ensures
        r@ == match json_pretty(body@) {
            Some(p) => p,
            None => body@,
        },
{
    let pretty = pretty_json(body);
    pretty_or_unchanged(body, pretty)
}

/// `n` spaces.
pub open spec fn spaces(n: nat) -> Seq<char> {
    Seq::new(n, |i: int| ' ')
}

/// The XML formatter's state: text written so far, open-tag depth, and the
/// pending tag or text.
pub struct XmlState {
    pub out: Seq<char>,
    pub indent: nat,
    pub token: Seq<char>,
}

/// A complete tag: on a line of its own, indented by its depth.
pub open spec fn xml_close_tag(st: XmlState) -> XmlState {
    let tag = trim(st.token.push('>'));
    let closing = starts_with(tag, "</"@);
    let opens = !closing && !ends_with(tag, "/>"@) && !starts_with(tag, "<?"@) && !starts_with(
        tag,
        "<!"@,
    );
    let ind: nat = if closing {
        if st.indent == 0 {
            0
        } else {
            (st.indent - 1) as nat
        }
    } else {
        st.indent
    };
    let o = if st.out.len() > 0 && st.out.last() != '\n' {
        st.out.push('\n')
    } else {
        st.out
    };
    XmlState {
        out: o + spaces(2 * ind) + tag,
        indent: if opens {
            ind + 1
        } else {
            ind
        },
        token: seq![],
    }
}

pub open spec fn xml_step(st: XmlState, ch: char) -> XmlState {
    if ch == '<' {
        XmlState { out: st.out + trim(st.token), indent: st.indent, token: seq!['<'] }
    } else if ch == '>' {
        xml_close_tag(st)
    } else {
        XmlState { out: st.out, indent: st.indent, token: st.token.push(ch) }
    }
}

pub open spec fn xml_run(s: Seq<char>) -> XmlState
    decreases s.len(),
{
    if s.len() == 0 {
        XmlState { out: seq![], indent: 0, token: seq![] }
    } else {
        xml_step(xml_run(s.drop_last()), s.last())
    }
}

/// One line per tag, indented two spaces per open tag; text stays after its
/// opening tag.
pub open spec fn format_xml_spec(s: Seq<char>) -> Seq<char> {
    xml_run(s).out + trim(xml_run(s).token)
}

/// The characters of `s` that are not whitespace, in order.
pub open spec fn non_ws(s: Seq<char>) -> Seq<char>
    decreases s.len(),
{
    if s.len() == 0 {
        seq![]
    } else if is_ws(s.last()) {
        non_ws(s.drop_last())
    } else {
        non_ws(s.drop_last()).push(s.last())
    }
}

proof fn lemma_non_ws_concat(a: Seq<char>, b: Seq<char>)
    ensures
        non_ws(a + b) == non_ws(a) + non_ws(b),
    decreases b.len(),
{
    if b.len() == 0 {
        assert(a + b =~= a);
        assert(non_ws(a) + non_ws(b) =~= non_ws(a));
    } else {
        lemma_non_ws_concat(a, b.drop_last());
        assert((a + b).drop_last() =~= a + b.drop_last());
        assert((a + b).last() == b.last());
        if !is_ws(b.last()) {
            assert(non_ws(a) + non_ws(b.drop_last()).push(b.last()) =~= (non_ws(a) + non_ws(
                b.drop_last(),
            )).push(b.last()));
        }
    }
}

proof fn lemma_non_ws_all_ws(s: Seq<char>)
    requires
        forall|i: int| 0 <= i < s.len() ==> is_ws(#[trigger] s[i]),
    ensures
        non_ws(s) == Seq::<char>::empty(),
    decreases s.len(),
{
    if s.len() > 0 {
        assert(is_ws(s[s.len() - 1]));
        assert forall|i: int| 0 <= i < s.drop_last().len() implies is_ws(#[trigger] s.drop_last()[i]) by {
            assert(s.drop_last()[i] == s[i]);
        }
        lemma_non_ws_all_ws(s.drop_last());
    }
}

proof fn lemma_non_ws_trim(x: Seq<char>)
    ensures
        non_ws(trim(x)) == non_ws(x),
{
    crate::text::lemma_trim_start_shape(x);
    let k = choose|k: int|
        0 <= k <= x.len() && trim_start(x) == x.skip(k) && (forall|j: int|
            0 <= j < k ==> is_ws(x[j]));
    assert(x =~= x.take(k) + x.skip(k));
    assert forall|j: int| 0 <= j < x.take(k).len() implies is_ws(#[trigger] x.take(k)[j]) by {
        assert(x.take(k)[j] == x[j]);
    }
    lemma_non_ws_all_ws(x.take(k));
    lemma_non_ws_concat(x.take(k), x.skip(k));
    let y = trim_start(x);
    crate::text::lemma_trim_end_shape(y);
    let m = choose|m: int|
        0 <= m <= y.len() && trim_end(y) == y.take(m) && (forall|j: int|
            m <= j < y.len() ==> is_ws(y[j]));
    assert(y =~= y.take(m) + y.skip(m));
    assert forall|j: int| 0 <= j < y.skip(m).len() implies is_ws(#[trigger] y.skip(m)[j]) by {
        assert(y.skip(m)[j] == y[m + j]);
    }
    lemma_non_ws_all_ws(y.skip(m));
    lemma_non_ws_concat(y.take(m), y.skip(m));
    assert(non_ws(x.take(k)) + non_ws(x.skip(k)) =~= non_ws(x.skip(k)));
    assert(non_ws(y.take(m)) + non_ws(y.skip(m)) =~= non_ws(y.take(m)));
}

proof fn lemma_non_ws_spaces(n: nat)
    ensures
        non_ws(spaces(n)) == Seq::<char>::empty(),
{
    assert forall|i: int| 0 <= i < spaces(n).len() implies is_ws(#[trigger] spaces(n)[i]) by {}
    lemma_non_ws_all_ws(spaces(n));
}

proof fn lemma_non_ws_push(s: Seq<char>, c: char)
    ensures
        non_ws(s.push(c)) == if is_ws(c) {
            non_ws(s)
        } else {
            non_ws(s).push(c)
        },
{
    assert(s.push(c).drop_last() =~= s);
}

proof fn lemma_xml_run_keeps_non_ws(s: Seq<char>)
    ensures
        non_ws(xml_run(s).out) + non_ws(xml_run(s).token) == non_ws(s),
    decreases s.len(),
{
    if s.len() == 0 {
        assert(non_ws(xml_run(s).out) + non_ws(xml_run(s).token) =~= non_ws(s));
    } else {
        let p = s.drop_last();
        let c = s.last();
        lemma_xml_run_keeps_non_ws(p);
        let st = xml_run(p);
        let n = xml_run(s);
        assert(n == xml_step(st, c));
        lemma_non_ws_push(p, c);
        assert(p.push(c) =~= s);
        if c == '<' {
            lemma_non_ws_concat(st.out, trim(st.token));
            lemma_non_ws_trim(st.token);
            lemma_non_ws_push(Seq::<char>::empty(), '<');
            assert(seq!['<'] =~= Seq::<char>::empty().push('<'));
            assert(non_ws(n.out) + non_ws(n.token) =~= non_ws(s));
        } else if c == '>' {
            let tag = trim(st.token.push('>'));
            let o = if st.out.len() > 0 && st.out.last() != '\n' {
                st.out.push('\n')
            } else {
                st.out
            };
            lemma_non_ws_push(st.out, '\n');
                        let ind: nat = if starts_with(tag, "</"@) {
                if st.indent == 0 {
                    0
                } else {
                    (st.indent - 1) as nat
                }
            } else {
                st.indent
            };
            lemma_non_ws_concat(o, spaces(2 * ind));
            lemma_non_ws_concat(o + spaces(2 * ind), tag);
            lemma_non_ws_spaces(2 * ind);
            lemma_non_ws_trim(st.token.push('>'));
            lemma_non_ws_push(st.token, '>');
            assert(n.out == o + spaces(2 * ind) + tag);
            assert(non_ws(n.token) =~= Seq::<char>::empty());
            assert(non_ws(n.out) + non_ws(n.token) =~= non_ws(s));
        } else {
            lemma_non_ws_push(st.token, c);
            assert(non_ws(n.out) + non_ws(n.token) =~= non_ws(s));
        }
    }
}

/// Formatting XML adds and removes only whitespace: every other character
/// is kept, in order.
pub proof fn law_format_xml_changes_only_whitespace(s: Seq<char>)
    ensures
        non_ws(format_xml_spec(s)) == non_ws(s),
{
    lemma_xml_run_keeps_non_ws(s);
    lemma_non_ws_concat(xml_run(s).out, trim(xml_run(s).token));
    lemma_non_ws_trim(xml_run(s).token);
}

fn push_spaces(out: &mut Vec<char>, n: usize)
    ensures
        final(out)@ == old(out)@ + spaces(n as nat),
{
    let mut i: usize = 0;
    while i < n
        invariant
            i <= n,
            out@ == old(out)@ + spaces(i as nat),
        decreases n - i,
    {
        out.push(' ');
        i += 1;
        assert(out@ =~= old(out)@ + spaces(i as nat));
    }
}

/// Indent XML one level per open tag. Naive by design: good enough to read.
pub fn format_xml(body: &str) -> (r: String)
    requires
        // a `str` holds at most `isize::MAX` bytes
        body@.len() <= usize::MAX / 2,
    ensures
        r@ == format_xml_spec(body@),
{
    let cs = chars_of(body);
    let mut out: Vec<char> = Vec::new();
    let mut indent: usize = 0;
    let mut token: Vec<char> = Vec::new();
    let mut i: usize = 0;
    assert(cs@.take(0) =~= Seq::<char>::empty());
    while i < cs.len()
        invariant
            i <= cs@.len(),
            cs@.len() <= usize::MAX / 2,
            indent <= i,
            xml_run(cs@.take(i as int)) == (XmlState {
                out: out@,
                indent: indent as nat,
                token: token@,
            }),
        decreases cs@.len() - i,
    {
        let ch = cs[i];
        proof {
            assert(cs@.take(i + 1).drop_last() =~= cs@.take(i as int));
        }
        if ch == '<' {
            let t = trim_vec(&token);
            append(&mut out, &t);
            token = vec!['<'];
        } else if ch == '>' {
            token.push('>');
            let tag = trim_vec(&token);
            let closing = starts_with_str(&tag, "</");
            let opens = !closing && !ends_with_str(&tag, "/>") && !starts_with_str(&tag, "<?")
                && !starts_with_str(&tag, "<!");
            if closing && indent > 0 {
                indent = indent - 1;
            }
            if out.len() > 0 && out[out.len() - 1] != '\n' {
                out.push('\n');
            }
            push_spaces(&mut out, 2 * indent);
            append(&mut out, &tag);
            if opens {
                indent = indent + 1;
            }
            token = Vec::new();
        } else {
            token.push(ch);
        }
        proof {
            assert(token@ =~= xml_run(cs@.take(i + 1)).token);
            assert(out@ =~= xml_run(cs@.take(i + 1)).out);
        }
        i += 1;
    }
    assert(cs@.take(cs@.len() as int) =~= cs@);
    let t = trim_vec(&token);
    append(&mut out, &t);
    string_of(&out)
}

} // verus!
