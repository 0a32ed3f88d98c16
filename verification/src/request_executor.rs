//! A response classifier that keeps an image's bytes in its classification
//! and checks the text size before the content type.
use crate::constants::{MAX_RESPONSE_SIZE, MAX_TEXT_DISPLAY_SIZE};
use crate::http::{format_xml_spec, ResponseType as Kind};
use crate::model::entries_view;
use crate::text::{
    append_str, chars_of, contains, contains_str, from_utf8, lowercase, starts_with,
    starts_with_str, string_of, to_lowercase, trim, trim_vec,
};
use vstd::prelude::*;
use vstd::utf8::{decode_utf8, valid_utf8};

verus! {

/// Classification of response content for rendering.
#[derive(Debug, Clone, PartialEq)]
pub enum ResponseType {
    Json,
    Xml,
    Html,
    PlainText,
    /// Raw image bytes for display.
    Image(Vec<u8>),
    /// Non-displayable binary data.
    Binary,
    /// Exceeded `MAX_RESPONSE_SIZE`.
    TooLarge,
    /// Text too large for inline display.
    LargeText,
    /// 204 No Content or an empty body.
    Empty,
}

/// A received response.
#[derive(Debug, Clone)]
pub struct HttpResponse {
    pub status: u16,
    pub status_text: String,
    pub headers: Vec<(String, String)>,
    pub body: String,
    pub raw_bytes: Option<Vec<u8>>,
    pub duration_ms: u128,
    pub size_bytes: usize,
    pub content_type: String,
    pub response_type: ResponseType,
}

/// The variant of a classification, without the image's bytes.
pub open spec fn kind_of(r: ResponseType) -> Kind {
    match r {
        ResponseType::Json => Kind::Json,
        ResponseType::Xml => Kind::Xml,
        ResponseType::Html => Kind::Html,
        ResponseType::PlainText => Kind::PlainText,
        ResponseType::Image(_) => Kind::Image,
        ResponseType::Binary => Kind::Binary,
        ResponseType::TooLarge => Kind::TooLarge,
        ResponseType::LargeText => Kind::LargeText,
        ResponseType::Empty => Kind::Empty,
    }
}

/// What the size, the status and the (lower-case) content type decide.
pub open spec fn header_kind(ct: Seq<char>, len: nat, status: u16) -> Option<Kind> {
    if status == 204 || len == 0 {
        Some(Kind::Empty)
    } else if len > MAX_RESPONSE_SIZE {
        Some(Kind::TooLarge)
    } else if len > MAX_TEXT_DISPLAY_SIZE {
        Some(Kind::LargeText)
    } else if contains(ct, "application/json"@) || contains(ct, "+json"@) {
        Some(Kind::Json)
    } else if contains(ct, "application/xml"@) || contains(ct, "text/xml"@) || contains(
        ct,
        "+xml"@,
    ) {
        Some(Kind::Xml)
    } else if contains(ct, "text/html"@) {
        Some(Kind::Html)
    } else if starts_with(ct, "image/"@) {
        Some(Kind::Image)
    } else if starts_with(ct, "application/octet-stream"@) || starts_with(
        ct,
        "application/pdf"@,
    ) || starts_with(ct, "audio/"@) || starts_with(ct, "video/"@) || contains(ct, "zip"@)
        || contains(ct, "tar"@) || contains(ct, "gzip"@) {
        Some(Kind::Binary)
    } else if starts_with(ct, "text/"@) {
        Some(Kind::PlainText)
    } else {
        None
    }
}

/// The type of a body the content type did not decide, from its trimmed
/// text and that text in lower case.
pub open spec fn sniff_kind(t: Seq<char>, lower: Seq<char>) -> Kind {
    if starts_with(t, "{"@) || starts_with(t, "["@) {
        Kind::Json
    } else if starts_with(t, "<"@) {
        if contains(lower, "<!doctype html"@) || contains(lower, "<html"@) {
            Kind::Html
        } else {
            Kind::Xml
        }
    } else {
        Kind::PlainText
    }
}

pub open spec fn detect_spec(ct: Seq<char>, body: Seq<u8>, status: u16) -> Kind {
    match header_kind(lowercase(ct), body.len(), status) {
        Some(k) => k,
        None => if valid_utf8(body) {
            let t = trim(decode_utf8(body));
            sniff_kind(t, lowercase(t))
        } else {
            Kind::Binary
        },
    }
}

/// How a small, non-empty response is classified by its (lower-cased)
/// content type: JSON for `application/json` or `+json`; else XML for
/// `application/xml`, `text/xml` or `+xml`; else HTML for `text/html`; else
/// an image for `image/`; else binary for a binary type; else plain text
/// for any other `text/` type.
pub proof fn law_executor_content_types(ct: Seq<char>, body: Seq<u8>, status: u16)
    requires
        status != 204,
        0 < body.len() <= MAX_TEXT_DISPLAY_SIZE,
    ensures
        ({
            let l = lowercase(ct);
            let json = contains(l, "application/json"@) || contains(l, "+json"@);
            let xml = contains(l, "application/xml"@) || contains(l, "text/xml"@) || contains(
                l,
                "+xml"@,
            );
            let html = contains(l, "text/html"@);
            let image = starts_with(l, "image/"@);
            let binary = starts_with(l, "application/octet-stream"@) || starts_with(
                l,
                "application/pdf"@,
            ) || starts_with(l, "audio/"@) || starts_with(l, "video/"@) || contains(l, "zip"@)
                || contains(l, "tar"@) || contains(l, "gzip"@);
            &&& json ==> detect_spec(ct, body, status) == Kind::Json
            &&& !json && xml ==> detect_spec(ct, body, status) == Kind::Xml
            &&& !json && !xml && html ==> detect_spec(ct, body, status) == Kind::Html
            &&& !json && !xml && !html && image ==> detect_spec(ct, body, status) == Kind::Image
            &&& !json && !xml && !html && !image && binary ==> detect_spec(ct, body, status)
                == Kind::Binary
            &&& !json && !xml && !html && !image && !binary && starts_with(l, "text/"@)
                ==> detect_spec(ct, body, status) == Kind::PlainText
        }),
{
}

/// The size and status rules: a response is empty exactly for status 204 or
/// no body, too large over 10 MB, a download only between 100 KB and 10 MB,
/// and an image only for an `image/` content type.
pub proof fn law_executor_limits(ct: Seq<char>, body: Seq<u8>, status: u16)
    ensures
        (detect_spec(ct, body, status) == Kind::Empty) == (status == 204 || body.len() == 0),
        status != 204 && body.len() > MAX_RESPONSE_SIZE ==> detect_spec(ct, body, status)
            == Kind::TooLarge,
        detect_spec(ct, body, status) == Kind::LargeText ==> MAX_TEXT_DISPLAY_SIZE < body.len()
            <= MAX_RESPONSE_SIZE,
        detect_spec(ct, body, status) == Kind::Image ==> starts_with(lowercase(ct), "image/"@),
{
}

fn header_kind_exec(ct: &[char], len: usize, status: u16) -> (r: Option<Kind>)
    ensures
        r == header_kind(ct@, len as nat, status),
{
    if status == 204 || len == 0 {
        Some(Kind::Empty)
    } else if len > MAX_RESPONSE_SIZE {
        Some(Kind::TooLarge)
    } else if len > MAX_TEXT_DISPLAY_SIZE {
        Some(Kind::LargeText)
    } else if contains_str(ct, "application/json") || contains_str(ct, "+json") {
        Some(Kind::Json)
    } else if contains_str(ct, "application/xml") || contains_str(ct, "text/xml") || contains_str(
        ct,
        "+xml",
    ) {
        Some(Kind::Xml)
    } else if contains_str(ct, "text/html") {
        Some(Kind::Html)
    } else if starts_with_str(ct, "image/") {
        Some(Kind::Image)
    } else if starts_with_str(ct, "application/octet-stream") || starts_with_str(
        ct,
        "application/pdf",
    ) || starts_with_str(ct, "audio/") || starts_with_str(ct, "video/") || contains_str(ct, "zip")
        || contains_str(ct, "tar") || contains_str(ct, "gzip") {
        Some(Kind::Binary)
    } else if starts_with_str(ct, "text/") {
        Some(Kind::PlainText)
    } else {
        None
    }
}

/// The sniffed type from a body's trimmed text and its lower-case form.
pub fn sniff_text_kind(t: &[char], lower: &[char]) -> (r: Kind)
    ensures
        r == sniff_kind(t@, lower@),
{
    if starts_with_str(t, "{") || starts_with_str(t, "[") {
        Kind::Json
    } else if starts_with_str(t, "<") {
        if contains_str(lower, "<!doctype html") || contains_str(lower, "<html") {
            Kind::Html
        } else {
            Kind::Xml
        }
    } else {
        Kind::PlainText
    }
}

fn copy_bytes(b: &[u8]) -> (r: Vec<u8>)
    ensures
        r@ == b@,
{
    let mut out: Vec<u8> = Vec::new();
    let mut i: usize = 0;
    while i < b.len()
        invariant
            i <= b@.len(),
            out@ == b@.take(i as int),
        decreases b@.len() - i,
    {
        out.push(b[i]);
        i += 1;
        assert(out@ =~= b@.take(i as int));
    }
    assert(b@.take(b@.len() as int) =~= b@);
    out
}

/// How a body is shown; an image keeps its bytes.
pub fn detect_response_type(content_type: &str, body: &[u8], status: u16) -> (r: ResponseType)
    ensures
        kind_of(r) == detect_spec(content_type@, body@, status),
        r matches ResponseType::Image(b) ==> b@ == body@,
{
    let ct = chars_of(content_type);
    let lower = to_lowercase(&ct);
    let kind = match header_kind_exec(&lower, body.len(), status) {
        Some(k) => k,
        None => match from_utf8(body) {
            Some(text) => {
                let cs = chars_of(text.as_str());
                let t = trim_vec(&cs);
                let tl = to_lowercase(&t);
                sniff_text_kind(&t, &tl)
            },
            None => Kind::Binary,
        },
    };
    match kind {
        Kind::Json => ResponseType::Json,
        Kind::Xml => ResponseType::Xml,
        Kind::Html => ResponseType::Html,
        Kind::PlainText => ResponseType::PlainText,
        Kind::Image => ResponseType::Image(copy_bytes(body)),
        Kind::Binary => ResponseType::Binary,
        Kind::TooLarge => ResponseType::TooLarge,
        Kind::LargeText => ResponseType::LargeText,
        Kind::Empty => ResponseType::Empty,
    }
}

/// Value of the first header whose name is `content-type` once lower-cased,
/// or empty.
pub open spec fn content_type_spec(h: Seq<(Seq<char>, Seq<char>)>) -> Seq<char>
    decreases h.len(),
{
    if h.len() == 0 {
        seq![]
    } else if lowercase(h[0].0) == "content-type"@ {
        h[0].1
    } else {
        content_type_spec(h.drop_first())
    }
}

fn is_content_type(name: &[char]) -> (r: bool)
    ensures
        r == (name@ == "content-type"@),
{
    let target = chars_of("content-type");
    crate::text::eq_chars(name, &target)
}

pub fn get_content_type(headers: &[(String, String)]) -> (r: String)
    ensures
        r@ == content_type_spec(entries_view(headers@)),
{
    let mut i: usize = 0;
    assert(entries_view(headers@).skip(0) =~= entries_view(headers@));
    while i < headers.len()
        invariant
            i <= headers@.len(),
            content_type_spec(entries_view(headers@)) == content_type_spec(
                entries_view(headers@).skip(i as int),
            ),
        decreases headers@.len() - i,
    {
        let k = chars_of(headers[i].0.as_str());
        let lower = to_lowercase(&k);
        proof {
            assert(entries_view(headers@).skip(i as int).drop_first() =~= entries_view(
                headers@,
            ).skip(i + 1));
        }
        if is_content_type(&lower) {
            return headers[i].1.clone();
        }
        i += 1;
    }
    String::new()
}

/// The message shown for a failed request of the given kind.
pub open spec fn request_error_text(text: Seq<char>, timeout: bool, connect: bool, builder: bool) -> Seq<char> {
    if timeout {
        "Request timed out after 30 seconds"@
    } else if connect {
        "Connection failed: "@ + text
    } else if builder {
        "Invalid request: "@ + text
    } else {
        "Request failed: "@ + text
    }
}

pub fn format_request_error(text: &str, is_timeout: bool, is_connect: bool, is_builder: bool) -> (r: String)
    ensures
        r@ == request_error_text(text@, is_timeout, is_connect, is_builder),
{
    if is_timeout {
        return "Request timed out after 30 seconds".to_string();
    }
    let mut out = if is_connect {
        chars_of("Connection failed: ")
    } else if is_builder {
        chars_of("Invalid request: ")
    } else {
        chars_of("Request failed: ")
    };
    append_str(&mut out, text);
    string_of(&out)
}

/// Indent XML one level per open tag.
pub fn format_xml(body: &str) -> (r: String)
    requires
        // a `str` holds at most `isize::MAX` bytes
        body@.len() <= usize::MAX / 2,
    ensures
        r@ == format_xml_spec(body@),
{
    crate::http::format_xml(body)
}

/// Pretty-print JSON; the input unchanged if it isn't valid JSON.
pub fn format_json(body: &str) -> (r: String)
    ensures
        r@ == match crate::http::json_pretty(body@) {
            Some(p) => p,
            None => body@,
        },
{
    crate::http::format_json(body)
}

} // verus!
