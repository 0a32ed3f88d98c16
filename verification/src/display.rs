//! Text shown about responses: sizes, shortened labels, the file extension
//! for saving a body and the icon and label for binary content.
use crate::icons::Icons as ContentIcons;
use crate::text::{
    append_str, chars_of, contains, contains_str, decimal, lowercase, push_decimal, slice_vec,
    starts_with, starts_with_str, string_of, to_lowercase,
};
use crate::theme::Icons;
use vstd::prelude::*;

verus! {

// ---------------------------------------------------------------------------
// Shortening
// ---------------------------------------------------------------------------

/// At most `max` characters: longer text keeps `max - 1` of them and an
/// ellipsis.
pub open spec fn truncate_spec(s: Seq<char>, max: nat) -> Seq<char> {
    if s.len() <= max {
        s
    } else {
        s.take(if max == 0 {
            0
        } else {
            max - 1
        }) + seq!['\u{2026}']
    }
}

/// Char-safe truncation with an ellipsis (never cuts inside a character).
pub fn truncate(s: &str, max_chars: usize) -> (r: String)
    ensures
        r@ == truncate_spec(s@, max_chars as nat),
{
    let cs = chars_of(s);
    if cs.len() <= max_chars {
        s.to_string()
    } else {
        let keep = if max_chars == 0 {
            0
        } else {
            max_chars - 1
        };
        let mut out = slice_vec(&cs, 0, keep);
        out.push('\u{2026}');
        proof {
            assert(out@ =~= truncate_spec(s@, max_chars as nat));
        }
        string_of(&out)
    }
}

// ---------------------------------------------------------------------------
// Sizes
// ---------------------------------------------------------------------------

/// `bytes / unit` in tenths, rounded to nearest with ties to even (how
/// `{:.1}` rounds the exact quotient).
pub open spec fn round_tenths(bytes: nat, unit: nat) -> nat {
    let q = bytes * 10 / unit;
    let r = bytes * 10 % unit;
    if r * 2 > unit || (r * 2 == unit && q % 2 == 1) {
        q + 1
    } else {
        q
    }
}

/// A number of tenths written with one decimal.
pub open spec fn tenths_text(t: nat) -> Seq<char> {
    decimal(t / 10) + "."@ + decimal(t % 10)
}

/// "500 bytes", "2.0 KB", "5.0 MB".
pub open spec fn format_bytes_spec(bytes: nat) -> Seq<char> {
    if bytes >= 1024 * 1024 {
        tenths_text(round_tenths(bytes, 1024 * 1024)) + " MB"@
    } else if bytes >= 1024 {
        tenths_text(round_tenths(bytes, 1024)) + " KB"@
    } else {
        decimal(bytes) + " bytes"@
    }
}

fn tenths(bytes: usize, unit: usize) -> (r: u128)
    requires
        unit == 1024 || unit == 1024 * 1024,
    ensures
        r == round_tenths(bytes as nat, unit as nat),
{
    let b: u128 = bytes as u128;
    let u: u128 = unit as u128;
    let q = b * 10 / u;
    let r = b * 10 % u;
    if r * 2 > u || (r * 2 == u && q % 2 == 1) {
        q + 1
    } else {
        q
    }
}

fn push_tenths(out: &mut Vec<char>, t: u128)
    ensures
        final(out)@ == old(out)@ + tenths_text(t as nat),
{
    push_decimal(out, t / 10);
    out.push('.');
    push_decimal(out, t % 10);
    proof {
        reveal_strlit(".");
    }
    assert(out@ =~= old(out)@ + tenths_text(t as nat));
}

/// A byte count for people: bytes, then KB and MB with one decimal.
pub fn format_bytes(bytes: usize) -> (r: String)
    ensures
        r@ == format_bytes_spec(bytes as nat),
{
    let mut out: Vec<char> = Vec::new();
    if bytes >= 1024 * 1024 {
        let t = tenths(bytes, 1024 * 1024);
        push_tenths(&mut out, t);
        append_str(&mut out, " MB");
    } else if bytes >= 1024 {
        let t = tenths(bytes, 1024);
        push_tenths(&mut out, t);
        append_str(&mut out, " KB");
    } else {
        push_decimal(&mut out, bytes as u128);
        append_str(&mut out, " bytes");
    }
    assert(out@ =~= format_bytes_spec(bytes as nat));
    string_of(&out)
}

// ---------------------------------------------------------------------------
// File extensions
// ---------------------------------------------------------------------------

/// Content-type fragments and the extension each gives, checked in order:
/// the first fragment found wins (so `svg` comes before `xml`).
pub open spec fn extension_rules() -> Seq<(Seq<char>, Seq<char>)> {
    seq![
        ("image/jpeg"@, ".jpg"@),
        ("image/jpg"@, ".jpg"@),
        ("image/png"@, ".png"@),
        ("image/gif"@, ".gif"@),
        ("image/webp"@, ".webp"@),
        ("image/svg"@, ".svg"@),
        ("image/bmp"@, ".bmp"@),
        ("image/ico"@, ".ico"@),
        ("audio/mpeg"@, ".mp3"@),
        ("audio/mp3"@, ".mp3"@),
        ("audio/wav"@, ".wav"@),
        ("audio/ogg"@, ".ogg"@),
        ("audio/flac"@, ".flac"@),
        ("video/mp4"@, ".mp4"@),
        ("video/webm"@, ".webm"@),
        ("video/avi"@, ".avi"@),
        ("video/quicktime"@, ".mov"@),
        ("application/pdf"@, ".pdf"@),
        ("application/zip"@, ".zip"@),
        ("application/gzip"@, ".gz"@),
        ("application/x-tar"@, ".tar"@),
        ("json"@, ".json"@),
        ("xml"@, ".xml"@),
        ("text/html"@, ".html"@),
        ("text/plain"@, ".txt"@),
        ("text/css"@, ".css"@),
        ("javascript"@, ".js"@),
    ]
}

/// The extension of the first rule whose fragment the (lower-case) content
/// type contains, `.bin` if none.
pub open spec fn extension_lookup(ct: Seq<char>, rules: Seq<(Seq<char>, Seq<char>)>) -> Seq<char>
    decreases rules.len(),
{
    if rules.len() == 0 {
        ".bin"@
    } else if contains(ct, rules[0].0) {
        rules[0].1
    } else {
        extension_lookup(ct, rules.drop_first())
    }
}

pub open spec fn str_pairs_view(v: Seq<(&str, &str)>) -> Seq<(Seq<char>, Seq<char>)> {
    v.map_values(|p: (&str, &str)| (p.0@, p.1@))
}

fn extension_table() -> (r: [(&'static str, &'static str); 27])
    ensures
        str_pairs_view(r@) == extension_rules(),
{
    let r = [
        ("image/jpeg", ".jpg"),
        ("image/jpg", ".jpg"),
        ("image/png", ".png"),
        ("image/gif", ".gif"),
        ("image/webp", ".webp"),
        ("image/svg", ".svg"),
        ("image/bmp", ".bmp"),
        ("image/ico", ".ico"),
        ("audio/mpeg", ".mp3"),
        ("audio/mp3", ".mp3"),
        ("audio/wav", ".wav"),
        ("audio/ogg", ".ogg"),
        ("audio/flac", ".flac"),
        ("video/mp4", ".mp4"),
        ("video/webm", ".webm"),
        ("video/avi", ".avi"),
        ("video/quicktime", ".mov"),
        ("application/pdf", ".pdf"),
        ("application/zip", ".zip"),
        ("application/gzip", ".gz"),
        ("application/x-tar", ".tar"),
        ("json", ".json"),
        ("xml", ".xml"),
        ("text/html", ".html"),
        ("text/plain", ".txt"),
        ("text/css", ".css"),
        ("javascript", ".js"),
    ];
    assert(str_pairs_view(r@) =~= extension_rules());
    r
}

/// File extension for a lower-case content type.
pub fn extension_for_lower(ct: &[char]) -> (r: &'static str)
    ensures
        r@ == extension_lookup(ct@, extension_rules()),
{
    let table = extension_table();
    let mut i: usize = 0;
    assert(extension_rules().skip(0) =~= extension_rules());
    while i < 27
        invariant
            i <= 27,
            str_pairs_view(table@) == extension_rules(),
            extension_lookup(ct@, extension_rules()) == extension_lookup(
                ct@,
                extension_rules().skip(i as int),
            ),
        decreases 27 - i,
    {
        let (pattern, ext) = table[i];
        proof {
            assert(extension_rules().skip(i as int).drop_first() =~= extension_rules().skip(
                i + 1,
            ));
            assert(extension_rules().skip(i as int)[0] == str_pairs_view(table@)[i as int]);
        }
        if contains_str(ct, pattern) {
            return ext;
        }
        i += 1;
    }
    ".bin"
}

/// File extension for "Save response" (`.bin` if unknown).
pub fn extension_for(content_type: &str) -> (r: &'static str)
    ensures
        r@ == extension_lookup(lowercase(content_type@), extension_rules()),
{
    let cs = chars_of(content_type);
    let lower = to_lowercase(&cs);
    extension_for_lower(&lower)
}

/// File extension for a content type (`.bin` if unknown).
pub fn get_extension_for_content_type(content_type: &str) -> (r: &'static str)
    ensures
        r@ == extension_lookup(lowercase(content_type@), extension_rules()),
{
    extension_for(content_type)
}

// ---------------------------------------------------------------------------
// Binary content
// ---------------------------------------------------------------------------

/// Icon and label for a binary body of a lower-case content type.
pub open spec fn content_kind_spec(ct: Seq<char>) -> (Seq<char>, Seq<char>) {
    if starts_with(ct, "image/"@) {
        (Icons::IMAGE@, "Image Content"@)
    } else if starts_with(ct, "audio/"@) {
        (Icons::AUDIO@, "Audio Content"@)
    } else if starts_with(ct, "video/"@) {
        (Icons::VIDEO@, "Video Content"@)
    } else if contains(ct, "pdf"@) {
        (Icons::FILE@, "PDF Document"@)
    } else if contains(ct, "zip"@) || contains(ct, "tar"@) || contains(ct, "gz"@) || contains(
        ct,
        "archive"@,
    ) {
        (Icons::PACKAGE@, "Archive File"@)
    } else {
        (Icons::ATTACHMENT@, "Binary Content"@)
    }
}

pub fn content_kind_lower(ct: &[char]) -> (r: (&'static str, &'static str))
    ensures
        (r.0@, r.1@) == content_kind_spec(ct@),
{
    if starts_with_str(ct, "image/") {
        (Icons::IMAGE, "Image Content")
    } else if starts_with_str(ct, "audio/") {
        (Icons::AUDIO, "Audio Content")
    } else if starts_with_str(ct, "video/") {
        (Icons::VIDEO, "Video Content")
    } else if contains_str(ct, "pdf") {
        (Icons::FILE, "PDF Document")
    } else if contains_str(ct, "zip") || contains_str(ct, "tar") || contains_str(ct, "gz")
        || contains_str(ct, "archive") {
        (Icons::PACKAGE, "Archive File")
    } else {
        (Icons::ATTACHMENT, "Binary Content")
    }
}

/// Icon and label shown for a binary body.
pub fn content_kind(content_type: &str) -> (r: (&'static str, &'static str))
    ensures
        (r.0@, r.1@) == content_kind_spec(lowercase(content_type@)),
{
    let cs = chars_of(content_type);
    let lower = to_lowercase(&cs);
    content_kind_lower(&lower)
}

/// Icon and label for a lower-case content type, with raw octet streams told
/// apart from other binary content.
pub open spec fn content_type_info_spec(ct: Seq<char>) -> (Seq<char>, Seq<char>) {
    if starts_with(ct, "image/"@) {
        (ContentIcons::IMAGE@, "Image Content"@)
    } else if starts_with(ct, "audio/"@) {
        (ContentIcons::AUDIO@, "Audio Content"@)
    } else if starts_with(ct, "video/"@) {
        (ContentIcons::VIDEO@, "Video Content"@)
    } else if contains(ct, "pdf"@) {
        (ContentIcons::FILE@, "PDF Document"@)
    } else if contains(ct, "zip"@) || contains(ct, "tar"@) || contains(ct, "gz"@) || contains(
        ct,
        "archive"@,
    ) {
        (ContentIcons::PACKAGE@, "Archive File"@)
    } else if contains(ct, "octet-stream"@) {
        (ContentIcons::BINARY@, "Binary Data"@)
    } else {
        (ContentIcons::ATTACHMENT@, "Binary Content"@)
    }
}

pub fn content_type_info_lower(ct: &[char]) -> (r: (&'static str, &'static str))
    ensures
        (r.0@, r.1@) == content_type_info_spec(ct@),
{
    if starts_with_str(ct, "image/") {
        (ContentIcons::IMAGE, "Image Content")
    } else if starts_with_str(ct, "audio/") {
        (ContentIcons::AUDIO, "Audio Content")
    } else if starts_with_str(ct, "video/") {
        (ContentIcons::VIDEO, "Video Content")
    } else if contains_str(ct, "pdf") {
        (ContentIcons::FILE, "PDF Document")
    } else if contains_str(ct, "zip") || contains_str(ct, "tar") || contains_str(ct, "gz")
        || contains_str(ct, "archive") {
        (ContentIcons::PACKAGE, "Archive File")
    } else if contains_str(ct, "octet-stream") {
        (ContentIcons::BINARY, "Binary Data")
    } else {
        (ContentIcons::ATTACHMENT, "Binary Content")
    }
}

/// Icon and label for a content type.
pub fn get_content_type_info(content_type: &str) -> (r: (&'static str, &'static str))
    ensures
        (r.0@, r.1@) == content_type_info_spec(lowercase(content_type@)),
{
    let cs = chars_of(content_type);
    let lower = to_lowercase(&cs);
    content_type_info_lower(&lower)
}

} // verus!
