//! The script injected into the Codex renderer, data URIs for bundled
//! images, and the compact token counts shown in the tray.

use vstd::prelude::*;
use crate::text;

verus! {

/// The build id the injected script reports.
pub const DIAGNOSTIC_BUILD_ID: &'static str = "diag-20260518-1";

/// How `serde_json` escapes one character inside a string literal: quote,
/// backslash and the control characters with short escapes get them, other
/// control characters become `\u00xx` (lowercase hex), the rest stay.
pub open spec fn json_char_escape(c: char) -> Seq<char> {
    if c == '"' {
        seq!['\\', '"']
    } else if c == '\\' {
        seq!['\\', '\\']
    } else if c == '\u{08}' {
        seq!['\\', 'b']
    } else if c == '\t' {
        seq!['\\', 't']
    } else if c == '\n' {
        seq!['\\', 'n']
    } else if c == '\u{0C}' {
        seq!['\\', 'f']
    } else if c == '\r' {
        seq!['\\', 'r']
    } else if (c as int) < 0x20 {
        seq!['\\', 'u', '0', '0', text::hex_char((c as int) / 16), text::hex_char((c as int) % 16)]
    } else {
        seq![c]
    }
}

pub open spec fn json_escape(s: Seq<char>) -> Seq<char>
    decreases s.len(),
{
    if s.len() == 0 {
        Seq::empty()
    } else {
        json_escape(s.drop_last()) + json_char_escape(s.last())
    }
}

/// A string as a JSON string literal.
pub open spec fn json_quoted(s: Seq<char>) -> Seq<char> {
    seq!['"'] + json_escape(s) + seq!['"']
}

/// `serde_json::to_string` of a string: the string in double quotes with
/// the escapes of `json_char_escape`. Serializing a `str` into memory cannot
/// fail (the `Err` arm is never taken).
#[verifier::external_body]
fn json_string(s: &str) -> (r: String)
    ensures
        r@ == json_quoted(s@),
{
    match serde_json::to_string(s) {
        Ok(t) => t,
        Err(_) => String::new(),
    }
}

/// The prelude of the injected script: the helper URL for `helper_port`,
/// the version and the build id as JavaScript globals, followed by the
/// renderer script.
pub fn injection_script(helper_port: u16, version: &str, renderer: &str) -> (s: String)
    ensures
        s@ == "window.__CODEX_SESSION_DELETE_HELPER__ = "@
            + json_quoted("http://127.0.0.1:"@ + text::decimal(helper_port as nat))
            + ";\nwindow.__UCODEX_VERSION__ = "@ + json_quoted(version@)
            + ";\nwindow.__UCODEX_BUILD__ = "@ + json_quoted(DIAGNOSTIC_BUILD_ID@) + ";\n"@ + renderer@,
{
    let mut url = text::chars_of("http://127.0.0.1:");
    let port = text::decimal_chars(helper_port as u64);
    text::push_all(&mut url, port.as_slice());
    let url_s = text::string_from_chars(url.as_slice());
    let mut v = text::chars_of("window.__CODEX_SESSION_DELETE_HELPER__ = ");
    let a = json_string(url_s.as_str());
    let a = text::chars_of(a.as_str());
    text::push_all(&mut v, a.as_slice());
    let b = text::chars_of(";\nwindow.__UCODEX_VERSION__ = ");
    text::push_all(&mut v, b.as_slice());
    let c = json_string(version);
    let c = text::chars_of(c.as_str());
    text::push_all(&mut v, c.as_slice());
    let d = text::chars_of(";\nwindow.__UCODEX_BUILD__ = ");
    text::push_all(&mut v, d.as_slice());
    let e = json_string(DIAGNOSTIC_BUILD_ID);
    let e = text::chars_of(e.as_str());
    text::push_all(&mut v, e.as_slice());
    let f = text::chars_of(";\n");
    text::push_all(&mut v, f.as_slice());
    let g = text::chars_of(renderer);
    text::push_all(&mut v, g.as_slice());
    text::string_from_chars(v.as_slice())
}

/// The RFC 4648 standard base64 alphabet.
pub open spec fn b64_char(v: int) -> char {
    if v < 26 {
        (65 + v) as char
    } else if v < 52 {
        (97 + v - 26) as char
    } else if v < 62 {
        (48 + v - 52) as char
    } else if v == 62 {
        '+'
    } else {
        '/'
    }
}

/// Standard base64 with `=` padding.
pub open spec fn base64_standard(b: Seq<u8>) -> Seq<char>
    decreases b.len(),
{
    let x: int = if b.len() > 0 { b[0] as int } else { 0 };
    let y: int = if b.len() > 1 { b[1] as int } else { 0 };
    let z: int = if b.len() > 2 { b[2] as int } else { 0 };
    if b.len() == 0 {
        Seq::empty()
    } else if b.len() == 1 {
        seq![b64_char(x / 4), b64_char((x % 4) * 16), '=', '=']
    } else if b.len() == 2 {
        seq![b64_char(x / 4), b64_char((x % 4) * 16 + y / 16), b64_char((y % 16) * 4), '=']
    } else {
        seq![
            b64_char(x / 4),
            b64_char((x % 4) * 16 + y / 16),
            b64_char((y % 16) * 4 + z / 64),
            b64_char(z % 64),
        ] + base64_standard(b.skip(3))
    }
}

/// `base64::engine::general_purpose::STANDARD.encode`: standard alphabet
/// with padding.
#[verifier::external_body]
fn base64_encode(bytes: &[u8]) -> (r: String)
    requires
        (bytes@.len() / 3) * 4 + 4 <= usize::MAX,
    ensures
        r@ == base64_standard(bytes@),
{
    base64::Engine::encode(&base64::engine::general_purpose::STANDARD, bytes)
}

/// A `data:` URI embedding `bytes` with the given MIME type.
pub fn image_data_uri(mime_type: &str, bytes: &[u8]) -> (s: String)
    requires
        (bytes@.len() / 3) * 4 + 4 <= usize::MAX,
    ensures
        s@ == "data:"@ + mime_type@ + ";base64,"@ + base64_standard(bytes@),
{
    let mut v = text::chars_of("data:");
    let m = text::chars_of(mime_type);
    text::push_all(&mut v, m.as_slice());
    let b = text::chars_of(";base64,");
    text::push_all(&mut v, b.as_slice());
    let e = base64_encode(bytes);
    let e = text::chars_of(e.as_str());
    text::push_all(&mut v, e.as_slice());
    text::string_from_chars(v.as_slice())
}

/// A token count for the tray: whole millions with `M` from a million on,
/// whole thousands with `K` from a thousand on, otherwise the number.
pub open spec fn token_count_text(n: nat) -> Seq<char> {
    if n >= 1_000_000 {
        text::decimal(n / 1_000_000) + seq!['M']
    } else if n >= 1_000 {
        text::decimal(n / 1_000) + seq!['K']
    } else {
        text::decimal(n)
    }
}

pub fn format_token_count(n: u64) -> (s: String)
    ensures
        s@ == token_count_text(n as nat),
{
    let mut v: Vec<char>;
    if n >= 1_000_000 {
        v = text::decimal_chars(n / 1_000_000);
        v.push('M');
    } else if n >= 1_000 {
        v = text::decimal_chars(n / 1_000);
        v.push('K');
    } else {
        v = text::decimal_chars(n);
    }
    text::string_from_chars(v.as_slice())
}

} // verus!
