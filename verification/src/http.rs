//! The helper server's HTTP handling: finding the end of the request head,
//! reading `Content-Length`, splitting off the body, routing by method and
//! path, and the response heads it writes.

use vstd::prelude::*;
use crate::text;

verus! {

/// Largest request the helper reads before giving up, in bytes (32 MiB).
pub const MAX_REQUEST_BYTES: usize = 33554432;

/// Whether `\r\n\r\n` starts at byte `i`.
pub open spec fn crlfcrlf_at(b: Seq<u8>, i: int) -> bool {
    0 <= i && i + 4 <= b.len() && b[i] == 13 && b[i + 1] == 10 && b[i + 2] == 13 && b[i + 3] == 10
}

/// The position of the first `\r\n\r\n` in the bytes read so far.
pub fn find_header_end(buffer: &[u8]) -> (r: Option<usize>)
    ensures
        r matches Some(p) ==> crlfcrlf_at(buffer@, p as int) && forall|q: int| 0 <= q < p ==> !crlfcrlf_at(buffer@, q),
        r is None ==> forall|q: int| !crlfcrlf_at(buffer@, q),
{
    if buffer.len() < 4 {
        return None;
    }
    let mut i: usize = 0;
    while i <= buffer.len() - 4
        invariant
            buffer@.len() >= 4,
            i <= buffer@.len() - 3,
            forall|q: int| 0 <= q < i ==> !crlfcrlf_at(buffer@, q),
        decreases buffer.len() - i,
    {
        if buffer[i] == 13 && buffer[i + 1] == 10 && buffer[i + 2] == 13 && buffer[i + 3] == 10 {
            return Some(i);
        }
        i = i + 1;
    }
    None
}

/// The text of bytes with invalid UTF-8 replaced, as
/// `String::from_utf8_lossy` gives it; for valid UTF-8 that is its decoding.
pub uninterp spec fn utf8_lossy(bytes: Seq<u8>) -> Seq<char>;

/// `String::from_utf8_lossy`: valid UTF-8 comes back decoded as it is;
/// what it makes of invalid sequences is named, not described.
#[verifier::external_body]
fn lossy_text(bytes: &[u8]) -> (s: String)
    ensures
        s@ == utf8_lossy(bytes@),
        vstd::utf8::valid_utf8(bytes@) ==> s@ == vstd::utf8::decode_utf8(bytes@),
{
    String::from_utf8_lossy(bytes).into_owned()
}

/// The index of the first `c` in `s`.
pub open spec fn first_index(s: Seq<char>, c: char) -> Option<int> {
    if exists|i: int| 0 <= i < s.len() && s[i] == c {
        Some(choose|i: int| 0 <= i < s.len() && s[i] == c && forall|j: int| 0 <= j < i ==> s[j] != c)
    } else {
        None
    }
}

/// The `Content-Length` a header line gives: the line splits at its first
/// `:`, the trimmed name equals `content-length` ignoring ASCII case, and
/// the trimmed value parses as a `usize`.
pub open spec fn line_content_length(line: Seq<char>) -> Option<usize> {
    match first_index(line, ':') {
        Some(i) => if text::eq_ignore_ascii_case(text::trim(line.take(i)), "content-length"@) {
            text::parse_usize_spec(text::trim(line.skip(i + 1)))
        } else {
            None
        },
        None => None,
    }
}

/// The first header line that gives a `Content-Length`.
pub open spec fn first_content_length(lines: Seq<Seq<char>>) -> Option<usize>
    decreases lines.len(),
{
    if lines.len() == 0 {
        None
    } else {
        match line_content_length(lines[0]) {
            Some(v) => Some(v),
            None => first_content_length(lines.skip(1)),
        }
    }
}

fn first_colon(line: &Vec<char>) -> (r: Option<usize>)
    ensures
        r matches Some(i) ==> first_index(line@, ':') == Some(i as int) && i < line@.len(),
        r is None ==> first_index(line@, ':') is None,
{
    let mut i: usize = 0;
    while i < line.len()
        invariant
            i <= line@.len(),
            forall|j: int| 0 <= j < i ==> line@[j] != ':',
        decreases line.len() - i,
    {
        if line[i] == ':' {
            proof {
                let k = choose|k: int| 0 <= k < line@.len() && line@[k] == ':' && forall|j: int| 0 <= j < k ==> line@[j] != ':';
                if k < i {
                } else if k > i {
                    assert(line@[i as int] == ':');
                }
            }
            return Some(i);
        }
        i = i + 1;
    }
    None
}

fn line_length(line: &Vec<char>) -> (r: Option<usize>)
    ensures
        r == line_content_length(line@),
{
    match first_colon(line) {
        Some(i) => {
            let n = line.len();
            let name = text::sub_chars(line.as_slice(), 0, i);
            let value = text::sub_chars(line.as_slice(), i + 1, n);
            assert(name@ =~= line@.take(i as int));
            assert(value@ =~= line@.skip(i + 1));
            let tn = text::trim_chars(name.as_slice());
            let target = text::chars_of("content-length");
            if text::eq_ignore_ascii_case_chars(tn.as_slice(), target.as_slice()) {
                let tv = text::trim_chars(value.as_slice());
                text::parse_usize(tv.as_slice())
            } else {
                None
            }
        },
        None => None,
    }
}

/// The `Content-Length` of a request head: the head is read as UTF-8 (invalid
/// bytes replaced), split into lines, and the first line that gives a length wins.
pub fn content_length_from_headers(headers: &[u8]) -> (r: Option<usize>)
    ensures
        r == first_content_length(text::text_lines(utf8_lossy(headers@))),
{
    let t = lossy_text(headers);
    let chars = text::chars_of(t.as_str());
    let lines = text::lines_of(chars.as_slice());
    let ghost ls = text::text_lines(utf8_lossy(headers@));
    let mut i: usize = 0;
    assert(ls.skip(0) =~= ls);
    while i < lines.len()
        invariant
            i <= lines@.len() == ls.len(),
            ls == text::text_lines(utf8_lossy(headers@)),
            forall|j: int| 0 <= j < lines@.len() ==> #[trigger] lines@[j]@ == ls[j],
            first_content_length(ls) == first_content_length(ls.skip(i as int)),
        decreases lines.len() - i,
    {
        assert(ls.skip(i as int)[0] == ls[i as int]);
        assert(lines@[i as int]@ == ls[i as int]);
        assert(ls.skip(i as int).skip(1) =~= ls.skip(i + 1));
        let found = line_length(&lines[i]);
        match found {
            Some(v) => {
                assert(ls.skip(i as int).len() > 0);
                assert(first_content_length(ls.skip(i as int)) == Some(v));
                return Some(v);
            },
            None => {},
        }
        i = i + 1;
    }
    None
}

pub open spec fn body_separator() -> Seq<char> {
    seq!['\r', '\n', '\r', '\n']
}

/// The body of a request text: everything after the first `\r\n\r\n`, or
/// nothing when there is none.
pub open spec fn request_body_spec(request: Seq<char>) -> Seq<char> {
    match text::find_seq(request, body_separator()) {
        Some(i) => request.skip(i + 4),
        None => Seq::empty(),
    }
}

fn separator_at(s: &[char], i: usize) -> (b: bool)
    requires
        i + 4 <= s@.len(),
    ensures
        b == (s@.subrange(i as int, i + 4) == body_separator()),
{
    let b = s[i] == '\r' && s[i + 1] == '\n' && s[i + 2] == '\r' && s[i + 3] == '\n';
    if b {
        assert(s@.subrange(i as int, i + 4) =~= body_separator());
    } else {
        proof {
            if s@.subrange(i as int, i + 4) == body_separator() {
                assert(s@.subrange(i as int, i + 4)[0] == s@[i as int]);
                assert(s@.subrange(i as int, i + 4)[1] == s@[i + 1]);
                assert(s@.subrange(i as int, i + 4)[2] == s@[i + 2]);
                assert(s@.subrange(i as int, i + 4)[3] == s@[i + 3]);
            }
        }
    }
    b
}

fn body_of(s: &[char]) -> (r: Vec<char>)
    ensures
        r@ == request_body_spec(s@),
{
    if s.len() < 4 {
        return Vec::new();
    }
    let mut i: usize = 0;
    while i <= s.len() - 4
        invariant
            s@.len() >= 4,
            forall|j: int| 0 <= j < i ==> #[trigger] s@.subrange(j, j + 4) != body_separator(),
            i <= s@.len(),
        decreases s.len() - i,
    {
        if separator_at(s, i) {
            proof {
                assert(body_separator().len() == 4);
                let k = choose|k: int| 0 <= k && k + body_separator().len() <= s@.len()
                    && #[trigger] s@.subrange(k, k + body_separator().len()) == body_separator()
                    && forall|j: int| 0 <= j < k ==> #[trigger] s@.subrange(j, j + body_separator().len()) != body_separator();
                if k < i {
                } else if k > i {
                    assert(s@.subrange(i as int, i + 4) == body_separator());
                }
            }
            return text::sub_chars(s, i + 4, s.len());
        }
        i = i + 1;
    }
    proof {
        assert forall|j: int| 0 <= j && j + body_separator().len() <= s@.len()
            implies #[trigger] s@.subrange(j, j + body_separator().len()) != body_separator() by {
            assert(j < i);
        }
    }
    Vec::new()
}

/// The body of a request: what follows the first `\r\n\r\n`, or the empty string.
pub fn http_request_body(request: &str) -> (s: String)
    ensures
        s@ == request_body_spec(request@),
{
    let chars = text::chars_of(request);
    let b = body_of(chars.as_slice());
    text::string_from_chars(b.as_slice())
}

/// What the helper reads from a request: the method and path (the first two
/// whitespace-separated words of the first line, empty when missing) and the body.
pub struct HelperRequest {
    pub method: String,
    pub path: String,
    pub body: String,
}

pub open spec fn first_line(s: Seq<char>) -> Seq<char> {
    if text::text_lines(s).len() > 0 { text::text_lines(s)[0] } else { Seq::empty() }
}

pub open spec fn word(s: Seq<char>, i: int) -> Seq<char> {
    if i < text::split_whitespace(s).len() { text::split_whitespace(s)[i] } else { Seq::empty() }
}

/// Reads the method, path and body from the raw bytes of a request.
pub fn parse_helper_request(bytes: &[u8]) -> (r: HelperRequest)
    ensures
        r.method@ == word(first_line(utf8_lossy(bytes@)), 0),
        r.path@ == word(first_line(utf8_lossy(bytes@)), 1),
        r.body@ == request_body_spec(utf8_lossy(bytes@)),
{
    let t = lossy_text(bytes);
    let chars = text::chars_of(t.as_str());
    let lines = text::lines_of(chars.as_slice());
    let line: Vec<char> = if lines.len() > 0 { lines[0].clone() } else { Vec::new() };
    let words = text::split_whitespace_chars(line.as_slice());
    let method: Vec<char> = if words.len() > 0 { words[0].clone() } else { Vec::new() };
    let path: Vec<char> = if words.len() > 1 { words[1].clone() } else { Vec::new() };
    let body = body_of(chars.as_slice());
    HelperRequest {
        method: text::string_from_chars(method.as_slice()),
        path: text::string_from_chars(path.as_slice()),
        body: text::string_from_chars(body.as_slice()),
    }
}

// ───────────────────────── reading a request ─────────────────────────

/// What is known of a request while it is being read.
pub struct RequestReader {
    pub header_end: Option<usize>,
    pub content_length: usize,
}

/// What to do after a read.
#[derive(Debug, Clone, Copy, PartialEq, Eq, Structural)]
pub enum ReadDecision {
    /// Read more.
    Continue,
    /// The head and the announced body are in.
    Complete,
    /// The request is over `MAX_REQUEST_BYTES`.
    TooLarge,
}

impl RequestReader {
    pub fn new() -> (r: RequestReader)
        ensures
            r.header_end is None,
            r.content_length == 0,
    {
        RequestReader { header_end: None, content_length: 0 }
    }

    /// Takes note of the bytes read so far: the first time the head is
    /// complete, its end and `Content-Length` (0 when absent) are kept.
    pub fn observe(&mut self, buffer: &[u8])
        requires
            old(self).header_end matches Some(e) ==> e + 4 <= buffer@.len(),
        ensures
            old(self).header_end is Some ==> *final(self) == *old(self),
            old(self).header_end is None ==> match final(self).header_end {
                Some(e) => crlfcrlf_at(buffer@, e as int) && (forall|q: int| 0 <= q < e ==> !crlfcrlf_at(buffer@, q))
                    && final(self).content_length == match first_content_length(
                    text::text_lines(utf8_lossy(buffer@.take(e as int))),
                ) {
                    Some(v) => v,
                    None => 0usize,
                },
                None => (forall|q: int| !crlfcrlf_at(buffer@, q)) && final(self).content_length == old(self).content_length,
            },
            final(self).header_end matches Some(e) ==> e + 4 <= buffer@.len(),
    {
        if self.header_end.is_none() {
            match find_header_end(buffer) {
                Some(end) => {
                    let mut head: Vec<u8> = Vec::new();
                    let mut i: usize = 0;
                    while i < end
                        invariant
                            i <= end,
                            end + 4 <= buffer@.len(),
                            head@ == buffer@.take(i as int),
                        decreases end - i,
                    {
                        head.push(buffer[i]);
                        i = i + 1;
                        assert(head@ =~= buffer@.take(i as int));
                    }
                    self.header_end = Some(end);
                    self.content_length = match content_length_from_headers(head.as_slice()) {
                        Some(v) => v,
                        None => 0,
                    };
                },
                None => {},
            }
        }
    }

    /// Whether `decide` may be called: the announced end of the request fits in a `usize`.
    pub fn length_fits(&self) -> (b: bool)
        ensures
            b == (self.header_end matches Some(e) ==> e + 4 + self.content_length <= usize::MAX),
    {
        match self.header_end {
            Some(e) => e <= usize::MAX - 4 && self.content_length <= usize::MAX - 4 - e,
            None => true,
        }
    }

    /// Done once the head and `Content-Length` bytes of body are in; too
    /// large past `MAX_REQUEST_BYTES`; otherwise read on.
    pub fn decide(&self, buffer_len: usize) -> (d: ReadDecision)
        requires
            self.header_end matches Some(e) ==> e + 4 + self.content_length <= usize::MAX,
        ensures
            d == if (self.header_end matches Some(e) && buffer_len >= e + 4 + self.content_length) {
                ReadDecision::Complete
            } else if buffer_len > MAX_REQUEST_BYTES {
                ReadDecision::TooLarge
            } else {
                ReadDecision::Continue
            },
    {
        match self.header_end {
            Some(e) => {
                if buffer_len >= e + 4 + self.content_length {
                    return ReadDecision::Complete;
                }
            },
            None => {},
        }
        if buffer_len > MAX_REQUEST_BYTES {
            ReadDecision::TooLarge
        } else {
            ReadDecision::Continue
        }
    }
}

// ───────────────────────── events and routing ─────────────────────────

pub open spec fn event_char_kept(c: char) -> bool {
    ('a' <= c && c <= 'z') || ('A' <= c && c <= 'Z') || ('0' <= c && c <= '9') || c == '_' || c == '-' || c == '.'
}

/// A renderer event name made safe for the log: ASCII letters, digits, `_`,
/// `-` and `.` stay, every other character becomes `_`; an empty name
/// becomes `event`.
pub open spec fn sanitize_spec(event: Seq<char>) -> Seq<char> {
    if event.len() == 0 {
        "event"@
    } else {
        Seq::new(event.len(), |i: int| if event_char_kept(event[i]) { event[i] } else { '_' })
    }
}

pub fn sanitize_diagnostic_event(event: &str) -> (s: String)
    ensures
        s@ == sanitize_spec(event@),
{
    let chars = text::chars_of(event);
    if chars.len() == 0 {
        let e = text::chars_of("event");
        return text::string_from_chars(e.as_slice());
    }
    let mut out: Vec<char> = Vec::new();
    let mut i: usize = 0;
    while i < chars.len()
        invariant
            i <= chars@.len(),
            out@.len() == i,
            forall|j: int| 0 <= j < i ==> #[trigger] out@[j] == if event_char_kept(chars@[j]) { chars@[j] } else { '_' },
        decreases chars.len() - i,
    {
        let c = chars[i];
        let keep = ('a' <= c && c <= 'z') || ('A' <= c && c <= 'Z') || ('0' <= c && c <= '9') || c == '_' || c == '-'
            || c == '.';
        out.push(if keep { c } else { '_' });
        i = i + 1;
    }
    assert(out@ =~= sanitize_spec(event@));
    text::string_from_chars(out.as_slice())
}

/// Where the helper sends a request.
#[derive(Debug, Clone, Copy, PartialEq, Eq, Structural)]
pub enum HelperRoute {
    ResponsesProxy,
    ChatCompletionsProxy,
    ModelsProxy,
    ProxyStats,
    Config,
    BackendStatus,
    BackendRepair,
    DiagnosticsLog,
    NotFound,
}

/// Which protocol-proxy endpoint, if any, a path names.
#[derive(Debug, Clone, Copy)]
pub struct ProxyPathKind {
    pub responses: bool,
    pub chat_completions: bool,
    pub models: bool,
}

pub open spec fn route_spec(method: Seq<char>, path: Seq<char>, kind: ProxyPathKind) -> HelperRoute {
    if kind.responses && method == "POST"@ {
        HelperRoute::ResponsesProxy
    } else if kind.chat_completions && method == "POST"@ {
        HelperRoute::ChatCompletionsProxy
    } else if kind.models && (method == "GET"@ || method == "OPTIONS"@) {
        HelperRoute::ModelsProxy
    } else if path == "/proxy-stats"@ && method == "GET"@ {
        HelperRoute::ProxyStats
    } else if path == "/config"@ && method == "GET"@ {
        HelperRoute::Config
    } else if path == "/backend/status"@ && (method == "GET"@ || method == "POST"@ || method == "OPTIONS"@) {
        HelperRoute::BackendStatus
    } else if path == "/backend/repair"@ && (method == "GET"@ || method == "POST"@ || method == "OPTIONS"@) {
        HelperRoute::BackendRepair
    } else if path == "/diagnostics/log"@ && (method == "POST"@ || method == "OPTIONS"@) {
        HelperRoute::DiagnosticsLog
    } else {
        HelperRoute::NotFound
    }
}

fn is_lit(s: &String, lit: &str) -> (b: bool)
    ensures
        b == (s@ == lit@),
{
    let v = text::chars_of(lit);
    let l = text::string_from_chars(v.as_slice());
    *s == l
}

/// The handler for a request, by method and path; the protocol-proxy
/// endpoints come first, in the order responses, chat completions, models.
pub fn route_helper_request(method: &String, path: &String, kind: ProxyPathKind) -> (r: HelperRoute)
    ensures
        r == route_spec(method@, path@, kind),
{
    let post = is_lit(method, "POST");
    let get = is_lit(method, "GET");
    let options = is_lit(method, "OPTIONS");
    if kind.responses && post {
        HelperRoute::ResponsesProxy
    } else if kind.chat_completions && post {
        HelperRoute::ChatCompletionsProxy
    } else if kind.models && (get || options) {
        HelperRoute::ModelsProxy
    } else if is_lit(path, "/proxy-stats") && get {
        HelperRoute::ProxyStats
    } else if is_lit(path, "/config") && get {
        HelperRoute::Config
    } else if is_lit(path, "/backend/status") && (get || post || options) {
        HelperRoute::BackendStatus
    } else if is_lit(path, "/backend/repair") && (get || post || options) {
        HelperRoute::BackendRepair
    } else if is_lit(path, "/diagnostics/log") && (post || options) {
        HelperRoute::DiagnosticsLog
    } else {
        HelperRoute::NotFound
    }
}

/// How a request is routed. A protocol-proxy endpoint is served only for
/// the methods it takes (POST for responses and chat completions, GET or
/// OPTIONS for models), responses first; a POST to the chat-completions
/// endpoint goes to the chat-completions proxy unless the path is also the
/// responses endpoint; on a path that names no proxy endpoint, each helper
/// path answers its own methods and everything else is unknown.
pub proof fn lemma_routing(method: Seq<char>, path: Seq<char>, kind: ProxyPathKind)
    ensures
        kind.responses && method == "POST"@ ==> route_spec(method, path, kind) == HelperRoute::ResponsesProxy,
        !kind.responses && kind.chat_completions && method == "POST"@ ==> route_spec(method, path, kind)
            == HelperRoute::ChatCompletionsProxy,
        route_spec(method, path, kind) == HelperRoute::ResponsesProxy ==> kind.responses && method == "POST"@,
        route_spec(method, path, kind) == HelperRoute::ChatCompletionsProxy ==> kind.chat_completions && method
            == "POST"@,
        route_spec(method, path, kind) == HelperRoute::ModelsProxy ==> kind.models && (method == "GET"@ || method
            == "OPTIONS"@),
        !kind.responses && !kind.chat_completions && !kind.models ==> {
            &&& path == "/proxy-stats"@ && method == "GET"@ ==> route_spec(method, path, kind) == HelperRoute::ProxyStats
            &&& path == "/config"@ && method == "GET"@ ==> route_spec(method, path, kind) == HelperRoute::Config
            &&& path == "/backend/status"@ && (method == "GET"@ || method == "POST"@ || method == "OPTIONS"@)
                ==> route_spec(method, path, kind) == HelperRoute::BackendStatus
            &&& path == "/backend/repair"@ && (method == "GET"@ || method == "POST"@ || method == "OPTIONS"@)
                ==> route_spec(method, path, kind) == HelperRoute::BackendRepair
            &&& path == "/diagnostics/log"@ && (method == "POST"@ || method == "OPTIONS"@) ==> route_spec(
                method,
                path,
                kind,
            ) == HelperRoute::DiagnosticsLog
        },
{
    reveal_strlit("POST");
    reveal_strlit("GET");
    reveal_strlit("OPTIONS");
    reveal_strlit("/proxy-stats");
    reveal_strlit("/config");
    reveal_strlit("/backend/status");
    reveal_strlit("/backend/repair");
    reveal_strlit("/diagnostics/log");
    assert("/backend/status"@[9] != "/backend/repair"@[9]);
    assert("/config"@[1] == 'c' && "/proxy-stats"@[1] == 'p' && "/backend/status"@[1] == 'b');
    assert("/backend/repair"@[1] == 'b' && "/diagnostics/log"@[1] == 'd');
    assert("POST"@[0] == 'P' && "GET"@[0] == 'G' && "OPTIONS"@[0] == 'O');
    assert("/backend/status"@ != "/backend/repair"@);
    assert("/config"@ != "/proxy-stats"@);
    assert("/backend/status"@ != "/proxy-stats"@);
    assert("/backend/status"@ != "/config"@);
    assert("/backend/repair"@ != "/proxy-stats"@);
    assert("/backend/repair"@ != "/config"@);
    assert("/diagnostics/log"@ != "/proxy-stats"@);
    assert("/diagnostics/log"@ != "/config"@);
    assert("/diagnostics/log"@ != "/backend/status"@);
    assert("/diagnostics/log"@ != "/backend/repair"@);
    assert("POST"@ != "GET"@);
    assert("OPTIONS"@ != "GET"@);
}

// ───────────────────────── responses ─────────────────────────

/// The CORS headers every helper response carries.
pub open spec fn cors_headers() -> Seq<char> {
    "Access-Control-Allow-Origin: *\r\nAccess-Control-Allow-Methods: GET, POST, OPTIONS\r\nAccess-Control-Allow-Headers: Content-Type, Authorization\r\n"@
}

fn push_str(v: &mut Vec<char>, s: &str)
    ensures
        final(v)@ == old(v)@ + s@,
{
    let c = text::chars_of(s);
    text::push_all(v, c.as_slice());
}

/// The head of a complete response with a body of `body_len` bytes.
pub fn http_response_head(status: &str, content_type: &str, body_len: usize) -> (s: String)
    ensures
        s@ == "HTTP/1.1 "@ + status@ + "\r\nContent-Type: "@ + content_type@ + "\r\n"@ + cors_headers()
            + "Content-Length: "@ + text::decimal(body_len as nat) + "\r\nConnection: close\r\n\r\n"@,
{
    let mut v: Vec<char> = Vec::new();
    push_str(&mut v, "HTTP/1.1 ");
    push_str(&mut v, status);
    push_str(&mut v, "\r\nContent-Type: ");
    push_str(&mut v, content_type);
    push_str(&mut v, "\r\n");
    push_str(&mut v, "Access-Control-Allow-Origin: *\r\nAccess-Control-Allow-Methods: GET, POST, OPTIONS\r\nAccess-Control-Allow-Headers: Content-Type, Authorization\r\n");
    push_str(&mut v, "Content-Length: ");
    let d = text::decimal_chars(body_len as u64);
    text::push_all(&mut v, d.as_slice());
    push_str(&mut v, "\r\nConnection: close\r\n\r\n");
    text::string_from_chars(v.as_slice())
}

/// The head of a streamed (event-stream) response.
pub fn http_stream_head(status: &str, content_type: &str) -> (s: String)
    ensures
        s@ == "HTTP/1.1 "@ + status@ + "\r\nContent-Type: "@ + content_type@ + "\r\nCache-Control: no-cache\r\n"@
            + cors_headers() + "Connection: close\r\n\r\n"@,
{
    let mut v: Vec<char> = Vec::new();
    push_str(&mut v, "HTTP/1.1 ");
    push_str(&mut v, status);
    push_str(&mut v, "\r\nContent-Type: ");
    push_str(&mut v, content_type);
    push_str(&mut v, "\r\nCache-Control: no-cache\r\n");
    push_str(&mut v, "Access-Control-Allow-Origin: *\r\nAccess-Control-Allow-Methods: GET, POST, OPTIONS\r\nAccess-Control-Allow-Headers: Content-Type, Authorization\r\n");
    push_str(&mut v, "Connection: close\r\n\r\n");
    text::string_from_chars(v.as_slice())
}

/// The whole response to an `OPTIONS` request for a helper endpoint.
pub fn options_response_head() -> (s: String)
    ensures
        s@ == "HTTP/1.1 204 No Content\r\n"@ + cors_headers() + "Content-Length: 0\r\nConnection: close\r\n\r\n"@,
{
    let mut v: Vec<char> = Vec::new();
    push_str(&mut v, "HTTP/1.1 204 No Content\r\n");
    push_str(&mut v, "Access-Control-Allow-Origin: *\r\nAccess-Control-Allow-Methods: GET, POST, OPTIONS\r\nAccess-Control-Allow-Headers: Content-Type, Authorization\r\n");
    push_str(&mut v, "Content-Length: 0\r\nConnection: close\r\n\r\n");
    text::string_from_chars(v.as_slice())
}

/// The name the renderer shows for the configured model: the model when set,
/// else the provider's display name unless it is empty or `custom`, else the
/// provider id.
pub fn config_display_name(model: &String, provider_name: &String, model_provider: &String) -> (s: String)
    ensures
        s@ == if model@.len() > 0 {
            model@
        } else if provider_name@.len() > 0 && provider_name@ != "custom"@ {
            provider_name@
        } else {
            model_provider@
        },
{
    if !model.as_str().is_empty() {
        model.clone()
    } else if !provider_name.as_str().is_empty() && !is_lit(provider_name, "custom") {
        provider_name.clone()
    } else {
        model_provider.clone()
    }
}

} // verus!
