//! The response capture filter: logs the status, headers and body of
//! matching HTTP responses, as JSON or as plain text.

use vstd::prelude::*;
use crate::grpc::{text_or_empty, truncate_payload};
use crate::json::{json_escape, push_json_escaped};
use crate::proto::copy_strings;
use crate::text::{decimal, push_char, push_decimal, push_text, text_equals, utf8_string};

verus! {

/// Configuration of the response capture filter.
#[derive(Debug)]
pub struct PluginConfig {
    /// HTTP status codes to capture (empty = all)
    pub status_codes: Vec<u16>,
    /// Path prefixes to capture (empty = all)
    pub path_prefixes: Vec<String>,
    /// Capture response headers
    pub capture_headers: bool,
    /// Capture response body
    pub capture_body: bool,
    /// Max response body bytes to capture (0 = unlimited)
    pub max_body_bytes: usize,
    /// Custom header to tag captured responses (value is set to "true" on matched responses)
    pub capture_tag_header: String,
    /// Log output format: "json" or "plain"
    pub output_format: String,
}

pub fn default_true() -> (b: bool)
    ensures
        b,
{
    true
}

pub fn default_capture_header() -> (s: String)
    ensures
        s@ == "x-response-captured"@,
{
    String::from_str("x-response-captured")
}

pub fn default_format() -> (s: String)
    ensures
        s@ == "json"@,
{
    String::from_str("json")
}

impl Default for PluginConfig {
    fn default() -> (c: Self)
        ensures
            c.status_codes@.len() == 0,
            c.path_prefixes@.len() == 0,
            c.capture_headers,
            c.capture_body,
            c.max_body_bytes == 0,
            c.capture_tag_header@ == "x-response-captured"@,
            c.output_format@ == "json"@,
    {
        PluginConfig {
            status_codes: Vec::new(),
            path_prefixes: Vec::new(),
            capture_headers: true,
            capture_body: true,
            max_body_bytes: 0,
            capture_tag_header: default_capture_header(),
            output_format: default_format(),
        }
    }
}

/// Two configurations hold the same settings.
pub open spec fn same_config(a: PluginConfig, b: PluginConfig) -> bool {
    &&& a.status_codes@ == b.status_codes@
    &&& a.path_prefixes.deep_view() == b.path_prefixes.deep_view()
    &&& a.capture_headers == b.capture_headers
    &&& a.capture_body == b.capture_body
    &&& a.max_body_bytes == b.max_body_bytes
    &&& a.capture_tag_header@ == b.capture_tag_header@
    &&& a.output_format@ == b.output_format@
}

impl PluginConfig {
    /// A copy with the same settings.
    pub fn duplicate(&self) -> (c: PluginConfig)
        ensures
            same_config(c, *self),
    {
        let codes = self.status_codes.clone();
        assert(codes@ =~= self.status_codes@);
        PluginConfig {
            status_codes: codes,
            path_prefixes: copy_strings(&self.path_prefixes),
            capture_headers: self.capture_headers,
            capture_body: self.capture_body,
            max_body_bytes: self.max_body_bytes,
            capture_tag_header: self.capture_tag_header.clone(),
            output_format: self.output_format.clone(),
        }
    }
}

// ---------------------------------------------------------------------------
// Text of the log lines
// ---------------------------------------------------------------------------

/// `s` begins with `prefix`.
pub open spec fn has_prefix(s: Seq<char>, prefix: Seq<char>) -> bool {
    prefix.len() <= s.len() && s.take(prefix.len() as int) == prefix
}

/// The captured body as text: the body cut to the limit, as UTF-8 text when
/// valid and as a note of its size otherwise; empty when the body is not
/// captured or empty.
pub open spec fn body_text(capture_body: bool, body: Seq<u8>, max: usize) -> Seq<char> {
    if capture_body && body.len() > 0 {
        let shown = truncate_payload(body, max);
        if vstd::utf8::valid_utf8(shown) {
            vstd::utf8::decode_utf8(shown)
        } else {
            "<binary "@ + decimal(shown.len()) + " bytes>"@
        }
    } else {
        seq![]
    }
}

/// A header as a JSON member, name and value escaped as JSON strings.
pub open spec fn header_json(h: (Seq<char>, Seq<char>)) -> Seq<char> {
    "\""@ + json_escape(h.0) + "\":\""@ + json_escape(h.1) + "\""@
}

/// Headers as JSON members separated by commas.
pub open spec fn headers_json(hs: Seq<(Seq<char>, Seq<char>)>) -> Seq<char>
    decreases hs.len(),
{
    if hs.len() == 0 {
        seq![]
    } else if hs.len() == 1 {
        header_json(hs[0])
    } else {
        headers_json(hs.drop_last()) + ","@ + header_json(hs.last())
    }
}

/// The prefix of every line: the context in brackets.
pub open spec fn ctx_prefix(context_id: u32) -> Seq<char> {
    "[ctx="@ + decimal(context_id as nat) + "]"@
}

/// The JSON log line: after the context prefix, a JSON object whose string
/// members (method, path, header names and values, body) are escaped as
/// JSON strings.
pub open spec fn json_line(
    context_id: u32,
    method: Seq<char>,
    path: Seq<char>,
    status: u16,
    body_len: nat,
    headers: Seq<char>,
    body: Seq<char>,
) -> Seq<char> {
    ctx_prefix(context_id) + " {\"method\":\""@ + json_escape(method) + "\",\"path\":\""@ + json_escape(path)
        + "\",\"status\":"@ + decimal(status as nat) + ",\"body_bytes\":"@ + decimal(body_len)
        + ",\"headers\":{"@ + headers + "},\"body\":\""@ + json_escape(body) + "\"}"@
}

/// The first plain log line.
pub open spec fn plain_line(context_id: u32, method: Seq<char>, path: Seq<char>, status: u16, body_len: nat) -> Seq<char> {
    ctx_prefix(context_id) + " "@ + method + " "@ + path + " -> "@ + decimal(status as nat) + " ("@
        + decimal(body_len) + " bytes)"@
}

/// A plain line for one header.
pub open spec fn plain_header_line(context_id: u32, h: (Seq<char>, Seq<char>)) -> Seq<char> {
    ctx_prefix(context_id) + "   "@ + h.0 + ": "@ + h.1
}

/// The plain line for the body.
pub open spec fn plain_body_line(context_id: u32, body: Seq<char>) -> Seq<char> {
    ctx_prefix(context_id) + "   body: "@ + body
}

/// Headers as pairs of character sequences.
pub open spec fn headers_text(h: Seq<(String, String)>) -> Seq<(Seq<char>, Seq<char>)> {
    h.map_values(|p: (String, String)| (p.0@, p.1@))
}

/// The per-request state of the response capture filter.
pub struct ResponseCaptureHttp {
    context_id: u32,
    config: PluginConfig,
    request_path: Option<String>,
    request_method: Option<String>,
    response_status: Option<u16>,
    response_headers: Vec<(String, String)>,
    response_body: Vec<u8>,
    should_capture: bool,
}

/// Appends the context prefix.
fn push_ctx(out: &mut String, context_id: u32)
    ensures
        final(out)@ == old(out)@ + ctx_prefix(context_id),
{
    push_text(out, "[ctx=");
    push_decimal(out, context_id as u64);
    push_text(out, "]");
    assert(final(out)@ =~= old(out)@ + ctx_prefix(context_id));
}

impl ResponseCaptureHttp {
    pub fn new(context_id: u32, config: PluginConfig) -> (h: Self)
        ensures
            h.context_id() == context_id,
            same_config(h.config(), config),
            h.request_path() is None,
            h.request_method() is None,
            h.response_status() is None,
            h.response_headers()@.len() == 0,
            h.response_body()@.len() == 0,
            !h.capturing(),
    {
        ResponseCaptureHttp {
            context_id,
            config,
            request_path: None,
            request_method: None,
            response_status: None,
            response_headers: Vec::new(),
            response_body: Vec::new(),
            should_capture: false,
        }
    }

    pub closed spec fn context_id(&self) -> u32 {
        self.context_id
    }

    pub closed spec fn config(&self) -> PluginConfig {
        self.config
    }

    pub closed spec fn request_path(&self) -> Option<String> {
        self.request_path
    }

    pub closed spec fn request_method(&self) -> Option<String> {
        self.request_method
    }

    pub closed spec fn response_status(&self) -> Option<u16> {
        self.response_status
    }

    pub closed spec fn response_headers(&self) -> Vec<(String, String)> {
        self.response_headers
    }

    pub closed spec fn response_body(&self) -> Vec<u8> {
        self.response_body
    }

    pub closed spec fn capturing(&self) -> bool {
        self.should_capture
    }

    /// The configuration in force.
    pub fn plugin_config(&self) -> (c: &PluginConfig)
        ensures
            *c == self.config(),
    {
        &self.config
    }

    /// Whether the path is captured: no prefixes, or it starts with one.
    pub open spec fn spec_path_matches(&self, path: Seq<char>) -> bool {
        self.config().path_prefixes@.len() == 0 || exists|i: int|
            0 <= i < self.config().path_prefixes@.len() && has_prefix(
                path,
                #[trigger] self.config().path_prefixes@[i]@,
            )
    }

    /// Whether the status is captured: no codes, or it is one of them.
    pub open spec fn spec_status_matches(&self, status: u16) -> bool {
        self.config().status_codes@.len() == 0 || self.config().status_codes@.contains(status)
    }

    fn path_matches(&self, path: &str) -> (r: bool)
        ensures
            r == self.spec_path_matches(path@),
    {
        if self.config.path_prefixes.len() == 0 {
            return true;
        }
        let mut i: usize = 0;
        while i < self.config.path_prefixes.len()
            invariant
                i <= self.config.path_prefixes.len(),
                forall|j: int| 0 <= j < i ==> !has_prefix(path@, #[trigger] self.config.path_prefixes@[j]@),
            decreases self.config.path_prefixes.len() - i,
        {
            if starts_with(path, self.config.path_prefixes[i].as_str()) {
                return true;
            }
            i = i + 1;
        }
        false
    }

    fn status_matches(&self, status: u16) -> (r: bool)
        ensures
            r == self.spec_status_matches(status),
    {
        if self.config.status_codes.len() == 0 {
            return true;
        }
        let mut i: usize = 0;
        while i < self.config.status_codes.len()
            invariant
                i <= self.config.status_codes.len(),
                forall|j: int| 0 <= j < i ==> self.config.status_codes@[j] != status,
            decreases self.config.status_codes.len() - i,
        {
            if self.config.status_codes[i] == status {
                assert(self.config.status_codes@[i as int] == status);
                return true;
            }
            i = i + 1;
        }
        false
    }

    /// The path, method and status shown in the log: "-", "-" and 0 when unknown.
    pub open spec fn shown_path(&self) -> Seq<char> {
        match self.request_path() {
            Some(p) => p@,
            None => "-"@,
        }
    }

    pub open spec fn shown_method(&self) -> Seq<char> {
        match self.request_method() {
            Some(m) => m@,
            None => "-"@,
        }
    }

    pub open spec fn shown_status(&self) -> u16 {
        match self.response_status() {
            Some(s) => s,
            None => 0,
        }
    }

    pub open spec fn shown_body(&self) -> Seq<char> {
        body_text(self.config().capture_body, self.response_body()@, self.config().max_body_bytes)
    }

    /// The lines logged for a captured response: one JSON line when the
    /// format is "json"; otherwise a summary line, a line per header when
    /// headers are captured, and a body line when there is body text.
    pub open spec fn spec_capture_lines(&self) -> Seq<Seq<char>> {
        let hs = headers_text(self.response_headers()@);
        if self.config().output_format@ == "json"@ {
            seq![
                json_line(
                    self.context_id(),
                    self.shown_method(),
                    self.shown_path(),
                    self.shown_status(),
                    self.response_body()@.len(),
                    if self.config().capture_headers {
                        headers_json(hs)
                    } else {
                        seq![]
                    },
                    self.shown_body(),
                ),
            ]
        } else {
            seq![
                plain_line(
                    self.context_id(),
                    self.shown_method(),
                    self.shown_path(),
                    self.shown_status(),
                    self.response_body()@.len(),
                ),
            ] + (if self.config().capture_headers {
                hs.map_values(|h: (Seq<char>, Seq<char>)| plain_header_line(self.context_id(), h))
            } else {
                seq![]
            }) + (if self.shown_body().len() > 0 {
                seq![plain_body_line(self.context_id(), self.shown_body())]
            } else {
                seq![]
            })
        }
    }

    /// The captured body as text.
    fn captured_body_text(&self) -> (s: String)
        ensures
            s@ == self.shown_body(),
    {
        if self.config.capture_body && self.response_body.len() > 0 {
            let max = self.config.max_body_bytes;
            let n = self.response_body.len();
            let shown_len: usize = if max > 0 && n > max {
                max
            } else {
                n
            };
            let shown = &self.response_body.as_slice()[0..shown_len];
            assert(shown@ =~= truncate_payload(self.response_body@, max));
            match utf8_string(vstd::slice::slice_to_vec(shown)) {
                Some(text) => text,
                None => {
                    let mut s = String::new();
                    push_text(&mut s, "<binary ");
                    push_decimal(&mut s, shown_len as u64);
                    push_text(&mut s, " bytes>");
                    assert(s@ =~= "<binary "@ + decimal(shown@.len()) + " bytes>"@);
                    s
                },
            }
        } else {
            String::new()
        }
    }

    /// Appends the headers as JSON members separated by commas.
    fn push_headers_json(&self, out: &mut String)
        ensures
            final(out)@ == old(out)@ + headers_json(headers_text(self.response_headers()@)),
    {
        let ghost start = out@;
        let ghost hs = headers_text(self.response_headers@);
        let mut i: usize = 0;
        assert(hs.take(0) =~= seq![]);
        while i < self.response_headers.len()
            invariant
                i <= self.response_headers.len(),
                hs == headers_text(self.response_headers@),
                out@ == start + headers_json(hs.take(i as int)),
            decreases self.response_headers.len() - i,
        {
            let (k, v) = &self.response_headers[i];
            assert(hs.take(i + 1).drop_last() =~= hs.take(i as int));
            assert(hs.take(i + 1).last() == (k@, v@));
            if i > 0 {
                push_text(out, ",");
            }
            push_text(out, "\"");
            push_json_escaped(out, k.as_str());
            push_text(out, "\":\"");
            push_json_escaped(out, v.as_str());
            push_text(out, "\"");
            assert(out@ =~= start + headers_json(hs.take(i + 1)));
            i = i + 1;
        }
        assert(hs.take(self.response_headers.len() as int) =~= hs);
    }

    /// The lines to log for the captured response.
    fn log_capture(&self) -> (lines: Vec<String>)
        ensures
            lines.deep_view() == self.spec_capture_lines(),
    {
        let path: &str = match &self.request_path {
            Some(p) => p.as_str(),
            None => "-",
        };
        let method: &str = match &self.request_method {
            Some(m) => m.as_str(),
            None => "-",
        };
        let status: u16 = match self.response_status {
            Some(s) => s,
            None => 0,
        };
        let body_str = self.captured_body_text();
        let ghost hs = headers_text(self.response_headers@);
        let mut lines: Vec<String> = Vec::new();
        if text_equals(self.config.output_format.as_str(), "json") {
            let mut line = String::new();
            push_ctx(&mut line, self.context_id);
            push_text(&mut line, " {\"method\":\"");
            push_json_escaped(&mut line, method);
            push_text(&mut line, "\",\"path\":\"");
            push_json_escaped(&mut line, path);
            push_text(&mut line, "\",\"status\":");
            push_decimal(&mut line, status as u64);
            push_text(&mut line, ",\"body_bytes\":");
            push_decimal(&mut line, self.response_body.len() as u64);
            push_text(&mut line, ",\"headers\":{");
            if self.config.capture_headers {
                self.push_headers_json(&mut line);
            }
            push_text(&mut line, "},\"body\":\"");
            push_json_escaped(&mut line, body_str.as_str());
            push_text(&mut line, "\"}");
            let ghost expected = json_line(
                self.context_id,
                method@,
                path@,
                status,
                self.response_body@.len(),
                if self.config.capture_headers {
                    headers_json(hs)
                } else {
                    seq![]
                },
                body_str@,
            );
            assert(line@ =~= expected);
            lines.push(line);
            assert(lines.deep_view() =~= self.spec_capture_lines());
        } else {
            let mut first = String::new();
            push_ctx(&mut first, self.context_id);
            push_text(&mut first, " ");
            push_text(&mut first, method);
            push_text(&mut first, " ");
            push_text(&mut first, path);
            push_text(&mut first, " -> ");
            push_decimal(&mut first, status as u64);
            push_text(&mut first, " (");
            push_decimal(&mut first, self.response_body.len() as u64);
            push_text(&mut first, " bytes)");
            assert(first@ =~= plain_line(self.context_id, method@, path@, status, self.response_body@.len()));
            lines.push(first);
            let ghost head = lines.deep_view();
            let ghost header_lines = if self.config.capture_headers {
                hs.map_values(|h: (Seq<char>, Seq<char>)| plain_header_line(self.context_id, h))
            } else {
                seq![]
            };
            if self.config.capture_headers {
                let mut i: usize = 0;
                assert(header_lines.take(0) =~= seq![]);
                while i < self.response_headers.len()
                    invariant
                        i <= self.response_headers.len(),
                        self.config.capture_headers,
                        hs == headers_text(self.response_headers@),
                        header_lines == hs.map_values(|h: (Seq<char>, Seq<char>)| plain_header_line(self.context_id, h)),
                        lines.deep_view() == head + header_lines.take(i as int),
                    decreases self.response_headers.len() - i,
                {
                    let (k, v) = &self.response_headers[i];
                    let mut line = String::new();
                    push_ctx(&mut line, self.context_id);
                    push_text(&mut line, "   ");
                    push_text(&mut line, k.as_str());
                    push_text(&mut line, ": ");
                    push_text(&mut line, v.as_str());
                    assert(hs[i as int] == (k@, v@));
                    assert(line@ =~= header_lines[i as int]);
                    let ghost before = lines.deep_view();
                    lines.push(line);
                    assert(lines.deep_view() =~= before.push(header_lines[i as int]));
                    assert(header_lines.take(i + 1) =~= header_lines.take(i as int).push(header_lines[i as int]));
                    i = i + 1;
                }
                assert(header_lines.take(self.response_headers.len() as int) =~= header_lines);
            } else {
                assert(lines.deep_view() =~= head + header_lines);
            }
            if body_str.as_str().unicode_len() > 0 {
                let mut line = String::new();
                push_ctx(&mut line, self.context_id);
                push_text(&mut line, "   body: ");
                push_text(&mut line, body_str.as_str());
                assert(line@ =~= plain_body_line(self.context_id, body_str@));
                let ghost before = lines.deep_view();
                lines.push(line);
                assert(lines.deep_view() =~= before.push(plain_body_line(self.context_id, body_str@)));
            }
            assert(lines.deep_view() =~= self.spec_capture_lines());
        }
        lines
    }

    /// Handle the request headers: a captured path is recorded with the
    /// method, and capturing starts.
    pub fn on_http_request_headers(&mut self, path: Option<String>, method: Option<String>)
        ensures
            final(self).config() == old(self).config(),
            final(self).context_id() == old(self).context_id(),
            final(self).response_status() == old(self).response_status(),
            final(self).response_body() == old(self).response_body(),
            final(self).response_headers() == old(self).response_headers(),
            if old(self).spec_path_matches(text_or_empty(path)) {
                &&& final(self).request_path() matches Some(p) && p@ == text_or_empty(path)
                &&& final(self).request_method() == method
                &&& final(self).capturing()
            } else {
                &&& final(self).request_path() == old(self).request_path()
                &&& final(self).request_method() == old(self).request_method()
                &&& final(self).capturing() == old(self).capturing()
            },
    {
        let path = match path {
            Some(p) => p,
            None => String::new(),
        };
        if self.path_matches(path.as_str()) {
            self.request_path = Some(path);
            self.request_method = method;
            self.should_capture = true;
        }
    }

    /// Handle the response headers of a captured request: a status that is
    /// not captured ends capturing; otherwise the status and, when configured,
    /// the headers are kept, and the tag header's name is returned to be set
    /// to "true".
    pub fn on_http_response_headers(&mut self, status: Option<String>, headers: Vec<(String, String)>) -> (tag: Option<String>)
        ensures
            final(self).config() == old(self).config(),
            final(self).context_id() == old(self).context_id(),
            final(self).request_path() == old(self).request_path(),
            final(self).request_method() == old(self).request_method(),
            final(self).response_body() == old(self).response_body(),
            ({
                let code: u16 = match status {
                    Some(s) => match crate::text::spec_parse_unsigned(s@, 65535) {
                        Some(v) => v as u16,
                        None => 0,
                    },
                    None => 0,
                };
                if !old(self).capturing() {
                    tag is None && *final(self) == *old(self)
                } else if !old(self).spec_status_matches(code) {
                    &&& tag is None
                    &&& !final(self).capturing()
                    &&& final(self).response_status() == old(self).response_status()
                    &&& final(self).response_headers() == old(self).response_headers()
                } else {
                    &&& tag matches Some(t) && t@ == old(self).config().capture_tag_header@
                    &&& final(self).capturing()
                    &&& final(self).response_status() == Some(code)
                    &&& final(self).response_headers() == if old(self).config().capture_headers {
                        headers
                    } else {
                        old(self).response_headers()
                    }
                }
            }),
    {
        if !self.should_capture {
            return None;
        }
        let code: u16 = match &status {
            Some(s) => match crate::text::parse_unsigned(s.as_str(), 65535) {
                Some(v) => v as u16,
                None => 0,
            },
            None => 0,
        };
        if !self.status_matches(code) {
            self.should_capture = false;
            return None;
        }
        self.response_status = Some(code);
        if self.config.capture_headers {
            self.response_headers = headers;
        }
        Some(self.config.capture_tag_header.clone())
    }

    /// Whether the filter reads the response body.
    pub fn wants_body(&self) -> (r: bool)
        ensures
            r == (self.capturing() && self.config().capture_body),
    {
        self.should_capture && self.config.capture_body
    }

    /// Handle a chunk of the response body: buffer it when the body is
    /// captured; at the end of the stream of a captured response, return the
    /// lines to log.
    pub fn on_http_response_body(&mut self, chunk: Option<Vec<u8>>, end_of_stream: bool) -> (lines: Vec<String>)
        ensures
            final(self).config() == old(self).config(),
            final(self).context_id() == old(self).context_id(),
            final(self).request_path() == old(self).request_path(),
            final(self).request_method() == old(self).request_method(),
            final(self).response_status() == old(self).response_status(),
            final(self).response_headers() == old(self).response_headers(),
            final(self).capturing() == old(self).capturing(),
            if old(self).capturing() && old(self).config().capture_body {
                final(self).response_body()@ == old(self).response_body()@ + match chunk {
                    Some(c) => c@,
                    None => seq![],
                }
            } else {
                final(self).response_body() == old(self).response_body()
            },
            lines.deep_view() == if end_of_stream && old(self).capturing() {
                final(self).spec_capture_lines()
            } else {
                seq![]
            },
    {
        if !self.should_capture || !self.config.capture_body {
            if end_of_stream && self.should_capture {
                return self.log_capture();
            }
            let none: Vec<String> = Vec::new();
            assert(none.deep_view() =~= seq![]);
            return none;
        }
        if let Some(c) = chunk {
            let mut c = c;
            self.response_body.append(&mut c);
        }
        if end_of_stream {
            return self.log_capture();
        }
        let none: Vec<String> = Vec::new();
        assert(none.deep_view() =~= seq![]);
        none
    }
}

/// Whether `s` begins with `prefix`.
fn starts_with(s: &str, prefix: &str) -> (r: bool)
    ensures
        r == has_prefix(s@, prefix@),
{
    let n = prefix.unicode_len();
    let m = s.unicode_len();
    if n > m {
        return false;
    }
    let mut i: usize = 0;
    while i < n
        invariant
            i <= n,
            n == prefix@.len(),
            m == s@.len(),
            n <= m,
            forall|j: int| 0 <= j < i ==> s@[j] == prefix@[j],
        decreases n - i,
    {
        if s.get_char(i) != prefix.get_char(i) {
            assert(s@.take(n as int)[i as int] != prefix@[i as int]);
            return false;
        }
        i = i + 1;
    }
    assert(s@.take(n as int) =~= prefix@);
    true
}

/// A path is captured exactly when the prefix list is empty or the path
/// begins, character for character, with one of the listed prefixes, at
/// whatever position in the list that prefix stands.
pub proof fn lemma_path_captured_iff_some_prefix(h: ResponseCaptureHttp, path: Seq<char>)
    ensures
        h.spec_path_matches(path) <==> (h.config().path_prefixes@.len() == 0 || exists|i: int|
            0 <= i < h.config().path_prefixes@.len() && (#[trigger] h.config().path_prefixes@[i])@.len()
                <= path.len() && forall|j: int|
                0 <= j < h.config().path_prefixes@[i]@.len() ==> path[j]
                    == h.config().path_prefixes@[i]@[j]),
{
    let ps = h.config().path_prefixes@;
    if ps.len() > 0 {
        if h.spec_path_matches(path) {
            let i = choose|i: int| 0 <= i < ps.len() && has_prefix(path, #[trigger] ps[i]@);
            assert forall|j: int| 0 <= j < ps[i]@.len() implies path[j] == ps[i]@[j] by {
                assert(path.take(ps[i]@.len() as int)[j] == path[j]);
            }
        }
        if exists|i: int|
            0 <= i < ps.len() && (#[trigger] ps[i])@.len() <= path.len() && forall|j: int|
                0 <= j < ps[i]@.len() ==> path[j] == ps[i]@[j] {
            let i = choose|i: int|
                0 <= i < ps.len() && (#[trigger] ps[i])@.len() <= path.len() && forall|j: int|
                    0 <= j < ps[i]@.len() ==> path[j] == ps[i]@[j];
            assert(path.take(ps[i]@.len() as int) =~= ps[i]@);
            assert(has_prefix(path, ps[i]@));
        }
    }
}

/// A status is captured exactly when the code list is empty or holds the
/// status at some position.
pub proof fn lemma_status_captured_iff_listed(h: ResponseCaptureHttp, status: u16)
    ensures
        h.spec_status_matches(status) <==> (h.config().status_codes@.len() == 0 || exists|i: int|
            0 <= i < h.config().status_codes@.len() && #[trigger] h.config().status_codes@[i]
                == status),
{
}

/// The root context of the response capture filter.
pub struct ResponseCaptureRoot {
    config: PluginConfig,
}

impl ResponseCaptureRoot {
    pub fn new(config: PluginConfig) -> (r: Self)
        ensures
            same_config(r.config(), config),
    {
        ResponseCaptureRoot { config }
    }

    pub closed spec fn config(&self) -> PluginConfig {
        self.config
    }

    /// Replace the configuration.
    pub fn set_config(&mut self, config: PluginConfig)
        ensures
            same_config(final(self).config(), config),
    {
        self.config = config;
    }

    /// A new HTTP context with the root's configuration.
    pub fn create_http_context(&self, context_id: u32) -> (h: ResponseCaptureHttp)
        ensures
            h.context_id() == context_id,
            same_config(h.config(), self.config()),
            !h.capturing(),
    {
        ResponseCaptureHttp::new(context_id, self.config.duplicate())
    }
}

} // verus!
