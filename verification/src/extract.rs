//! The gRPC extract filter: logs the decoded fields of gRPC request and
//! response payloads.

use vstd::prelude::*;
use crate::display::{decoded_fields_text, spec_fields_text};
use crate::grpc::{
    list_contains, name_allowed, parse_grpc_frames, parse_grpc_path, slices_view,
    spec_grpc_frames, spec_parse_grpc_path, starts_with_grpc, text_or_empty, truncate_payload,
};
use crate::proto::copy_strings;
use crate::text::{decimal, push_decimal, push_text};

verus! {

/// Configuration of the gRPC extract filter.
#[derive(Debug)]
pub struct PluginConfig {
    /// Log request bodies
    pub capture_request: bool,
    /// Log response bodies
    pub capture_response: bool,
    /// Only capture these gRPC services (empty = all)
    pub services: Vec<String>,
    /// Only capture these gRPC methods (empty = all)
    pub methods: Vec<String>,
    /// Max proto payload bytes to decode (0 = unlimited)
    pub max_payload_bytes: usize,
}

pub fn default_true() -> (b: bool)
    ensures
        b,
{
    true
}

impl Default for PluginConfig {
    fn default() -> (c: Self)
        ensures
            c.capture_request,
            c.capture_response,
            c.services@.len() == 0,
            c.methods@.len() == 0,
            c.max_payload_bytes == 0,
    {
        PluginConfig {
            capture_request: true,
            capture_response: true,
            services: Vec::new(),
            methods: Vec::new(),
            max_payload_bytes: 0,
        }
    }
}

/// Two configurations hold the same settings.
pub open spec fn same_config(a: PluginConfig, b: PluginConfig) -> bool {
    &&& a.capture_request == b.capture_request
    &&& a.capture_response == b.capture_response
    &&& a.services.deep_view() == b.services.deep_view()
    &&& a.methods.deep_view() == b.methods.deep_view()
    &&& a.max_payload_bytes == b.max_payload_bytes
}

impl PluginConfig {
    /// A copy with the same settings.
    pub fn duplicate(&self) -> (c: PluginConfig)
        ensures
            same_config(c, *self),
    {
        PluginConfig {
            capture_request: self.capture_request,
            capture_response: self.capture_response,
            services: copy_strings(&self.services),
            methods: copy_strings(&self.methods),
            max_payload_bytes: self.max_payload_bytes,
        }
    }
}

/// The per-request state of the gRPC extract filter.
pub struct GrpcExtractHttp {
    context_id: u32,
    config: PluginConfig,
    grpc_path: Option<String>,
    request_body: Vec<u8>,
    response_body: Vec<u8>,
}

/// The log line for a payload: the context, the direction, the path and the
/// decoded fields.
pub open spec fn spec_proto_line(context_id: u32, direction: Seq<char>, path: Seq<char>, payload: Seq<u8>) -> Seq<char> {
    "[ctx="@ + decimal(context_id as nat) + "] "@ + direction + " "@ + path
        + " | grpc_frames=decoded | fields="@ + spec_fields_text(payload)
}

/// One step of a body direction: the fields other than the direction's body
/// are kept; when the body is captured the chunk is buffered, and at the end
/// of the stream there is one log line per uncompressed frame, its payload cut
/// to the limit, and the buffer is cleared.
pub open spec fn body_step(
    pre: GrpcExtractHttp,
    post: GrpcExtractHttp,
    is_request: bool,
    chunk: Option<Vec<u8>>,
    end_of_stream: bool,
    lines: Vec<String>,
) -> bool {
    &&& post.config() == pre.config()
    &&& post.context_id() == pre.context_id()
    &&& post.grpc_path() == pre.grpc_path()
    &&& post.body_of(!is_request) == pre.body_of(!is_request)
    &&& {
        let wants = pre.grpc_path() is Some && if is_request {
            pre.config().capture_request
        } else {
            pre.config().capture_response
        };
        let body = pre.body_of(is_request) + match chunk {
            Some(c) => c@,
            None => seq![],
        };
        let frames = spec_grpc_frames(body);
        if !wants {
            lines@.len() == 0 && post.body_of(is_request) == pre.body_of(is_request)
        } else if !end_of_stream {
            lines@.len() == 0 && post.body_of(is_request) == body
        } else {
            &&& post.body_of(is_request).len() == 0
            &&& lines@.len() == frames.len()
            &&& forall|i: int| 0 <= i < frames.len() ==> (#[trigger] lines@[i])@ == spec_proto_line(
                pre.context_id(),
                if is_request { "REQUEST"@ } else { "RESPONSE"@ },
                text_or_empty(pre.grpc_path()),
                truncate_payload(frames[i], pre.config().max_payload_bytes),
            )
        }
    }
}

impl GrpcExtractHttp {
    pub fn new(context_id: u32, config: PluginConfig) -> (h: Self)
        ensures
            h.context_id() == context_id,
            same_config(h.config(), config),
            h.grpc_path() is None,
            h.body_of(true).len() == 0,
            h.body_of(false).len() == 0,
    {
        GrpcExtractHttp {
            context_id,
            config,
            grpc_path: None,
            request_body: Vec::new(),
            response_body: Vec::new(),
        }
    }

    pub closed spec fn context_id(&self) -> u32 {
        self.context_id
    }

    pub closed spec fn config(&self) -> PluginConfig {
        self.config
    }

    pub closed spec fn grpc_path(&self) -> Option<String> {
        self.grpc_path
    }

    /// The body buffered for one direction.
    pub closed spec fn body_of(&self, is_request: bool) -> Seq<u8> {
        if is_request {
            self.request_body@
        } else {
            self.response_body@
        }
    }

    /// Whether a gRPC call of this service and method is captured.
    pub open spec fn spec_should_capture(&self, service: Seq<char>, method: Seq<char>) -> bool {
        name_allowed(self.config().services.deep_view(), service) && name_allowed(
            self.config().methods.deep_view(),
            method,
        )
    }

    fn should_capture(&self, service: &str, method: &str) -> (r: bool)
        ensures
            r == self.spec_should_capture(service@, method@),
    {
        let service_match = self.config.services.len() == 0 || list_contains(
            &self.config.services,
            service,
        );
        let method_match = self.config.methods.len() == 0 || list_contains(
            &self.config.methods,
            method,
        );
        service_match && method_match
    }

    /// The log line for a payload.
    fn log_proto(&self, direction: &str, path: &str, payload: &[u8]) -> (line: String)
        ensures
            line@ == spec_proto_line(self.context_id(), direction@, path@, payload@),
    {
        let fields = decoded_fields_text(payload);
        let mut line = String::new();
        push_text(&mut line, "[ctx=");
        push_decimal(&mut line, self.context_id as u64);
        push_text(&mut line, "] ");
        push_text(&mut line, direction);
        push_text(&mut line, " ");
        push_text(&mut line, path);
        push_text(&mut line, " | grpc_frames=decoded | fields=");
        push_text(&mut line, fields.as_str());
        assert(line@ =~= spec_proto_line(self.context_id(), direction@, path@, payload@));
        line
    }

    /// Handle the request headers: a gRPC call (content type starting with
    /// "application/grpc") of a captured service and method is recorded;
    /// returns its service and method.
    pub fn on_http_request_headers(&mut self, content_type: Option<String>, path: Option<String>) -> (captured: Option<(String, String)>)
        ensures
            ({
                let ct = text_or_empty(content_type);
                let p = text_or_empty(path);
                let grpc = ct.len() >= 16 && ct.take(16) == "application/grpc"@;
                match spec_parse_grpc_path(p) {
                    Some((svc, m)) if grpc && old(self).spec_should_capture(svc, m) => {
                        &&& captured matches Some((s2, m2)) && s2@ == svc && m2@ == m
                        &&& final(self).grpc_path() matches Some(x) && x@ == p
                    },
                    _ => captured is None && final(self).grpc_path() == old(self).grpc_path(),
                }
            }),
            final(self).config() == old(self).config(),
            final(self).context_id() == old(self).context_id(),
            final(self).body_of(true) == old(self).body_of(true),
            final(self).body_of(false) == old(self).body_of(false),
    {
        let content_type = match content_type {
            Some(c) => c,
            None => String::new(),
        };
        if !starts_with_grpc(content_type.as_str()) {
            return None;
        }
        let path = match path {
            Some(p) => p,
            None => String::new(),
        };
        match parse_grpc_path(path.as_str()) {
            Some((service, method)) => {
                if self.should_capture(service, method) {
                    let s = String::from_str(service);
                    let m = String::from_str(method);
                    self.grpc_path = Some(path);
                    Some((s, m))
                } else {
                    None
                }
            },
            None => None,
        }
    }

    /// Whether the filter reads the request body (or the response body).
    pub fn wants_body(&self, is_request: bool) -> (r: bool)
        ensures
            r == (self.grpc_path() is Some && if is_request {
                self.config().capture_request
            } else {
                self.config().capture_response
            }),
    {
        self.grpc_path.is_some() && if is_request {
            self.config.capture_request
        } else {
            self.config.capture_response
        }
    }

    /// Handle a chunk of the request body (or of the response body): when the
    /// body is captured, buffer the chunk; at the end of the stream, return one
    /// log line per uncompressed frame, its payload cut to the limit, and clear
    /// the buffer.
    pub fn on_http_body(&mut self, is_request: bool, chunk: Option<Vec<u8>>, end_of_stream: bool) -> (lines: Vec<String>)
        ensures
            body_step(*old(self), *final(self), is_request, chunk, end_of_stream, lines),
    {
        let mut lines: Vec<String> = Vec::new();
        if !self.wants_body(is_request) {
            return lines;
        }
        if let Some(c) = chunk {
            let mut c = c;
            if is_request {
                self.request_body.append(&mut c);
            } else {
                self.response_body.append(&mut c);
            }
        }
        if !end_of_stream {
            return lines;
        }
        let path = match &self.grpc_path {
            Some(p) => p.clone(),
            None => String::new(),
        };
        let direction = if is_request {
            "REQUEST"
        } else {
            "RESPONSE"
        };
        let body = if is_request {
            self.request_body.clone()
        } else {
            self.response_body.clone()
        };
        let frames = parse_grpc_frames(body.as_slice());
        let ghost fs = spec_grpc_frames(body@);
        let max = self.config.max_payload_bytes;
        let mut i: usize = 0;
        while i < frames.len()
            invariant
                i <= frames.len(),
                slices_view(frames@) == fs,
                lines@.len() == i,
                max == self.config().max_payload_bytes,
                forall|k: int| 0 <= k < i ==> (#[trigger] lines@[k])@ == spec_proto_line(
                    self.context_id(),
                    direction@,
                    path@,
                    truncate_payload(fs[k], max),
                ),
            decreases frames.len() - i,
        {
            let frame: &[u8] = frames[i];
            assert(frame@ == fs[i as int]);
            let payload: &[u8] = if max > 0 && frame.len() > max {
                &frame[0..max]
            } else {
                frame
            };
            assert(payload@ =~= truncate_payload(frame@, max));
            let line = self.log_proto(direction, path.as_str(), payload);
            lines.push(line);
            i = i + 1;
        }
        if is_request {
            self.request_body.clear();
        } else {
            self.response_body.clear();
        }
        lines
    }

    /// Handle a chunk of the request body.
    pub fn on_http_request_body(&mut self, chunk: Option<Vec<u8>>, end_of_stream: bool) -> (lines: Vec<String>)
        ensures
            body_step(*old(self), *final(self), true, chunk, end_of_stream, lines),
    {
        self.on_http_body(true, chunk, end_of_stream)
    }

    /// Handle a chunk of the response body.
    pub fn on_http_response_body(&mut self, chunk: Option<Vec<u8>>, end_of_stream: bool) -> (lines: Vec<String>)
        ensures
            body_step(*old(self), *final(self), false, chunk, end_of_stream, lines),
    {
        self.on_http_body(false, chunk, end_of_stream)
    }
}

/// A call is captured exactly when each of the service and method lists is
/// empty or holds the call's name at some position; a call whose service is
/// missing from a non-empty service list is not captured, whatever its method.
pub proof fn lemma_captured_iff_listed(h: GrpcExtractHttp, service: Seq<char>, method: Seq<char>)
    ensures
        h.spec_should_capture(service, method) <==> ((h.config().services.deep_view().len() == 0
            || exists|i: int|
            0 <= i < h.config().services.deep_view().len()
                && #[trigger] h.config().services.deep_view()[i] == service) && (
        h.config().methods.deep_view().len() == 0 || exists|j: int|
            0 <= j < h.config().methods.deep_view().len()
                && #[trigger] h.config().methods.deep_view()[j] == method)),
        h.config().services.deep_view().len() > 0 && (forall|i: int|
            0 <= i < h.config().services.deep_view().len()
                ==> #[trigger] h.config().services.deep_view()[i] != service) ==> !h.spec_should_capture(
            service,
            method,
        ),
{
    let ss = h.config().services.deep_view();
    let ms = h.config().methods.deep_view();
    if ss.len() > 0 && ss.contains(service) {
        let i = choose|i: int| 0 <= i < ss.len() && ss[i] == service;
        assert(ss[i] == service);
    }
    if ms.len() > 0 && ms.contains(method) {
        let j = choose|j: int| 0 <= j < ms.len() && ms[j] == method;
        assert(ms[j] == method);
    }
}

/// The root context of the gRPC extract filter.
pub struct GrpcExtractRoot {
    config: PluginConfig,
}

impl GrpcExtractRoot {
    pub fn new(config: PluginConfig) -> (r: Self)
        ensures
            same_config(r.config(), config),
    {
        GrpcExtractRoot { config }
    }

    pub closed spec fn config(&self) -> PluginConfig {
        self.config
    }

    /// Replace the configuration.
    pub fn set_config(&mut self, config: PluginConfig)
        ensures
            same_config(final(self).config(), config),
    {
        self.config = config;
    }

    /// A new HTTP context with the root's configuration.
    pub fn create_http_context(&self, context_id: u32) -> (h: GrpcExtractHttp)
        ensures
            h.context_id() == context_id,
            same_config(h.config(), self.config()),
            h.grpc_path() is None,
    {
        GrpcExtractHttp::new(context_id, self.config.duplicate())
    }
}

} // verus!
