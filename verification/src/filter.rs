//! The proto filter: gRPC bodies sent to an external processing service,
//! whose answer mutates, replaces or rejects them.

use vstd::prelude::*;
use crate::ext_proc::{
    apply_mutations, decode_process_response, encode_grpc_frame, encode_process_request,
    headers_view, request_fields, spec_apply_mutations, spec_decode_process_response,
    ProcessMessageResponse, SpecFieldMutation, SpecProcessMessageResponse, ACTION_CONTINUE,
    ACTION_MUTATE_FIELDS, ACTION_REJECT, ACTION_REPLACE_BODY, DIRECTION_REQUEST,
    DIRECTION_RESPONSE,
};
use crate::grpc::{
    lemma_grpc_frames_of_snoc, list_contains, name_allowed, parse_grpc_frames, parse_grpc_path,
    slices_view, spec_grpc_frame, spec_grpc_frames, spec_grpc_frames_of, spec_parse_grpc_path,
    starts_with_grpc, text_or_empty, truncate_payload,
};
use crate::proto_decode::{decode_raw, spec_decode_raw, spec_encode_fields, RawField};
use crate::proto::copy_strings;

verus! {

/// Configuration of the proto filter.
#[derive(Debug)]
pub struct PluginConfig {
    /// Envoy cluster name for the ext_proc gRPC service
    pub ext_proc_cluster: String,
    /// Fully-qualified gRPC service name on the ext_proc endpoint
    pub ext_proc_service: String,
    /// gRPC method name on the ext_proc endpoint
    pub ext_proc_method: String,
    /// Timeout for ext_proc calls in milliseconds
    pub ext_proc_timeout_ms: u64,
    /// Process request bodies through ext_proc
    pub process_request: bool,
    /// Process response bodies through ext_proc
    pub process_response: bool,
    /// Only process these gRPC services (empty = all)
    pub services: Vec<String>,
    /// Only process these gRPC methods (empty = all)
    pub methods: Vec<String>,
    /// Max proto payload bytes to send to ext_proc (0 = unlimited)
    pub max_payload_bytes: usize,
    /// If true, continue on ext_proc failure instead of rejecting
    pub fail_open: bool,
}

pub fn default_cluster() -> (s: String)
    ensures
        s@ == "ext_proc_cluster"@,
{
    String::from_str("ext_proc_cluster")
}

pub fn default_service() -> (s: String)
    ensures
        s@ == "proto_mutation.v1.ProtoMutationService"@,
{
    String::from_str("proto_mutation.v1.ProtoMutationService")
}

pub fn default_method() -> (s: String)
    ensures
        s@ == "ProcessMessage"@,
{
    String::from_str("ProcessMessage")
}

pub fn default_timeout() -> (t: u64)
    ensures
        t == 200,
{
    200
}

pub fn default_true() -> (b: bool)
    ensures
        b,
{
    true
}

impl Default for PluginConfig {
    fn default() -> (c: Self)
        ensures
            c.ext_proc_cluster@ == "ext_proc_cluster"@,
            c.ext_proc_service@ == "proto_mutation.v1.ProtoMutationService"@,
            c.ext_proc_method@ == "ProcessMessage"@,
            c.ext_proc_timeout_ms == 200,
            c.process_request,
            c.process_response,
            c.services@.len() == 0,
            c.methods@.len() == 0,
            c.max_payload_bytes == 0,
            c.fail_open,
    {
        PluginConfig {
            ext_proc_cluster: default_cluster(),
            ext_proc_service: default_service(),
            ext_proc_method: default_method(),
            ext_proc_timeout_ms: default_timeout(),
            process_request: true,
            process_response: true,
            services: Vec::new(),
            methods: Vec::new(),
            max_payload_bytes: 0,
            fail_open: true,
        }
    }
}

/// Two configurations hold the same settings.
pub open spec fn same_config(a: PluginConfig, b: PluginConfig) -> bool {
    &&& a.ext_proc_cluster@ == b.ext_proc_cluster@
    &&& a.ext_proc_service@ == b.ext_proc_service@
    &&& a.ext_proc_method@ == b.ext_proc_method@
    &&& a.ext_proc_timeout_ms == b.ext_proc_timeout_ms
    &&& a.process_request == b.process_request
    &&& a.process_response == b.process_response
    &&& a.services.deep_view() == b.services.deep_view()
    &&& a.methods.deep_view() == b.methods.deep_view()
    &&& a.max_payload_bytes == b.max_payload_bytes
    &&& a.fail_open == b.fail_open
}

impl PluginConfig {
    /// A copy with the same settings.
    pub fn duplicate(&self) -> (c: PluginConfig)
        ensures
            same_config(c, *self),
    {
        PluginConfig {
            ext_proc_cluster: self.ext_proc_cluster.clone(),
            ext_proc_service: self.ext_proc_service.clone(),
            ext_proc_method: self.ext_proc_method.clone(),
            ext_proc_timeout_ms: self.ext_proc_timeout_ms,
            process_request: self.process_request,
            process_response: self.process_response,
            services: copy_strings(&self.services),
            methods: copy_strings(&self.methods),
            max_payload_bytes: self.max_payload_bytes,
            fail_open: self.fail_open,
        }
    }
}

/// Tracks which direction a pending ext_proc gRPC call belongs to.
#[derive(Debug)]
pub enum PendingCall {
    Request(u32),
    Response(u32),
}

/// What the host does with a body chunk.
#[derive(Debug)]
pub enum BodyAction {
    /// Let the body through.
    Continue,
    /// Send these request bytes to the external processing service and pause.
    Dispatch(Vec<u8>),
}

/// What the host does after trying to dispatch a call.
#[derive(Debug)]
pub enum DispatchOutcome {
    /// The call is on its way: pause.
    Pause,
    /// Let the body through.
    Continue,
    /// Answer with this status and body, and pause.
    Reply { status_code: u32, body: Vec<u8> },
}

/// The changes that an ext_proc response calls for.
#[derive(Debug)]
pub struct ResponsePlan {
    /// Replace the first `.0` bytes of the body with `.1`.
    pub new_body: Option<(usize, Vec<u8>)>,
    /// Reject: answer 403 and do not resume.
    pub rejected: bool,
    /// Headers to add.
    pub headers: Vec<(String, String)>,
}

/// What the host does when the ext_proc call completes.
#[derive(Debug)]
pub enum CallOutcome {
    /// The call is not the pending one: nothing happens.
    Unexpected,
    /// Resume the request or response unchanged.
    Resume { is_request: bool },
    /// Answer with this status and body.
    Reply { status_code: u32, body: Vec<u8> },
    /// Carry out the plan, then resume unless it rejects.
    Apply { is_request: bool, plan: ResponsePlan },
}

/// The per-request state of the proto filter.
pub struct ProtoFilterHttp {
    context_id: u32,
    config: PluginConfig,
    grpc_service: Option<String>,
    grpc_method: Option<String>,
    grpc_path: Option<String>,
    request_body: Vec<u8>,
    response_body: Vec<u8>,
    pending_call: Option<PendingCall>,
}

/// A body with each uncompressed frame's payload mutated and framed again.
pub open spec fn spec_mutated_body(body: Seq<u8>, ms: Seq<SpecFieldMutation>) -> Seq<u8> {
    spec_grpc_frames_of(spec_grpc_frames(body).map_values(|f: Seq<u8>| spec_apply_mutations(f, ms)))
}

/// The new body that a response calls for: the mutated frames for
/// MUTATE_FIELDS, the framed replacement for REPLACE_BODY when there is one,
/// nothing otherwise.
pub open spec fn spec_new_body(r: SpecProcessMessageResponse, body: Seq<u8>) -> Option<Seq<u8>> {
    if r.action == ACTION_MUTATE_FIELDS {
        Some(spec_mutated_body(body, r.mutations))
    } else if r.action == ACTION_REPLACE_BODY {
        match r.replaced_body {
            Some(p) => Some(spec_grpc_frame(p)),
            None => None,
        }
    } else {
        None
    }
}

/// The plan follows the response for a body: the new body replaces all of
/// the old one; REJECT rejects and adds no header; otherwise the response's
/// headers are added.
pub open spec fn plan_follows(plan: ResponsePlan, r: SpecProcessMessageResponse, body: Seq<u8>) -> bool {
    &&& match spec_new_body(r, body) {
        Some(b) => plan.new_body matches Some((n, nb)) && n == body.len() && nb@ == b,
        None => plan.new_body is None,
    }
    &&& plan.rejected == (r.action == ACTION_REJECT)
    &&& headers_view(plan.headers@) == if r.action == ACTION_REJECT {
        seq![]
    } else {
        r.headers_to_add
    }
}

impl ProtoFilterHttp {
    pub fn new(context_id: u32, config: PluginConfig) -> (h: Self)
        ensures
            h.context_id() == context_id,
            same_config(h.config(), config),
            h.grpc_path() is None,
            h.request_body()@.len() == 0,
            h.response_body()@.len() == 0,
            h.pending_call() is None,
    {
        ProtoFilterHttp {
            context_id,
            config,
            grpc_service: None,
            grpc_method: None,
            grpc_path: None,
            request_body: Vec::new(),
            response_body: Vec::new(),
            pending_call: None,
        }
    }

    pub closed spec fn context_id(&self) -> u32 {
        self.context_id
    }

    pub closed spec fn config(&self) -> PluginConfig {
        self.config
    }

    pub closed spec fn grpc_service(&self) -> Option<String> {
        self.grpc_service
    }

    pub closed spec fn grpc_method(&self) -> Option<String> {
        self.grpc_method
    }

    pub closed spec fn grpc_path(&self) -> Option<String> {
        self.grpc_path
    }

    pub closed spec fn request_body(&self) -> Vec<u8> {
        self.request_body
    }

    pub closed spec fn response_body(&self) -> Vec<u8> {
        self.response_body
    }

    pub closed spec fn pending_call(&self) -> Option<PendingCall> {
        self.pending_call
    }

    /// The configuration in force.
    pub fn plugin_config(&self) -> (c: &PluginConfig)
        ensures
            *c == self.config(),
    {
        &self.config
    }

    /// Whether a gRPC call of this service and method is processed.
    pub open spec fn spec_should_process(&self, service: Seq<char>, method: Seq<char>) -> bool {
        name_allowed(self.config().services.deep_view(), service) && name_allowed(
            self.config().methods.deep_view(),
            method,
        )
    }

    fn should_process(&self, service: &str, method: &str) -> (r: bool)
        ensures
            r == self.spec_should_process(service@, method@),
    {
        let service_match = self.config.services.len() == 0 || list_contains(
            &self.config.services,
            service,
        );
        let method_match = self.config.methods.len() == 0 || list_contains(
            &self.config.methods,
            method,
        );
        service_match && method_match
    }

    /// Handle the request headers: a gRPC call (content type starting with
    /// "application/grpc") of a processed service and method is recorded;
    /// returns its service and method.
    pub fn on_http_request_headers(&mut self, content_type: Option<String>, path: Option<String>) -> (intercepted: Option<(String, String)>)
        ensures
            ({
                let ct = text_or_empty(content_type);
                let p = text_or_empty(path);
                let grpc = ct.len() >= 16 && ct.take(16) == "application/grpc"@;
                match spec_parse_grpc_path(p) {
                    Some((svc, m)) if grpc && old(self).spec_should_process(svc, m) => {
                        &&& intercepted matches Some((s2, m2)) && s2@ == svc && m2@ == m
                        &&& final(self).grpc_service() matches Some(x) && x@ == svc
                        &&& final(self).grpc_method() matches Some(x) && x@ == m
                        &&& final(self).grpc_path() matches Some(x) && x@ == p
                    },
                    _ => intercepted is None && final(self).grpc_path() == old(self).grpc_path()
                        && final(self).grpc_service() == old(self).grpc_service()
                        && final(self).grpc_method() == old(self).grpc_method(),
                }
            }),
            final(self).config() == old(self).config(),
            final(self).context_id() == old(self).context_id(),
            final(self).request_body() == old(self).request_body(),
            final(self).response_body() == old(self).response_body(),
            final(self).pending_call() == old(self).pending_call(),
    {
        let content_type = match content_type {
            Some(c) => c,
            None => String::new(),
        };
        if !starts_with_grpc(content_type.as_str()) {
            return None;
        }
        let path = match path {
            Some(p) => p,
            None => String::new(),
        };
        let parsed = parse_grpc_path(path.as_str());
        match parsed {
            Some((service, method)) => {
                if self.should_process(service, method) {
                    let s = String::from_str(service);
                    let m = String::from_str(method);
                    self.grpc_service = Some(String::from_str(service));
                    self.grpc_method = Some(String::from_str(method));
                    self.grpc_path = Some(path);
                    Some((s, m))
                } else {
                    None
                }
            },
            None => None,
        }
    }

    /// Build the ProcessMessageRequest for a payload: the recorded service and
    /// method (empty when none), the direction, the payload and its decoded fields.
    pub fn dispatch_to_ext_proc(&self, direction: u64, payload: &[u8]) -> (request_bytes: Vec<u8>)
        ensures
            request_bytes@ == spec_encode_fields(
                request_fields(
                    text_or_empty(self.grpc_service()),
                    text_or_empty(self.grpc_method()),
                    direction,
                    payload@,
                    spec_decode_raw(payload@),
                ),
            ),
    {
        let service_name = match &self.grpc_service {
            Some(s) => s.clone(),
            None => String::new(),
        };
        let method_name = match &self.grpc_method {
            Some(m) => m.clone(),
            None => String::new(),
        };
        let decoded_fields = decode_raw(payload);
        assert(decoded_fields@.map_values(|f: RawField| f@) =~= decoded_fields.deep_view());
        encode_process_request(
            service_name.as_str(),
            method_name.as_str(),
            direction,
            payload,
            decoded_fields.as_slice(),
        )
    }
}

/// One step of a body direction: the fields other than the direction's
/// body are kept; when the body is processed the chunk is appended, and at the
/// end of the stream the first uncompressed frame, cut to the payload limit,
/// is sent for processing.
pub open spec fn body_step(
    pre: ProtoFilterHttp,
    post: ProtoFilterHttp,
    is_request: bool,
    chunk: Option<Vec<u8>>,
    end_of_stream: bool,
    action: BodyAction,
) -> bool {
    &&& post.config() == pre.config()
    &&& post.context_id() == pre.context_id()
    &&& post.grpc_service() == pre.grpc_service()
    &&& post.grpc_method() == pre.grpc_method()
    &&& post.grpc_path() == pre.grpc_path()
    &&& post.pending_call() == pre.pending_call()
    &&& post.body_of(!is_request) == pre.body_of(!is_request)
    &&& {
        let wants = pre.grpc_path() is Some && if is_request {
            pre.config().process_request
        } else {
            pre.config().process_response
        };
        let body = pre.body_of(is_request) + match chunk {
            Some(c) => c@,
            None => seq![],
        };
        let frames = spec_grpc_frames(body);
        if !wants {
            action is Continue && post.body_of(is_request) == pre.body_of(is_request)
        } else {
            &&& post.body_of(is_request) == body
            &&& if end_of_stream && frames.len() > 0 {
                action matches BodyAction::Dispatch(req) && req@ == spec_encode_fields(
                    request_fields(
                        text_or_empty(pre.grpc_service()),
                        text_or_empty(pre.grpc_method()),
                        if is_request { DIRECTION_REQUEST } else { DIRECTION_RESPONSE },
                        truncate_payload(frames[0], pre.config().max_payload_bytes),
                        spec_decode_raw(truncate_payload(frames[0], pre.config().max_payload_bytes)),
                    ),
                )
            } else {
                action is Continue
            }
        }
    }
}

impl ProtoFilterHttp {
    /// Whether the filter reads the request body (or the response body).
    pub fn wants_body(&self, is_request: bool) -> (r: bool)
        ensures
            r == (self.grpc_path() is Some && if is_request {
                self.config().process_request
            } else {
                self.config().process_response
            }),
    {
        self.grpc_path.is_some() && if is_request {
            self.config.process_request
        } else {
            self.config.process_response
        }
    }

    /// The body buffered for one direction.
    pub open spec fn body_of(&self, is_request: bool) -> Seq<u8> {
        if is_request {
            self.request_body()@
        } else {
            self.response_body()@
        }
    }

    /// Handle a chunk of the request body (or of the response body): when the
    /// body is processed, buffer the chunk; at the end of the stream, send the
    /// first uncompressed frame, cut to the payload limit, for processing.
    pub fn on_http_body(&mut self, is_request: bool, chunk: Option<Vec<u8>>, end_of_stream: bool) -> (action: BodyAction)
        ensures
            body_step(*old(self), *final(self), is_request, chunk, end_of_stream, action),
    {
        if !self.wants_body(is_request) {
            return BodyAction::Continue;
        }
        if let Some(c) = chunk {
            let mut c = c;
            if is_request {
                self.request_body.append(&mut c);
            } else {
                self.response_body.append(&mut c);
            }
        }
        if !end_of_stream {
            return BodyAction::Continue;
        }
        let payload = if is_request {
            self.request_body.clone()
        } else {
            self.response_body.clone()
        };
        let frames = parse_grpc_frames(payload.as_slice());
        if frames.len() == 0 {
            return BodyAction::Continue;
        }
        let first: &[u8] = frames[0];
        assert(first@ == spec_grpc_frames(payload@)[0]);
        let max = self.config.max_payload_bytes;
        let frame_payload: &[u8] = if max > 0 && first.len() > max {
            &first[0..max]
        } else {
            first
        };
        assert(frame_payload@ =~= truncate_payload(first@, max));
        let direction = if is_request {
            DIRECTION_REQUEST
        } else {
            DIRECTION_RESPONSE
        };
        BodyAction::Dispatch(self.dispatch_to_ext_proc(direction, frame_payload))
    }

    /// Handle the request body.
    pub fn on_http_request_body(&mut self, chunk: Option<Vec<u8>>, end_of_stream: bool) -> (action: BodyAction)
        ensures
            body_step(*old(self), *final(self), true, chunk, end_of_stream, action),
    {
        self.on_http_body(true, chunk, end_of_stream)
    }

    /// Handle the response body.
    pub fn on_http_response_body(&mut self, chunk: Option<Vec<u8>>, end_of_stream: bool) -> (action: BodyAction)
        ensures
            body_step(*old(self), *final(self), false, chunk, end_of_stream, action),
    {
        self.on_http_body(false, chunk, end_of_stream)
    }

    /// Record the outcome of dispatching a call: a token makes it the pending
    /// call and pauses; without one, fail open continues, and otherwise the
    /// filter answers 503.
    pub fn on_dispatch_result(&mut self, is_request: bool, token: Option<u32>) -> (outcome: DispatchOutcome)
        ensures
            match token {
                Some(t) => outcome is Pause && final(self).pending_call() == Some(
                    if is_request { PendingCall::Request(t) } else { PendingCall::Response(t) },
                ),
                None => final(self).pending_call() == old(self).pending_call() && if old(self).config().fail_open {
                    outcome is Continue
                } else {
                    outcome matches DispatchOutcome::Reply { status_code, body } && status_code == 503
                        && body@ == vstd::utf8::encode_utf8("ext_proc dispatch failed"@)
                },
            },
            final(self).config() == old(self).config(),
            final(self).context_id() == old(self).context_id(),
            final(self).grpc_service() == old(self).grpc_service(),
            final(self).grpc_method() == old(self).grpc_method(),
            final(self).grpc_path() == old(self).grpc_path(),
            final(self).request_body() == old(self).request_body(),
            final(self).response_body() == old(self).response_body(),
    {
        match token {
            Some(t) => {
                self.pending_call = Some(if is_request {
                    PendingCall::Request(t)
                } else {
                    PendingCall::Response(t)
                });
                DispatchOutcome::Pause
            },
            None => {
                if self.config.fail_open {
                    DispatchOutcome::Continue
                } else {
                    DispatchOutcome::Reply { status_code: 503, body: text_bytes("ext_proc dispatch failed") }
                }
            },
        }
    }

    /// Process the ext_proc response: apply mutations, replace body, or reject.
    pub fn apply_response(&self, response: &ProcessMessageResponse, is_request: bool) -> (plan: ResponsePlan)
        ensures
            plan_follows(plan, response@, self.body_of(is_request)),
    {
        let original_body: &Vec<u8> = if is_request {
            &self.request_body
        } else {
            &self.response_body
        };
        let mut new_body: Option<(usize, Vec<u8>)> = None;
        if response.action == ACTION_MUTATE_FIELDS {
            new_body = Some((original_body.len(), mutate_frames(original_body.as_slice(), response)));
        } else if response.action == ACTION_REPLACE_BODY {
            if let Some(new_payload) = &response.replaced_body {
                new_body = Some((original_body.len(), encode_grpc_frame(new_payload.as_slice())));
            }
        } else if response.action == ACTION_REJECT {
            let plan = ResponsePlan { new_body: None, rejected: true, headers: Vec::new() };
            assert(headers_view(plan.headers@) =~= seq![]);
            return plan;
        }
        let headers = copy_headers(&response.headers_to_add);
        ResponsePlan { new_body, rejected: false, headers }
    }

    /// Whether a call with this token is the pending one.
    pub fn is_pending(&self, token_id: u32) -> (r: bool)
        ensures
            r == match self.pending_call() {
                Some(PendingCall::Request(t)) => t == token_id,
                Some(PendingCall::Response(t)) => t == token_id,
                None => false,
            },
    {
        match &self.pending_call {
            Some(PendingCall::Request(t)) => *t == token_id,
            Some(PendingCall::Response(t)) => *t == token_id,
            None => false,
        }
    }

    /// Handle the completion of an ext_proc call.
    pub fn on_grpc_call_response(&mut self, token_id: u32, status_code: u32, body: Option<Vec<u8>>) -> (outcome: CallOutcome)
        ensures
            final(self).config() == old(self).config(),
            final(self).context_id() == old(self).context_id(),
            final(self).request_body() == old(self).request_body(),
            final(self).response_body() == old(self).response_body(),
            final(self).grpc_service() == old(self).grpc_service(),
            final(self).grpc_method() == old(self).grpc_method(),
            final(self).grpc_path() == old(self).grpc_path(),
            match old(self).pending_call() {
                Some(PendingCall::Request(t)) if t == token_id => final(self).pending_call() is None
                    && call_outcome_follows(outcome, true, status_code, body, *old(self)),
                Some(PendingCall::Response(t)) if t == token_id => final(self).pending_call() is None
                    && call_outcome_follows(outcome, false, status_code, body, *old(self)),
                _ => outcome is Unexpected && final(self).pending_call() == old(self).pending_call(),
            },
    {
        let is_request = match &self.pending_call {
            Some(PendingCall::Request(t)) => {
                if *t == token_id {
                    true
                } else {
                    return CallOutcome::Unexpected;
                }
            },
            Some(PendingCall::Response(t)) => {
                if *t == token_id {
                    false
                } else {
                    return CallOutcome::Unexpected;
                }
            },
            None => {
                return CallOutcome::Unexpected;
            },
        };
        self.pending_call = None;
        if status_code != 0 {
            if self.config.fail_open {
                return CallOutcome::Resume { is_request };
            } else {
                return CallOutcome::Reply {
                    status_code: 503,
                    body: text_bytes("ext_proc service unavailable"),
                };
            }
        }
        match body {
            Some(bytes) => {
                let response = decode_process_response(bytes.as_slice());
                let plan = self.apply_response(&response, is_request);
                CallOutcome::Apply { is_request, plan }
            },
            None => CallOutcome::Resume { is_request },
        }
    }
}

/// The outcome of a completed call of the given direction: a failed call
/// resumes when failing open and answers 503 otherwise; a successful one
/// follows the decoded response, or resumes when it has no body.
pub open spec fn call_outcome_follows(
    outcome: CallOutcome,
    is_request: bool,
    status_code: u32,
    body: Option<Vec<u8>>,
    h: ProtoFilterHttp,
) -> bool {
    if status_code != 0 {
        if h.config().fail_open {
            outcome == CallOutcome::Resume { is_request }
        } else {
            outcome matches CallOutcome::Reply { status_code: sc, body: b } && sc == 503
                && b@ == vstd::utf8::encode_utf8("ext_proc service unavailable"@)
        }
    } else {
        match body {
            Some(bytes) => outcome matches CallOutcome::Apply { is_request: r, plan } && r == is_request
                && plan_follows(plan, spec_decode_process_response(bytes@), h.body_of(is_request)),
            None => outcome == CallOutcome::Resume { is_request },
        }
    }
}

/// The UTF-8 bytes of a text.
fn text_bytes(s: &str) -> (b: Vec<u8>)
    ensures
        b@ == vstd::utf8::encode_utf8(s@),
{
    vstd::slice::slice_to_vec(s.as_bytes())
}

/// A copy of a list of headers with the same text.
fn copy_headers(h: &Vec<(String, String)>) -> (r: Vec<(String, String)>)
    ensures
        headers_view(r@) == headers_view(h@),
{
    let mut r: Vec<(String, String)> = Vec::new();
    let mut i: usize = 0;
    while i < h.len()
        invariant
            i <= h.len(),
            headers_view(r@) =~= headers_view(h@).take(i as int),
        decreases h.len() - i,
    {
        let (k, v) = &h[i];
        r.push((k.clone(), v.clone()));
        assert(headers_view(h@).take(i + 1) =~= headers_view(h@).take(i as int).push(headers_view(h@)[i as int]));
        i = i + 1;
    }
    assert(headers_view(h@).take(h.len() as int) =~= headers_view(h@));
    r
}

/// The frames of a body with each payload mutated and framed again.
fn mutate_frames(body: &[u8], response: &ProcessMessageResponse) -> (r: Vec<u8>)
    ensures
        r@ == spec_mutated_body(body@, response@.mutations),
{
    let frames = parse_grpc_frames(body);
    let ghost ms = response@.mutations;
    let ghost fs = spec_grpc_frames(body@);
    let ghost mapped = fs.map_values(|f: Seq<u8>| spec_apply_mutations(f, ms));
    assert(response.mutations@.map_values(|m: crate::ext_proc::FieldMutation| m@) =~= ms);
    let mut new_body: Vec<u8> = Vec::new();
    let mut i: usize = 0;
    assert(mapped.take(0) =~= seq![]);
    while i < frames.len()
        invariant
            i <= frames.len(),
            slices_view(frames@) == fs,
            ms == response@.mutations,
            response.mutations@.map_values(|m: crate::ext_proc::FieldMutation| m@) == ms,
            mapped == fs.map_values(|f: Seq<u8>| spec_apply_mutations(f, ms)),
            new_body@ == spec_grpc_frames_of(mapped.take(i as int)),
        decreases frames.len() - i,
    {
        let frame: &[u8] = frames[i];
        assert(frame@ == fs[i as int]);
        let mutated = apply_mutations(frame, response.mutations.as_slice());
        let mut framed = encode_grpc_frame(mutated.as_slice());
        proof {
            lemma_grpc_frames_of_snoc(mapped.take(i as int), mapped[i as int]);
            assert(mapped.take(i + 1) =~= mapped.take(i as int).push(mapped[i as int]));
        }
        new_body.append(&mut framed);
        i = i + 1;
    }
    assert(mapped.take(frames.len() as int) =~= mapped);
    new_body
}

/// The answer to a rejected call: 403 with a short text.
pub fn rejection_reply() -> (r: (u32, Vec<u8>))
    ensures
        r.0 == 403,
        r.1@ == vstd::utf8::encode_utf8("Rejected by proto filter"@),
{
    (403, text_bytes("Rejected by proto filter"))
}

/// A call is processed exactly when each of the service and method lists is
/// empty or holds the call's name at some position; a call whose service is
/// missing from a non-empty service list is not processed, whatever its method.
pub proof fn lemma_processed_iff_listed(h: ProtoFilterHttp, service: Seq<char>, method: Seq<char>)
    ensures
        h.spec_should_process(service, method) <==> ((h.config().services.deep_view().len() == 0
            || exists|i: int|
            0 <= i < h.config().services.deep_view().len()
                && #[trigger] h.config().services.deep_view()[i] == service) && (
        h.config().methods.deep_view().len() == 0 || exists|j: int|
            0 <= j < h.config().methods.deep_view().len()
                && #[trigger] h.config().methods.deep_view()[j] == method)),
        h.config().services.deep_view().len() > 0 && (forall|i: int|
            0 <= i < h.config().services.deep_view().len()
                ==> #[trigger] h.config().services.deep_view()[i] != service) ==> !h.spec_should_process(
            service,
            method,
        ),
{
    let ss = h.config().services.deep_view();
    let ms = h.config().methods.deep_view();
    if ss.len() > 0 && ss.contains(service) {
        let i = choose|i: int| 0 <= i < ss.len() && ss[i] == service;
        assert(ss[i] == service);
    }
    if ms.len() > 0 && ms.contains(method) {
        let j = choose|j: int| 0 <= j < ms.len() && ms[j] == method;
        assert(ms[j] == method);
    }
}

/// The root context of the proto filter: the configuration that new HTTP
/// contexts start from.
pub struct ProtoFilterRoot {
    config: PluginConfig,
}

impl ProtoFilterRoot {
    pub fn new(config: PluginConfig) -> (r: Self)
        ensures
            same_config(r.config(), config),
    {
        ProtoFilterRoot { config }
    }

    pub closed spec fn config(&self) -> PluginConfig {
        self.config
    }

    /// Replace the configuration.
    pub fn set_config(&mut self, config: PluginConfig)
        ensures
            same_config(final(self).config(), config),
    {
        self.config = config;
    }

    /// A new HTTP context with the root's configuration.
    pub fn create_http_context(&self, context_id: u32) -> (h: ProtoFilterHttp)
        ensures
            h.context_id() == context_id,
            same_config(h.config(), self.config()),
            h.grpc_path() is None,
            h.request_body()@.len() == 0,
            h.response_body()@.len() == 0,
            h.pending_call() is None,
    {
        ProtoFilterHttp::new(context_id, self.config.duplicate())
    }
}

/// Reading the frames of a mutated body gives the mutated payloads of the
/// original frames, when each fits a 32-bit length.
pub proof fn lemma_mutated_body_frames(body: Seq<u8>, ms: Seq<SpecFieldMutation>)
    requires
        forall|i: int|
            0 <= i < spec_grpc_frames(body).len() ==> (#[trigger] spec_apply_mutations(
                spec_grpc_frames(body)[i],
                ms,
            )).len() <= u32::MAX,
    ensures
        spec_grpc_frames(spec_mutated_body(body, ms)) == spec_grpc_frames(body).map_values(
            |f: Seq<u8>| spec_apply_mutations(f, ms),
        ),
{
    let mapped = spec_grpc_frames(body).map_values(|f: Seq<u8>| spec_apply_mutations(f, ms));
    assert forall|i: int| 0 <= i < mapped.len() implies (#[trigger] mapped[i]).len() <= u32::MAX by {
        assert(mapped[i] == spec_apply_mutations(spec_grpc_frames(body)[i], ms));
    }
    crate::grpc::lemma_grpc_frames_roundtrip(mapped);
}

} // verus!
