use envoy_filters::ext_proc::{
    encode_grpc_frame, encode_process_request, ProcessMessageResponse, ACTION_CONTINUE,
    ACTION_MUTATE_FIELDS, ACTION_REJECT, ACTION_REPLACE_BODY, DIRECTION_REQUEST,
    DIRECTION_RESPONSE, FieldMutation, MUTATION_OP_SET,
};
use envoy_filters::filter::{
    rejection_reply, BodyAction, CallOutcome, DispatchOutcome, PluginConfig, ProtoFilterHttp,
    ProtoFilterRoot,
};
use envoy_filters::grpc::parse_grpc_frames;
use envoy_filters::proto_decode::decode_raw;
use envoy_filters::proto_encode::{encode_bytes_field, encode_varint, encode_varint_field};

fn grpc_headers(filter: &mut ProtoFilterHttp, path: &str) -> Option<(String, String)> {
    filter.on_http_request_headers(Some("application/grpc".to_string()), Some(path.to_string()))
}

fn frame_of(payload: &[u8]) -> Vec<u8> {
    encode_grpc_frame(payload)
}

#[test]
fn default_config_values() {
    let c = PluginConfig::default();
    assert_eq!(c.ext_proc_cluster, "ext_proc_cluster");
    assert_eq!(c.ext_proc_service, "proto_mutation.v1.ProtoMutationService");
    assert_eq!(c.ext_proc_method, "ProcessMessage");
    assert_eq!(c.ext_proc_timeout_ms, 200);
    assert!(c.process_request && c.process_response && c.fail_open);
    assert!(c.services.is_empty() && c.methods.is_empty());
    assert_eq!(c.max_payload_bytes, 0);
}

#[test]
fn only_grpc_calls_of_listed_services_are_intercepted() {
    let mut config = PluginConfig::default();
    config.services = vec!["pkg.Svc".to_string()];
    let root = ProtoFilterRoot::new(config);
    let mut f = root.create_http_context(1);
    assert_eq!(
        f.on_http_request_headers(Some("application/json".to_string()), Some("/pkg.Svc/M".to_string())),
        None
    );
    assert_eq!(grpc_headers(&mut f, "/other.Svc/M"), None);
    assert!(!f.wants_body(true));
    assert_eq!(
        grpc_headers(&mut f, "/pkg.Svc/M"),
        Some(("pkg.Svc".to_string(), "M".to_string()))
    );
    assert!(f.wants_body(true));
    assert!(f.wants_body(false));
    assert_eq!(f.on_http_request_headers(None, Some("/pkg.Svc/M".to_string())), None);
}

#[test]
fn request_body_is_buffered_and_first_frame_dispatched() {
    let mut f = ProtoFilterHttp::new(7, PluginConfig::default());
    grpc_headers(&mut f, "/my.Service/MyMethod");
    let payload = encode_varint_field(1, 150);
    let body = frame_of(&payload);
    let (a, b) = body.split_at(3);
    assert!(matches!(f.on_http_request_body(Some(a.to_vec()), false), BodyAction::Continue));
    match f.on_http_request_body(Some(b.to_vec()), true) {
        BodyAction::Dispatch(req) => {
            let fields = decode_raw(&req);
            let expected = encode_process_request(
                "my.Service",
                "MyMethod",
                DIRECTION_REQUEST,
                &payload,
                &decode_raw(&payload),
            );
            assert_eq!(req, expected);
            assert_eq!(fields[2].field_number, 3);
        }
        BodyAction::Continue => panic!("expected a dispatch"),
    }
}

#[test]
fn payload_is_cut_to_the_limit() {
    let mut config = PluginConfig::default();
    config.max_payload_bytes = 2;
    let mut f = ProtoFilterHttp::new(1, config);
    grpc_headers(&mut f, "/s/m");
    let payload = encode_bytes_field(1, b"hello");
    match f.on_http_response_body(Some(frame_of(&payload)), true) {
        BodyAction::Dispatch(req) => {
            let expected = encode_process_request("s", "m", DIRECTION_RESPONSE, &payload[..2], &decode_raw(&payload[..2]));
            assert_eq!(req, expected);
        }
        BodyAction::Continue => panic!("expected a dispatch"),
    }
}

#[test]
fn bodies_without_frames_or_interception_continue() {
    let mut f = ProtoFilterHttp::new(1, PluginConfig::default());
    assert!(matches!(f.on_http_request_body(Some(frame_of(&[8, 1])), true), BodyAction::Continue));
    grpc_headers(&mut f, "/s/m");
    assert!(matches!(f.on_http_request_body(Some(vec![0, 0]), true), BodyAction::Continue));
    let mut config = PluginConfig::default();
    config.process_response = false;
    let mut g = ProtoFilterHttp::new(2, config);
    grpc_headers(&mut g, "/s/m");
    assert!(matches!(g.on_http_response_body(Some(frame_of(&[8, 1])), true), BodyAction::Continue));
}

#[test]
fn dispatch_outcomes() {
    let mut f = ProtoFilterHttp::new(1, PluginConfig::default());
    assert!(matches!(f.on_dispatch_result(true, None), DispatchOutcome::Continue));
    let mut config = PluginConfig::default();
    config.fail_open = false;
    let mut g = ProtoFilterHttp::new(1, config);
    match g.on_dispatch_result(true, None) {
        DispatchOutcome::Reply { status_code, body } => {
            assert_eq!(status_code, 503);
            assert_eq!(body, b"ext_proc dispatch failed".to_vec());
        }
        _ => panic!("expected a reply"),
    }
    assert!(matches!(g.on_dispatch_result(false, Some(4)), DispatchOutcome::Pause));
    // only the pending token is answered
    assert!(matches!(g.on_grpc_call_response(5, 0, None), CallOutcome::Unexpected));
    assert!(matches!(g.on_grpc_call_response(4, 0, None), CallOutcome::Resume { is_request: false }));
    assert!(matches!(g.on_grpc_call_response(4, 0, None), CallOutcome::Unexpected));
}

#[test]
fn failed_calls_resume_or_answer_503() {
    let mut f = ProtoFilterHttp::new(1, PluginConfig::default());
    f.on_dispatch_result(true, Some(1));
    assert!(matches!(f.on_grpc_call_response(1, 14, None), CallOutcome::Resume { is_request: true }));
    let mut config = PluginConfig::default();
    config.fail_open = false;
    let mut g = ProtoFilterHttp::new(1, config);
    g.on_dispatch_result(true, Some(1));
    match g.on_grpc_call_response(1, 14, None) {
        CallOutcome::Reply { status_code, body } => {
            assert_eq!(status_code, 503);
            assert_eq!(body, b"ext_proc service unavailable".to_vec());
        }
        _ => panic!("expected a reply"),
    }
}

#[test]
fn mutate_response_rewrites_every_frame() {
    let mut f = ProtoFilterHttp::new(1, PluginConfig::default());
    grpc_headers(&mut f, "/s/m");
    let mut body = frame_of(&encode_varint_field(1, 100));
    body.extend(frame_of(&encode_varint_field(2, 5)));
    let len = body.len();
    f.on_http_request_body(Some(body), true);
    f.on_dispatch_result(true, Some(9));
    let mut resp = encode_varint_field(1, ACTION_MUTATE_FIELDS);
    let mut m = encode_varint_field(1, MUTATION_OP_SET);
    m.extend(encode_varint_field(2, 1));
    m.extend(encode_bytes_field(4, &encode_varint(200)));
    resp.extend(encode_bytes_field(2, &m));
    let mut entry = encode_bytes_field(1, b"x-mutated");
    entry.extend(encode_bytes_field(2, b"yes"));
    resp.extend(encode_bytes_field(4, &entry));
    match f.on_grpc_call_response(9, 0, Some(resp)) {
        CallOutcome::Apply { is_request, plan } => {
            assert!(is_request);
            assert!(!plan.rejected);
            let (n, new_body) = plan.new_body.unwrap();
            assert_eq!(n, len);
            let frames = parse_grpc_frames(&new_body);
            assert_eq!(frames.len(), 2);
            assert_eq!(frames[0], encode_varint_field(1, 200).as_slice());
            let mut second = encode_varint_field(2, 5);
            second.extend(encode_varint_field(1, 200));
            assert_eq!(frames[1], second.as_slice());
            assert_eq!(plan.headers, vec![("x-mutated".to_string(), "yes".to_string())]);
        }
        _ => panic!("expected a plan"),
    }
}

#[test]
fn replace_reject_and_continue_plans() {
    let mut f = ProtoFilterHttp::new(1, PluginConfig::default());
    grpc_headers(&mut f, "/s/m");
    f.on_http_response_body(Some(frame_of(&[8, 1])), true);

    let replace = ProcessMessageResponse {
        action: ACTION_REPLACE_BODY,
        mutations: Vec::new(),
        replaced_body: Some(vec![0x10, 0x02]),
        headers_to_add: Vec::new(),
    };
    let plan = f.apply_response(&replace, false);
    assert_eq!(plan.new_body, Some((7, frame_of(&[0x10, 0x02]))));

    let replace_nothing = ProcessMessageResponse { replaced_body: None, ..replace };
    assert_eq!(f.apply_response(&replace_nothing, false).new_body, None);

    let reject = ProcessMessageResponse {
        action: ACTION_REJECT,
        mutations: Vec::new(),
        replaced_body: Some(vec![1]),
        headers_to_add: vec![("k".to_string(), "v".to_string())],
    };
    let plan = f.apply_response(&reject, false);
    assert!(plan.rejected);
    assert!(plan.new_body.is_none());
    assert!(plan.headers.is_empty());

    let cont = ProcessMessageResponse {
        action: ACTION_CONTINUE,
        mutations: vec![FieldMutation { operation: 0, field_number: 1, field_type: 0, value: vec![5] }],
        replaced_body: None,
        headers_to_add: vec![("k".to_string(), "v".to_string())],
    };
    let plan = f.apply_response(&cont, false);
    assert!(!plan.rejected);
    assert!(plan.new_body.is_none());
    assert_eq!(plan.headers, vec![("k".to_string(), "v".to_string())]);

    let unknown = ProcessMessageResponse { action: 17, ..cont };
    assert!(f.apply_response(&unknown, false).new_body.is_none());
}

#[test]
fn rejection_reply_text() {
    assert_eq!(rejection_reply(), (403, b"Rejected by proto filter".to_vec()));
}

#[test]
fn root_configuration_flows_to_new_contexts() {
    let mut root = ProtoFilterRoot::new(PluginConfig::default());
    let mut config = PluginConfig::default();
    config.ext_proc_timeout_ms = 50;
    config.methods = vec!["Only".to_string()];
    root.set_config(config);
    let mut f = root.create_http_context(3);
    assert_eq!(f.plugin_config().ext_proc_timeout_ms, 50);
    assert_eq!(grpc_headers(&mut f, "/s/Other"), None);
    assert!(grpc_headers(&mut f, "/s/Only").is_some());
    let dup = f.plugin_config().duplicate();
    assert_eq!(dup.methods, vec!["Only".to_string()]);
}

#[test]
fn dispatch_request_uses_recorded_names() {
    let mut f = ProtoFilterHttp::new(1, PluginConfig::default());
    let req = f.dispatch_to_ext_proc(DIRECTION_REQUEST, &[8, 1]);
    assert_eq!(req, encode_process_request("", "", DIRECTION_REQUEST, &[8, 1], &decode_raw(&[8, 1])));
    grpc_headers(&mut f, "/a.B/C");
    let req = f.dispatch_to_ext_proc(DIRECTION_RESPONSE, &[]);
    assert_eq!(req, encode_process_request("a.B", "C", DIRECTION_RESPONSE, &[], &[]));
}

#[test]
fn pending_token_is_known() {
    let mut f = ProtoFilterHttp::new(1, PluginConfig::default());
    assert!(!f.is_pending(3));
    f.on_dispatch_result(true, Some(3));
    assert!(f.is_pending(3));
    assert!(!f.is_pending(4));
}
