use envoy_filters::ext_proc::encode_grpc_frame;
use envoy_filters::extract::{GrpcExtractHttp, GrpcExtractRoot, PluginConfig};
use envoy_filters::proto_encode::{encode_bytes_field, encode_varint_field};

fn framed(payload: &[u8]) -> Vec<u8> {
    encode_grpc_frame(payload)
}

#[test]
fn default_extract_config() {
    let c = PluginConfig::default();
    assert!(c.capture_request && c.capture_response);
    assert!(c.services.is_empty() && c.methods.is_empty());
    assert_eq!(c.max_payload_bytes, 0);
}

#[test]
fn one_line_per_frame_at_end_of_stream() {
    let mut h = GrpcExtractHttp::new(3, PluginConfig::default());
    assert_eq!(
        h.on_http_request_headers(Some("application/grpc".to_string()), Some("/pkg.S/M".to_string())),
        Some(("pkg.S".to_string(), "M".to_string()))
    );
    let mut body = framed(&encode_varint_field(1, 150));
    body.extend(framed(&encode_bytes_field(2, b"hi")));
    assert!(h.on_http_request_body(Some(body[..4].to_vec()), false).is_empty());
    let lines = h.on_http_request_body(Some(body[4..].to_vec()), true);
    assert_eq!(
        lines,
        vec![
            "[ctx=3] REQUEST /pkg.S/M | grpc_frames=decoded | fields=[RawField { field_number: 1, value: varint(150) }]".to_string(),
            "[ctx=3] REQUEST /pkg.S/M | grpc_frames=decoded | fields=[RawField { field_number: 2, value: string(\"hi\") }]".to_string(),
        ]
    );
    // the buffer was cleared
    assert!(h.on_http_request_body(None, true).is_empty());
}

#[test]
fn response_payload_cut_to_limit() {
    let mut config = PluginConfig::default();
    config.max_payload_bytes = 2;
    let root = GrpcExtractRoot::new(config);
    let mut h = root.create_http_context(1);
    h.on_http_request_headers(Some("application/grpc+proto".to_string()), Some("/s/m".to_string()));
    let lines = h.on_http_response_body(Some(framed(&encode_varint_field(1, 150))), true);
    assert_eq!(
        lines,
        vec!["[ctx=1] RESPONSE /s/m | grpc_frames=decoded | fields=[]".to_string()]
    );
}

#[test]
fn nothing_is_logged_without_capture() {
    let mut config = PluginConfig::default();
    config.capture_request = false;
    config.methods = vec!["Get".to_string()];
    let mut root = GrpcExtractRoot::new(PluginConfig::default());
    root.set_config(config);
    let mut h = root.create_http_context(1);
    assert!(h.on_http_response_body(Some(framed(&[8, 1])), true).is_empty());
    assert_eq!(
        h.on_http_request_headers(Some("application/grpc".to_string()), Some("/s/Put".to_string())),
        None
    );
    assert!(!h.wants_body(false));
    h.on_http_request_headers(Some("application/grpc".to_string()), Some("/s/Get".to_string()));
    assert!(!h.wants_body(true));
    assert!(h.wants_body(false));
    assert!(h.on_http_request_body(Some(framed(&[8, 1])), true).is_empty());
    assert_eq!(h.on_http_response_body(Some(framed(&[8, 1])), true).len(), 1);
}
