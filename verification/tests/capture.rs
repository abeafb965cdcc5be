use envoy_filters::capture::{PluginConfig, ResponseCaptureHttp, ResponseCaptureRoot};

fn headers() -> Vec<(String, String)> {
    vec![
        ("content-type".to_string(), "text/plain".to_string()),
        ("x-q".to_string(), "a\"b".to_string()),
    ]
}

fn captured(config: PluginConfig, path: &str, status: &str) -> ResponseCaptureHttp {
    let mut h = ResponseCaptureHttp::new(5, config);
    h.on_http_request_headers(Some(path.to_string()), Some("GET".to_string()));
    h.on_http_response_headers(Some(status.to_string()), headers());
    h
}

#[test]
fn default_capture_config() {
    let c = PluginConfig::default();
    assert!(c.status_codes.is_empty() && c.path_prefixes.is_empty());
    assert!(c.capture_headers && c.capture_body);
    assert_eq!(c.max_body_bytes, 0);
    assert_eq!(c.capture_tag_header, "x-response-captured");
    assert_eq!(c.output_format, "json");
}

#[test]
fn json_line_for_a_captured_response() {
    let mut h = ResponseCaptureHttp::new(5, PluginConfig::default());
    h.on_http_request_headers(Some("/a\"b".to_string()), Some("POST".to_string()));
    let tag = h.on_http_response_headers(Some("200".to_string()), headers());
    assert_eq!(tag, Some("x-response-captured".to_string()));
    assert!(h.wants_body());
    assert!(h.on_http_response_body(Some(b"say ".to_vec()), false).is_empty());
    let lines = h.on_http_response_body(Some(b"\"hi\"".to_vec()), true);
    assert_eq!(
        lines,
        vec![
            "[ctx=5] {\"method\":\"POST\",\"path\":\"/a\\\"b\",\"status\":200,\"body_bytes\":8,\"headers\":{\"content-type\":\"text/plain\",\"x-q\":\"a\\\"b\"},\"body\":\"say \\\"hi\\\"\"}".to_string()
        ]
    );
}

#[test]
fn plain_lines_for_a_captured_response() {
    let mut config = PluginConfig::default();
    config.output_format = "plain".to_string();
    let mut h = captured(config, "/x", "404");
    let lines = h.on_http_response_body(Some(b"gone".to_vec()), true);
    assert_eq!(
        lines,
        vec![
            "[ctx=5] GET /x -> 404 (4 bytes)".to_string(),
            "[ctx=5]   content-type: text/plain".to_string(),
            "[ctx=5]   x-q: a\"b".to_string(),
            "[ctx=5]   body: gone".to_string(),
        ]
    );
}

#[test]
fn binary_and_cut_bodies() {
    let mut config = PluginConfig::default();
    config.output_format = "plain".to_string();
    config.capture_headers = false;
    config.max_body_bytes = 3;
    let mut h = captured(config, "/x", "200");
    let lines = h.on_http_response_body(Some(vec![0xff, 0xfe, 0xfd, 0xfc]), true);
    assert_eq!(
        lines,
        vec![
            "[ctx=5] GET /x -> 200 (4 bytes)".to_string(),
            "[ctx=5]   body: <binary 3 bytes>".to_string(),
        ]
    );
}

#[test]
fn empty_body_gives_no_body_line() {
    let mut config = PluginConfig::default();
    config.output_format = "plain".to_string();
    config.capture_headers = false;
    let mut h = captured(config, "/x", "200");
    assert_eq!(h.on_http_response_body(None, true), vec!["[ctx=5] GET /x -> 200 (0 bytes)".to_string()]);
}

#[test]
fn path_and_status_filters() {
    let mut config = PluginConfig::default();
    config.path_prefixes = vec!["/api".to_string()];
    config.status_codes = vec![500, 503];
    let root = ResponseCaptureRoot::new(config);
    let mut h = root.create_http_context(2);
    h.on_http_request_headers(Some("/web".to_string()), None);
    assert_eq!(h.on_http_response_headers(Some("500".to_string()), Vec::new()), None);
    assert!(h.on_http_response_body(Some(b"x".to_vec()), true).is_empty());

    let mut h = root.create_http_context(2);
    h.on_http_request_headers(Some("/api/v1".to_string()), None);
    assert_eq!(h.on_http_response_headers(Some("200".to_string()), Vec::new()), None);
    assert!(!h.wants_body());
    assert!(h.on_http_response_body(Some(b"x".to_vec()), true).is_empty());

    let mut h = root.create_http_context(2);
    h.on_http_request_headers(Some("/api/v1".to_string()), None);
    assert!(h.on_http_response_headers(Some("503".to_string()), Vec::new()).is_some());
    let lines = h.on_http_response_body(Some(b"x".to_vec()), true);
    assert_eq!(
        lines,
        vec!["[ctx=2] {\"method\":\"-\",\"path\":\"/api/v1\",\"status\":503,\"body_bytes\":1,\"headers\":{},\"body\":\"x\"}".to_string()]
    );
}

#[test]
fn unparsable_status_counts_as_zero() {
    let mut config = PluginConfig::default();
    config.status_codes = vec![0];
    let mut root = ResponseCaptureRoot::new(PluginConfig::default());
    root.set_config(config);
    let mut h = root.create_http_context(1);
    h.on_http_request_headers(None, None);
    assert!(h.on_http_response_headers(Some("abc".to_string()), Vec::new()).is_some());
    let mut h = root.create_http_context(1);
    h.on_http_request_headers(None, None);
    assert!(h.on_http_response_headers(Some("70000".to_string()), Vec::new()).is_some());
    let mut h = root.create_http_context(1);
    h.on_http_request_headers(None, None);
    assert!(h.on_http_response_headers(Some("+200".to_string()), Vec::new()).is_none());
}

#[test]
fn body_not_buffered_when_not_captured_but_logged_at_end() {
    let mut config = PluginConfig::default();
    config.capture_body = false;
    config.output_format = "plain".to_string();
    config.capture_headers = false;
    let mut h = captured(config, "/x", "201");
    assert!(!h.wants_body());
    assert!(h.on_http_response_body(Some(b"data".to_vec()), false).is_empty());
    assert_eq!(
        h.on_http_response_body(Some(b"data".to_vec()), true),
        vec!["[ctx=5] GET /x -> 201 (0 bytes)".to_string()]
    );
    assert_eq!(h.plugin_config().capture_body, false);
}

#[test]
fn json_line_escapes_every_string() {
    let mut h = ResponseCaptureHttp::new(1, PluginConfig::default());
    h.on_http_request_headers(Some("/p\\q".to_string()), Some("G\"T".to_string()));
    h.on_http_response_headers(
        Some("200".to_string()),
        vec![("x\"k".to_string(), "a\\b\tc".to_string())],
    );
    let lines = h.on_http_response_body(Some(b"l1\nl2\r\x01\x1f".to_vec()), true);
    let expected = "[ctx=1] {\"method\":\"G\\\"T\",\"path\":\"/p\\\\q\",\"status\":200,\"body_bytes\":8,\"headers\":{\"x\\\"k\":\"a\\\\b\\tc\"},\"body\":\"l1\\nl2\\r\\u0001\\u001f\"}";
    assert_eq!(lines, vec![expected.to_string()]);
    // the object after the prefix is valid JSON that decodes to the texts
    let json: serde_json::Value = serde_json::from_str(&lines[0]["[ctx=1] ".len()..]).unwrap();
    assert_eq!(json["method"], "G\"T");
    assert_eq!(json["path"], "/p\\q");
    assert_eq!(json["headers"]["x\"k"], "a\\b\tc");
    assert_eq!(json["body"], "l1\nl2\r\u{1}\u{1f}");
    assert_eq!(json["status"], 200);
}
