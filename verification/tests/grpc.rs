use envoy_filters::ext_proc::encode_grpc_frame;
use envoy_filters::grpc::{list_contains, parse_grpc_frames, parse_grpc_path, starts_with_grpc};

#[test]
fn test_parse_grpc_path() {
    assert_eq!(
        parse_grpc_path("/mypackage.MyService/MyMethod"),
        Some(("mypackage.MyService", "MyMethod"))
    );
    assert_eq!(parse_grpc_path("/"), None);
    assert_eq!(parse_grpc_path(""), None);
    assert_eq!(parse_grpc_path("/service/"), None);
}

#[test]
fn test_parse_grpc_frames_single() {
    // uncompressed, 3-byte payload
    let data = [0u8, 0, 0, 0, 3, 0x08, 0x96, 0x01];
    let frames = parse_grpc_frames(&data);
    assert_eq!(frames.len(), 1);
    assert_eq!(frames[0], &[0x08, 0x96, 0x01]);
}

#[test]
fn test_parse_grpc_frames_multiple() {
    let mut data = Vec::new();
    // frame 1: 2 bytes
    data.extend_from_slice(&[0, 0, 0, 0, 2, 0x10, 0x01]);
    // frame 2: 1 byte
    data.extend_from_slice(&[0, 0, 0, 0, 1, 0x18]);
    let frames = parse_grpc_frames(&data);
    assert_eq!(frames.len(), 2);
}

#[test]
fn test_parse_grpc_frames_truncated() {
    // header says 10 bytes but only 3 available
    let data = [0u8, 0, 0, 0, 10, 1, 2, 3];
    let frames = parse_grpc_frames(&data);
    assert_eq!(frames.len(), 0);
}

#[test]
fn grpc_path_splits_at_first_slash_after_service() {
    assert_eq!(parse_grpc_path("/a/b/c"), Some(("a", "b/c")));
    assert_eq!(parse_grpc_path("a/b"), None);
    assert_eq!(parse_grpc_path("//m"), None);
    assert_eq!(parse_grpc_path("/svc"), None);
}

#[test]
fn compressed_frames_are_skipped() {
    let data = [1u8, 0, 0, 0, 1, 0xAA, 0, 0, 0, 0, 2, 0xBB, 0xCC];
    let frames = parse_grpc_frames(&data);
    assert_eq!(frames.len(), 1);
    assert_eq!(frames[0], &[0xBB, 0xCC]);
}

#[test]
fn partial_header_is_ignored() {
    let data = [0u8, 0, 0, 0, 1, 0x18, 0, 0];
    let frames = parse_grpc_frames(&data);
    assert_eq!(frames.len(), 1);
    assert_eq!(frames[0], &[0x18]);
}

#[test]
fn empty_frame_is_kept() {
    let data = [0u8, 0, 0, 0, 0];
    let frames = parse_grpc_frames(&data);
    assert_eq!(frames.len(), 1);
    assert!(frames[0].is_empty());
}

#[test]
fn framed_payloads_parse_back() {
    let mut data = encode_grpc_frame(&[1, 2, 3]);
    data.extend(encode_grpc_frame(&[]));
    data.extend(encode_grpc_frame(&[9]));
    let frames = parse_grpc_frames(&data);
    assert_eq!(frames.len(), 3);
    assert_eq!(frames[0], &[1, 2, 3]);
    assert!(frames[1].is_empty());
    assert_eq!(frames[2], &[9]);
}

#[test]
fn grpc_content_type_prefix() {
    assert!(starts_with_grpc("application/grpc"));
    assert!(starts_with_grpc("application/grpc+proto"));
    assert!(!starts_with_grpc("application/json"));
    assert!(!starts_with_grpc("application/grp"));
}

#[test]
fn list_membership() {
    let list = vec!["a".to_string(), "bc".to_string()];
    assert!(list_contains(&list, "bc"));
    assert!(!list_contains(&list, "b"));
    assert!(!list_contains(&Vec::new(), "a"));
}

#[test]
fn compressed_frames_and_an_incomplete_tail() {
    let mut data = vec![1u8, 0, 0, 0, 1, 0xAA];
    data.extend(encode_grpc_frame(&[7, 8]));
    data.extend_from_slice(&[0, 0, 0, 0, 9, 1, 2]);
    let frames = parse_grpc_frames(&data);
    assert_eq!(frames.len(), 1);
    assert_eq!(frames[0], &[7, 8]);
}
