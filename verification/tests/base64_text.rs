use envoy_filters::base64_text::base64_decode;

#[test]
fn decodes_full_and_padded_groups() {
    assert_eq!(base64_decode(""), Some(Vec::new()));
    assert_eq!(base64_decode("eHl6"), Some(b"xyz".to_vec()));
    assert_eq!(base64_decode("aGVsbG8="), Some(b"hello".to_vec()));
    assert_eq!(base64_decode("aGk="), Some(b"hi".to_vec()));
    assert_eq!(base64_decode("aA=="), Some(b"h".to_vec()));
    assert_eq!(base64_decode("+/+/"), Some(vec![0xfb, 0xff, 0xbf]));
    assert_eq!(base64_decode("AAAA"), Some(vec![0, 0, 0]));
}

#[test]
fn rejects_what_is_not_base64() {
    assert_eq!(base64_decode("abc"), None);
    assert_eq!(base64_decode("ab=c"), None);
    assert_eq!(base64_decode("aA==aGk="), None);
    assert_eq!(base64_decode("a-b_"), None);
    assert_eq!(base64_decode("===="), None);
    assert_eq!(base64_decode("héllo!!!"), None);
}
