use rumwebs_http::bytes::{decimal_string, find_bytes, split_bytes};
use rumwebs_http::headers::HeaderMap;

#[test]
fn header_map_keeps_first_position_and_last_value() {
    let mut h = HeaderMap::new();
    h.insert("a".to_string(), "1".to_string());
    h.insert("b".to_string(), "2".to_string());
    h.insert("a".to_string(), "3".to_string());
    assert_eq!(h.len(), 2);
    assert_eq!(h.get(&"a".to_string()), Some(&"3".to_string()));
    assert!(h.contains_key(&"b".to_string()));
    assert!(!h.contains_key(&"c".to_string()));
    let (k, v) = h.entry(0);
    assert_eq!((k.as_str(), v.as_str()), ("a", "3"));
}

#[test]
fn byte_helpers() {
    assert_eq!(find_bytes(b"abcabc", b"ca", 0), Some(2));
    assert_eq!(find_bytes(b"abcabc", b"ca", 3), None);
    assert_eq!(find_bytes(b"ab", b"", 2), Some(2));
    assert_eq!(split_bytes(b"a\r\nb\r\n", b"\r\n"), vec![b"a".to_vec(), b"b".to_vec(), Vec::new()]);
    assert_eq!(decimal_string(0), "0");
    assert_eq!(decimal_string(1234567890), "1234567890");
}
