use llama::text::{concat_pieces, find_bytes, parse_i64};

#[test]
fn parse_i64_like_str_parse() {
    assert_eq!(parse_i64(b"42"), Some(42));
    assert_eq!(parse_i64(b"+7"), Some(7));
    assert_eq!(parse_i64(b"-0"), Some(0));
    assert_eq!(parse_i64(b"-9223372036854775808"), Some(i64::MIN));
    assert_eq!(parse_i64(b"9223372036854775807"), Some(i64::MAX));
    assert_eq!(parse_i64(b"9223372036854775808"), None);
    assert_eq!(parse_i64(b""), None);
    assert_eq!(parse_i64(b"-"), None);
    assert_eq!(parse_i64(b"1 "), None);
    assert_eq!(parse_i64(b"0x10"), None);
    for s in ["12", "-12", "+0", "00012", "-"] {
        assert_eq!(parse_i64(s.as_bytes()), s.parse::<i64>().ok());
    }
}

#[test]
fn byte_search_and_join() {
    assert_eq!(find_bytes(b"hello</s>", b"</s>"), Some(5));
    assert_eq!(find_bytes(b"abc", b"d"), None);
    assert_eq!(find_bytes(b"abc", b""), Some(0));
    assert_eq!(concat_pieces(&[b"ab".to_vec(), vec![], b"c".to_vec()]), b"abc".to_vec());
}
