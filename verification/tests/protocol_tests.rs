use server::protocol::{decode_text, decode_ticket_reply, parse_query_request, DecodeError};

#[test]
fn query_is_split_at_first_colon_and_trimmed() {
    let q = parse_query_request(b"abc:1:2 \n".to_vec()).unwrap();
    assert_eq!(q.query, "abc:1:2 \n");
    assert_eq!(q.namespace, "abc");
    assert_eq!(q.tag, "abc:1:2");
}

#[test]
fn query_without_colon_names_whole_text() {
    let q = parse_query_request(b" xyz ".to_vec()).unwrap();
    assert_eq!(q.namespace, " xyz ");
    assert_eq!(q.tag, "xyz");
}

#[test]
fn empty_query() {
    let q = parse_query_request(Vec::new()).unwrap();
    assert_eq!(q.query, "");
    assert_eq!(q.namespace, "");
    assert_eq!(q.tag, "");
}

#[test]
fn query_decodes_multibyte_text() {
    let q = parse_query_request("é:ü".as_bytes().to_vec()).unwrap();
    assert_eq!(q.namespace, "é");
}

#[test]
fn invalid_utf8_query_is_refused() {
    assert!(matches!(parse_query_request(vec![0xff, 0x3a]), Err(DecodeError::InvalidUtf8)));
    assert!(matches!(parse_query_request(vec![0xed, 0xa0, 0x80]), Err(DecodeError::InvalidUtf8)));
    assert!(matches!(parse_query_request(vec![0xc0, 0x80]), Err(DecodeError::InvalidUtf8)));
}

#[test]
fn decode_text_keeps_text() {
    assert_eq!(decode_text(b"doc:3".to_vec()).unwrap(), "doc:3");
    assert!(matches!(decode_text(vec![0x80]), Err(DecodeError::InvalidUtf8)));
}

#[test]
fn ticket_reply_is_trimmed() {
    assert_eq!(decode_ticket_reply(b"  docaaaa\n".to_vec()).unwrap(), "docaaaa");
    assert_eq!(decode_ticket_reply(Vec::new()).unwrap(), "");
    assert!(matches!(decode_ticket_reply(vec![0xfe]), Err(DecodeError::InvalidUtf8)));
}
