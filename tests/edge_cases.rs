use nats_header::frame::split_header_and_payload;
use nats_header::headers::{
    parse_err_header, parse_msg_header, parse_pub_header, parse_sub_header, parse_unsub_header,
};
use nats_header::scan::{is_digit, is_not_space, is_not_tick};

#[test]
fn split_without_crlf_fails() {
    assert!(split_header_and_payload(b"PUB FOO 11").is_none());
    assert!(split_header_and_payload(b"").is_none());
}

#[test]
fn split_keeps_crlf_inside_payload() {
    let (h, p) = split_header_and_payload(b"PUB A 4\r\na\r\nb\r\n").unwrap();
    assert_eq!(h, b"PUB A 4");
    assert_eq!(p, b"a\r\nb");
}

#[test]
fn split_header_only_frame() {
    let (h, p) = split_header_and_payload(b"SUB FOO 1\r\n").unwrap();
    assert_eq!(h, b"SUB FOO 1");
    assert!(p.is_empty());
}

#[test]
fn split_empty_payload() {
    let (h, p) = split_header_and_payload(b"MSG a 1 0\r\n\r\n").unwrap();
    assert_eq!(h, b"MSG a 1 0");
    assert!(p.is_empty());
}

#[test]
fn msg_tabs_everywhere() {
    let h = parse_msg_header(b"MSG\t\tsubj\t7 \tinbox\t 42").unwrap();
    assert_eq!(h.subject, "subj");
    assert_eq!(h.sid, 7);
    assert_eq!(h.reply_to, Some("inbox".to_string()));
    assert_eq!(h.message_len, 42);
}

#[test]
fn msg_missing_length_fails() {
    assert!(parse_msg_header(b"MSG subj 1").is_none());
    assert!(parse_msg_header(b"MSG subj 1 ").is_none());
}

#[test]
fn msg_non_digit_length_fails() {
    assert!(parse_msg_header(b"MSG subj 1 1x").is_none());
    assert!(parse_msg_header(b"MSG subj x 11").is_none());
    assert!(parse_msg_header(b"MSG subj 1 reply abc").is_none());
}

#[test]
fn msg_keyword_mismatch_fails() {
    assert!(parse_msg_header(b"msg subj 1 11").is_none());
    assert!(parse_msg_header(b"MSGsubj 1 11").is_none());
    assert!(parse_msg_header(b"PUB subj 1 11").is_none());
}

#[test]
fn msg_largest_length() {
    let h = parse_msg_header(b"MSG s 18446744073709551615 007").unwrap();
    assert_eq!(h.sid, u64::MAX);
    assert_eq!(h.message_len, 7);
}

#[test]
fn msg_overflowing_sid_fails() {
    assert!(parse_msg_header(b"MSG s 18446744073709551616 1").is_none());
}

#[test]
fn msg_invalid_utf8_subject_fails() {
    assert!(parse_msg_header(b"MSG \xff\xfe 1 2").is_none());
}

#[test]
fn msg_utf8_subject_decoded() {
    let h = parse_msg_header("MSG caf\u{e9} 1 2".as_bytes()).unwrap();
    assert_eq!(h.subject, "caf\u{e9}");
}

#[test]
fn pub_missing_length_fails() {
    assert!(parse_pub_header(b"PUB FOO").is_none());
    assert!(parse_pub_header(b"PUB FOO BAR").is_none());
}

#[test]
fn sub_missing_sid_fails() {
    assert!(parse_sub_header(b"SUB FOO G1").is_none());
    assert!(parse_sub_header(b"SUB FOO").is_none());
}

#[test]
fn sub_tab_after_keyword() {
    let h = parse_sub_header(b"SUB\tFOO\t9").unwrap();
    assert_eq!(h.subject, "FOO");
    assert_eq!(h.queue_group, None);
    assert_eq!(h.sid, 9);
}

#[test]
fn unsub_trailing_blank_and_tab() {
    let h = parse_unsub_header(b"UNSUB\t12\t").unwrap();
    assert_eq!(h.sid, 12);
    assert_eq!(h.max_messages, None);
    let h = parse_unsub_header(b"UNSUB 3\t100").unwrap();
    assert_eq!(h.max_messages, Some(100));
}

#[test]
fn unsub_malformed_fails() {
    assert!(parse_unsub_header(b"UNSUB").is_none());
    assert!(parse_unsub_header(b"UNSUB x").is_none());
    assert!(parse_unsub_header(b"UNSUB 1 x").is_none());
    assert!(parse_unsub_header(b"UNSUBSCRIBE 1").is_none());
}

#[test]
fn err_unterminated_fails() {
    assert!(parse_err_header(b"-ERR 'no end").is_none());
    assert!(parse_err_header(b"-ERR ''").is_none());
    assert!(parse_err_header(b"-ERR no quotes").is_none());
    assert!(parse_err_header(b"-ERR 'a' b").is_none());
}

#[test]
fn byte_classes() {
    assert!(is_digit(b'0') && is_digit(b'9'));
    assert!(!is_digit(b'a') && !is_digit(b'/') && !is_digit(b':'));
    assert!(is_not_space(b'A'));
    assert!(!is_not_space(b' ') && !is_not_space(b'\t') && !is_not_space(b'\r') && !is_not_space(b'\n'));
    assert!(is_not_tick(b'"') && !is_not_tick(b'\''));
}
