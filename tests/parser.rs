use nats_header::frame::split_header_and_payload;
use nats_header::headers::{
    parse_err_header, parse_msg_header, parse_pub_header, parse_sub_header, parse_unsub_header,
};

#[test]
fn msg_reply_to() {
    let raw = b"MSG workdispatch 1 reply.topic 11\r\nHello World\r\n";
    let split = split_header_and_payload(raw);
    assert!(split.is_some());
    if let Some(split) = split {
        let hdr = split.0;
        let payload = split.1;

        assert_eq!(std::str::from_utf8(payload).unwrap(), "Hello World");
        let res = parse_msg_header(hdr);
        println!("{:?}", res);
        assert!(res.is_some());
        let h = res.unwrap();
        assert_eq!(h.subject, "workdispatch");
        assert_eq!(h.sid, 1);
        assert_eq!(h.reply_to, Some("reply.topic".to_string()));
        assert_eq!(h.message_len, 11);
    }
}

#[test]
fn msg_irreg_whitespace() {
    let raw = b"MSG\tworkdispatch 1 reply.topic 11\r\nHello World\r\n";
    let split = split_header_and_payload(raw);
    assert!(split.is_some());
    if let Some(split) = split {
        let hdr = split.0;
        let payload = split.1;

        assert_eq!(std::str::from_utf8(payload).unwrap(), "Hello World");
        let res = parse_msg_header(hdr);
        assert!(res.is_some());
    }
}

#[test]
fn unsub_no_max() {
    let msg = b"UNSUB 1";
    let res = parse_unsub_header(msg);
    assert!(res.is_some());
    if let Some(header) = res {
        assert_eq!(header.sid, 1);
        assert_eq!(header.max_messages, None);
    }
}

#[test]
fn unsub_max() {
    let msg = b"UNSUB 1 5";
    let res = parse_unsub_header(msg);
    assert!(res.is_some());
    if let Some(header) = res {
        assert_eq!(header.sid, 1);
        assert_eq!(header.max_messages, Some(5));
    }
}

#[test]
fn pub_no_reply() {
    let msg = b"PUB FOO 11";
    let res = parse_pub_header(msg);
    assert!(res.is_some());
    if let Some(header) = res {
        assert_eq!(header.subject, "FOO");
        assert!(header.reply_to.is_none());
        assert_eq!(header.message_len, 11);
    }
}

#[test]
fn pub_reply() {
    let msg = b"PUB FRONT.DOOR INBOX.22 11";
    let res = parse_pub_header(msg);
    assert!(res.is_some());
    if let Some(header) = res {
        assert_eq!(header.subject, "FRONT.DOOR");
        assert_eq!(header.reply_to, Some("INBOX.22".to_string()));
        assert_eq!(header.message_len, 11);
    }
}

#[test]
fn sub_no_qg() {
    let msg = b"SUB FOO 1";
    let res = parse_sub_header(msg);
    assert!(res.is_some());
    if let Some(header) = res {
        assert_eq!(header.subject, "FOO");
        assert_eq!(header.sid, 1);
        assert_eq!(header.queue_group, None);
    }
}

#[test]
fn sub_qg() {
    let msg = b"SUB BAR G1 44";
    let res = parse_sub_header(msg);
    assert!(res.is_some());
    if let Some(header) = res {
        assert_eq!(header.subject, "BAR");
        assert_eq!(header.sid, 44);
        assert_eq!(header.queue_group, Some("G1".to_string()));
    }
}

#[test]
fn msg_no_reply() {
    let msg = b"MSG workdispatch 1 11";
    let res = parse_msg_header(msg);
    println!("{:?}", res);
    assert!(res.is_some());
    let h = res.unwrap();
    assert_eq!(h.subject, "workdispatch");
    assert_eq!(h.sid, 1);
    assert_eq!(h.reply_to, None);
    assert_eq!(h.message_len, 11);
}

#[test]
fn error_header() {
    let msg = b"-ERR 'Attempted To Connect To Route Port'";
    let res = parse_err_header(msg);
    println!("{:?}", res);
    assert!(res.is_some());
    if let Some(header) = res {
        assert_eq!(header.message, "Attempted To Connect To Route Port");
    }
}
