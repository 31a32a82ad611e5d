//! The grammars of the five control lines and the records they produce.
//!
//! Each grammar must account for the whole header: bytes left over after the
//! last field make the header malformed. Fields are separated by runs of
//! spaces and tabs; opaque tokens stop at a space, tab, CR or LF. An optional
//! field is recognised by position: the longer form `optional sep mandatory`
//! is tried first, and the mandatory field is read alone only where it fails.
//! Text fields are copied into owned `String`s; a token that is not valid
//! UTF-8 makes the whole parse fail.
use vstd::prelude::*;
use vstd::slice::slice_subrange;
use crate::scan::{number, number_at, run, run_at, run_end, scan, sep, sep_at, Class};

verus! {

/// `MSG <subject> <sid> [reply-to] <#bytes>`
#[derive(Debug)]
pub struct MessageHeader {
    pub subject: String,
    pub sid: u64,
    pub reply_to: Option<String>,
    pub message_len: u64,
}

/// `PUB <subject> [reply-to] <#bytes>`
#[derive(Debug)]
pub struct PubHeader {
    pub subject: String,
    pub reply_to: Option<String>,
    pub message_len: u64,
}

/// `SUB <subject> [queue group] <sid>`
#[derive(Debug)]
pub struct SubHeader {
    pub subject: String,
    pub queue_group: Option<String>,
    pub sid: u64,
}

/// `UNSUB <sid> [max_msgs]`
#[derive(Debug)]
pub struct UnsubHeader {
    pub sid: u64,
    pub max_messages: Option<u64>,
}

/// `-ERR '<error message>'`
#[derive(Debug)]
pub struct ErrorHeader {
    pub message: String,
}

/// The text that a byte string decodes to as UTF-8, if it is valid UTF-8.
pub uninterp spec fn utf8_text(b: Seq<u8>) -> Option<Seq<char>>;

/// Relies on `std::str::from_utf8`: it accepts exactly the valid UTF-8 byte
/// strings, and the decoded text depends on the bytes alone.
#[verifier::external_body]
fn text_of(b: &[u8]) -> (r: Option<String>)
    ensures
        match r {
            Some(t) => utf8_text(b@) == Some(t@),
            None => utf8_text(b@) is None,
        },
{
    std::str::from_utf8(b).ok().map(|t| t.to_string())
}

/// An optional token decoded: `None` when a present token is not UTF-8.
pub open spec fn opt_text(o: Option<Seq<u8>>) -> Option<Option<Seq<char>>> {
    match o {
        None => Some(None),
        Some(b) => match utf8_text(b) {
            Some(t) => Some(Some(t)),
            None => None,
        },
    }
}

pub open spec fn view_opt(o: Option<String>) -> Option<Seq<char>> {
    match o {
        Some(t) => Some(t@),
        None => None,
    }
}

pub open spec fn kw_msg() -> Seq<u8> {
    seq![0x4du8, 0x53u8, 0x47u8]
}

pub open spec fn kw_pub() -> Seq<u8> {
    seq![0x50u8, 0x55u8, 0x42u8]
}

pub open spec fn kw_sub() -> Seq<u8> {
    seq![0x53u8, 0x55u8, 0x42u8]
}

pub open spec fn kw_unsub() -> Seq<u8> {
    seq![0x55u8, 0x4eu8, 0x53u8, 0x55u8, 0x42u8]
}

/// `-ERR '`
pub open spec fn kw_err() -> Seq<u8> {
    seq![0x2du8, 0x45u8, 0x52u8, 0x52u8, 0x20u8, 0x27u8]
}

pub open spec fn starts_with(s: Seq<u8>, k: Seq<u8>) -> bool {
    k.len() <= s.len() && s.subrange(0, k.len() as int) == k
}

/// An integer at `i` that ends the header.
pub open spec fn last_number(s: Seq<u8>, i: int) -> Option<nat> {
    match number(s, i) {
        Some((e, v)) => if e == s.len() {
            Some(v)
        } else {
            None
        },
        None => None,
    }
}

/// `[token separator] integer` at `i`, ending the header. The longer form is
/// tried first; only where it does not match is the integer read alone.
pub open spec fn opt_token_number(s: Seq<u8>, i: int) -> Option<(Option<Seq<u8>>, nat)> {
    let long = match run(s, i, Class::Token) {
        Some(j) => match sep(s, j) {
            Some(k) => match last_number(s, k) {
                Some(v) => Some((Some(s.subrange(i, j)), v)),
                None => None,
            },
            None => None,
        },
        None => None,
    };
    if long is Some {
        long
    } else {
        match last_number(s, i) {
            Some(v) => Some((None, v)),
            None => None,
        }
    }
}

/// `<keyword> separator token separator`: the token and the position after.
pub open spec fn keyword_token(s: Seq<u8>, k: Seq<u8>) -> Option<(Seq<u8>, int)> {
    if !starts_with(s, k) {
        None
    } else {
        match sep(s, k.len() as int) {
            Some(a) => match run(s, a, Class::Token) {
                Some(b) => match sep(s, b) {
                    Some(c) => Some((s.subrange(a, b), c)),
                    None => None,
                },
                None => None,
            },
            None => None,
        }
    }
}

/// The fields of a `MSG` line, as bytes and numbers.
pub struct MsgFields {
    pub subject: Seq<u8>,
    pub sid: nat,
    pub reply_to: Option<Seq<u8>>,
    pub message_len: nat,
}

/// The grammar of `MSG`: the whole header is
/// `MSG sep subject sep sid sep [reply-to sep] message_len`.
pub open spec fn msg_fields(s: Seq<u8>) -> Option<MsgFields> {
    match keyword_token(s, kw_msg()) {
        Some((subject, c)) => match number(s, c) {
            Some((d, sid)) => match sep(s, d) {
                Some(e) => match opt_token_number(s, e) {
                    Some((reply_to, message_len)) => Some(
                        MsgFields { subject, sid, reply_to, message_len },
                    ),
                    None => None,
                },
                None => None,
            },
            None => None,
        },
        None => None,
    }
}

/// The grammar of `PUB`: `PUB sep subject sep [reply-to sep] message_len`;
/// the subject, the reply-to and the length.
pub open spec fn pub_fields(s: Seq<u8>) -> Option<(Seq<u8>, Option<Seq<u8>>, nat)> {
    match keyword_token(s, kw_pub()) {
        Some((subject, c)) => match opt_token_number(s, c) {
            Some((reply_to, len)) => Some((subject, reply_to, len)),
            None => None,
        },
        None => None,
    }
}

/// The grammar of `SUB`: `SUB sep subject sep [queue-group sep] sid`;
/// the subject, the queue group and the sid.
pub open spec fn sub_fields(s: Seq<u8>) -> Option<(Seq<u8>, Option<Seq<u8>>, nat)> {
    match keyword_token(s, kw_sub()) {
        Some((subject, c)) => match opt_token_number(s, c) {
            Some((group, sid)) => Some((subject, group, sid)),
            None => None,
        },
        None => None,
    }
}

/// The grammar of `UNSUB`: `UNSUB sep sid [blanks] [max-messages]`;
/// the sid and the maximum.
pub open spec fn unsub_fields(s: Seq<u8>) -> Option<(nat, Option<nat>)> {
    if !starts_with(s, kw_unsub()) {
        None
    } else {
        match sep(s, 5) {
            Some(a) => match number(s, a) {
                Some((b, sid)) => {
                    let c = run_end(s, b, Class::Blank);
                    if c == s.len() {
                        Some((sid, None))
                    } else {
                        match last_number(s, c) {
                            Some(max) => Some((sid, Some(max))),
                            None => None,
                        }
                    }
                },
                None => None,
            },
            None => None,
        }
    }
}

/// The grammar of `-ERR`: `-ERR '` message `'`, where the message is a
/// non-empty run of bytes other than the quote; the message.
pub open spec fn err_message(s: Seq<u8>) -> Option<Seq<u8>> {
    if !starts_with(s, kw_err()) {
        None
    } else {
        match run(s, 6, Class::Message) {
            Some(e) => if e + 1 == s.len() && s[e] == 0x27 {
                Some(s.subrange(6, e))
            } else {
                None
            },
            None => None,
        }
    }
}

pub open spec fn span(s: Seq<u8>, t: Option<(usize, usize)>) -> Option<Seq<u8>> {
    match t {
        Some((a, b)) => Some(s.subrange(a as int, b as int)),
        None => None,
    }
}

/// Whether `s` starts with `k`.
fn has_prefix(s: &[u8], k: &[u8]) -> (r: bool)
    ensures
        r == starts_with(s@, k@),
{
    if k.len() > s.len() {
        return false;
    }
    let mut i: usize = 0;
    while i < k.len()
        invariant
            k@.len() <= s@.len(),
            i <= k@.len(),
            forall|j: int| 0 <= j < i ==> s@[j] == k@[j],
        decreases k@.len() - i,
    {
        if s[i] != k[i] {
            proof {
                assert(s@.subrange(0, k@.len() as int)[i as int] != k@[i as int]);
            }
            return false;
        }
        i = i + 1;
    }
    proof {
        assert(s@.subrange(0, k@.len() as int) =~= k@);
    }
    true
}

/// An integer at `i` that ends the header.
fn last_number_at(s: &[u8], i: usize) -> (r: Option<u64>)
    requires
        i <= s@.len(),
    ensures
        match r {
            Some(v) => last_number(s@, i as int) == Some(v as nat),
            None => last_number(s@, i as int) is None,
        },
{
    match number_at(s, i) {
        Some((e, v)) => if e == s.len() {
            Some(v)
        } else {
            None
        },
        None => None,
    }
}

/// `[token separator] integer` at `i`, ending the header: the span of the
/// optional token and the integer.
fn opt_token_number_at(s: &[u8], i: usize) -> (r: Option<(Option<(usize, usize)>, u64)>)
    requires
        i <= s@.len(),
    ensures
        match r {
            Some((t, v)) => opt_token_number(s@, i as int) == Some((span(s@, t), v as nat))
                && (t matches Some((a, b)) ==> a <= b <= s@.len()),
            None => opt_token_number(s@, i as int) is None,
        },
{
    if let Some(j) = run_at(s, i, Class::Token) {
        if let Some(k) = sep_at(s, j) {
            if let Some(v) = last_number_at(s, k) {
                return Some((Some((i, j)), v));
            }
        }
    }
    match last_number_at(s, i) {
        Some(v) => Some((None, v)),
        None => None,
    }
}

/// `<keyword> separator token separator`: the token's span and the position after.
fn keyword_token_at(s: &[u8], k: &[u8]) -> (r: Option<(usize, usize, usize)>)
    ensures
        match r {
            Some((a, b, c)) => keyword_token(s@, k@) == Some((s@.subrange(a as int, b as int), c as int))
                && a <= b <= c <= s@.len(),
            None => keyword_token(s@, k@) is None,
        },
{
    if !has_prefix(s, k) {
        return None;
    }
    match sep_at(s, k.len()) {
        Some(a) => match run_at(s, a, Class::Token) {
            Some(b) => match sep_at(s, b) {
                Some(c) => {
                    proof {
                        crate::scan::lemma_run_end(s@, b as int, Class::Blank);
                    }
                    Some((a, b, c))
                },
                None => None,
            },
            None => None,
        },
        None => None,
    }
}

/// The text of the bytes `a..b`.
fn text_span(s: &[u8], a: usize, b: usize) -> (r: Option<String>)
    requires
        a <= b <= s@.len(),
    ensures
        match r {
            Some(t) => utf8_text(s@.subrange(a as int, b as int)) == Some(t@),
            None => utf8_text(s@.subrange(a as int, b as int)) is None,
        },
{
    text_of(slice_subrange(s, a, b))
}

/// The text of an optional span.
fn opt_text_span(s: &[u8], t: Option<(usize, usize)>) -> (r: Option<Option<String>>)
    requires
        t matches Some((a, b)) ==> a <= b <= s@.len(),
    ensures
        match r {
            Some(o) => opt_text(span(s@, t)) == Some(view_opt(o)),
            None => opt_text(span(s@, t)) is None,
        },
{
    match t {
        None => Some(None),
        Some((a, b)) => match text_span(s, a, b) {
            Some(x) => Some(Some(x)),
            None => None,
        },
    }
}

/// Parses a `MSG` header. `None` when the header does not follow the grammar
/// or a subject or reply-to is not valid UTF-8.
pub fn parse_msg_header(header: &[u8]) -> (r: Option<MessageHeader>)
    ensures
        r is Some <==> (msg_fields(header@) matches Some(f) && utf8_text(f.subject) is Some
            && opt_text(f.reply_to) is Some),
        r matches Some(m) ==> (msg_fields(header@) matches Some(f) && utf8_text(f.subject) == Some(
            m.subject@,
        ) && opt_text(f.reply_to) == Some(view_opt(m.reply_to)) && m.sid == f.sid
            && m.message_len == f.message_len),
{
    let kw: Vec<u8> = vec![0x4d, 0x53, 0x47];
    proof {
        assert(kw@ =~= kw_msg());
    }
    let (a, b, c) = match keyword_token_at(header, kw.as_slice()) {
        Some(x) => x,
        None => return None,
    };
    let (d, sid) = match number_at(header, c) {
        Some(x) => x,
        None => return None,
    };
    let e = match sep_at(header, d) {
        Some(x) => x,
        None => return None,
    };
    let (t, message_len) = match opt_token_number_at(header, e) {
        Some(x) => x,
        None => return None,
    };
    let subject = match text_span(header, a, b) {
        Some(x) => x,
        None => return None,
    };
    let reply_to = match opt_text_span(header, t) {
        Some(x) => x,
        None => return None,
    };
    Some(MessageHeader { subject, sid, reply_to, message_len })
}

/// Parses a `PUB` header. `None` when the header does not follow the grammar
/// or a subject or reply-to is not valid UTF-8.
pub fn parse_pub_header(header: &[u8]) -> (r: Option<PubHeader>)
    ensures
        r is Some <==> (pub_fields(header@) matches Some(f) && utf8_text(f.0) is Some
            && opt_text(f.1) is Some),
        r matches Some(m) ==> (pub_fields(header@) matches Some(f) && utf8_text(f.0) == Some(
            m.subject@,
        ) && opt_text(f.1) == Some(view_opt(m.reply_to)) && m.message_len == f.2),
{
    let kw: Vec<u8> = vec![0x50, 0x55, 0x42];
    proof {
        assert(kw@ =~= kw_pub());
    }
    let (a, b, c) = match keyword_token_at(header, kw.as_slice()) {
        Some(x) => x,
        None => return None,
    };
    let (t, message_len) = match opt_token_number_at(header, c) {
        Some(x) => x,
        None => return None,
    };
    let subject = match text_span(header, a, b) {
        Some(x) => x,
        None => return None,
    };
    let reply_to = match opt_text_span(header, t) {
        Some(x) => x,
        None => return None,
    };
    Some(PubHeader { subject, reply_to, message_len })
}

/// Parses a `SUB` header. `None` when the header does not follow the grammar
/// or a subject or queue group is not valid UTF-8.
pub fn parse_sub_header(header: &[u8]) -> (r: Option<SubHeader>)
    ensures
        r is Some <==> (sub_fields(header@) matches Some(f) && utf8_text(f.0) is Some
            && opt_text(f.1) is Some),
        r matches Some(m) ==> (sub_fields(header@) matches Some(f) && utf8_text(f.0) == Some(
            m.subject@,
        ) && opt_text(f.1) == Some(view_opt(m.queue_group)) && m.sid == f.2),
{
    let kw: Vec<u8> = vec![0x53, 0x55, 0x42];
    proof {
        assert(kw@ =~= kw_sub());
    }
    let (a, b, c) = match keyword_token_at(header, kw.as_slice()) {
        Some(x) => x,
        None => return None,
    };
    let (t, sid) = match opt_token_number_at(header, c) {
        Some(x) => x,
        None => return None,
    };
    let subject = match text_span(header, a, b) {
        Some(x) => x,
        None => return None,
    };
    let queue_group = match opt_text_span(header, t) {
        Some(x) => x,
        None => return None,
    };
    Some(SubHeader { subject, queue_group, sid })
}

/// Parses an `UNSUB` header. `None` when the header does not follow the grammar.
pub fn parse_unsub_header(header: &[u8]) -> (r: Option<UnsubHeader>)
    ensures
        match r {
            Some(u) => unsub_fields(header@) == Some(
                (
                    u.sid as nat,
                    match u.max_messages {
                        Some(m) => Some(m as nat),
                        None => None,
                    },
                ),
            ),
            None => unsub_fields(header@) is None,
        },
{
    let kw: Vec<u8> = vec![0x55, 0x4e, 0x53, 0x55, 0x42];
    proof {
        assert(kw@ =~= kw_unsub());
    }
    if !has_prefix(header, kw.as_slice()) {
        return None;
    }
    let a = match sep_at(header, 5) {
        Some(x) => x,
        None => return None,
    };
    let (b, sid) = match number_at(header, a) {
        Some(x) => x,
        None => return None,
    };
    let c = scan(header, b, Class::Blank);
    if c == header.len() {
        return Some(UnsubHeader { sid, max_messages: None });
    }
    match last_number_at(header, c) {
        Some(max) => Some(UnsubHeader { sid, max_messages: Some(max) }),
        None => None,
    }
}

/// Parses a `-ERR` header. `None` when the header does not follow the grammar
/// or the message is not valid UTF-8.
pub fn parse_err_header(header: &[u8]) -> (r: Option<ErrorHeader>)
    ensures
        r is Some <==> (err_message(header@) matches Some(m) && utf8_text(m) is Some),
        r matches Some(h) ==> (err_message(header@) matches Some(m) && utf8_text(m) == Some(
            h.message@,
        )),
{
    let kw: Vec<u8> = vec![0x2d, 0x45, 0x52, 0x52, 0x20, 0x27];
    proof {
        assert(kw@ =~= kw_err());
    }
    if !has_prefix(header, kw.as_slice()) {
        return None;
    }
    let e = match run_at(header, 6, Class::Message) {
        Some(x) => x,
        None => return None,
    };
    if e == header.len() || e != header.len() - 1 || header[e] != 0x27 {
        return None;
    }
    let message = match text_span(header, 6, e) {
        Some(x) => x,
        None => return None,
    };
    Some(ErrorHeader { message })
}

} // verus!
