use vstd::prelude::*;
use crate::scan::{
    blank, decimal, digit, lemma_run_end, lemma_run_end_at, number, run, run_end,
    sep, token_byte, Class,
};
use crate::headers::{
    err_message, keyword_token, kw_err, kw_msg, kw_pub, kw_sub, kw_unsub, last_number,
    msg_fields, opt_token_number, pub_fields, starts_with, sub_fields, unsub_fields, MsgFields,
};

verus! {

/// A non-empty run of spaces and tabs.
pub open spec fn blanks(b: Seq<u8>) -> bool {
    b.len() > 0 && forall|k: int| 0 <= k < b.len() ==> blank(#[trigger] b[k])
}

/// A non-empty opaque token.
pub open spec fn token(t: Seq<u8>) -> bool {
    t.len() > 0 && forall|k: int| 0 <= k < t.len() ==> token_byte(#[trigger] t[k])
}

/// The decimal text of an integer that fits in 64 bits.
pub open spec fn numeral(d: Seq<u8>) -> bool {
    &&& d.len() > 0
    &&& forall|k: int| 0 <= k < d.len() ==> digit(#[trigger] d[k])
    &&& decimal(d) <= u64::MAX
}

/// The piece of `f` at `i` is a maximal run of class `c` when the byte after
/// it, if any, is outside the class.
proof fn lemma_piece(f: Seq<u8>, i: int, piece: Seq<u8>, c: Class)
    requires
        0 <= i,
        i + piece.len() <= f.len(),
        f.subrange(i, i + piece.len()) == piece,
        forall|k: int| 0 <= k < piece.len() ==> c.has(#[trigger] piece[k]),
        i + piece.len() < f.len() ==> !c.has(f[i + piece.len()]),
    ensures
        run_end(f, i, c) == i + piece.len(),
{
    assert forall|k: int| i <= k < i + piece.len() implies c.has(#[trigger] f[k]) by {
        assert(f[k] == f.subrange(i, i + piece.len())[k - i]);
    }
    lemma_run_end_at(f, i, i + piece.len(), c);
}

proof fn lemma_first(f: Seq<u8>, i: int, piece: Seq<u8>)
    requires
        0 <= i,
        piece.len() > 0,
        i + piece.len() <= f.len(),
        f.subrange(i, i + piece.len()) == piece,
    ensures
        f[i] == piece[0],
{
    assert(f[i] == f.subrange(i, i + piece.len())[0]);
}

/// The `MSG` grammar reads four fields: for any separators of spaces and tabs,
/// `MSG subject sid reply-to length` yields exactly those four tokens, with the
/// two integers read as the values of their decimal text.
pub proof fn lemma_msg_four_fields(
    b1: Seq<u8>,
    subject: Seq<u8>,
    b2: Seq<u8>,
    sid: Seq<u8>,
    b3: Seq<u8>,
    reply: Seq<u8>,
    b4: Seq<u8>,
    len: Seq<u8>,
)
    requires
        blanks(b1),
        blanks(b2),
        blanks(b3),
        blanks(b4),
        token(subject),
        token(reply),
        numeral(sid),
        numeral(len),
    ensures
        msg_fields(kw_msg() + b1 + subject + b2 + sid + b3 + reply + b4 + len) == Some(
            MsgFields {
                subject,
                sid: decimal(sid),
                reply_to: Some(reply),
                message_len: decimal(len),
            },
        ),
{
    let h = kw_msg() + b1 + subject + b2 + sid + b3 + reply + b4 + len;
    let p0: int = 3;
    let p1 = p0 + b1.len();
    let p2 = p1 + subject.len();
    let p3 = p2 + b2.len();
    let p4 = p3 + sid.len();
    let p5 = p4 + b3.len();
    let p6 = p5 + reply.len();
    let p7 = p6 + b4.len();
    let p8 = p7 + len.len();
    assert(h.len() == p8);
    assert(h.subrange(0, 3) =~= kw_msg());
    assert(h.subrange(p0, p1) =~= b1);
    assert(h.subrange(p1, p2) =~= subject);
    assert(h.subrange(p2, p3) =~= b2);
    assert(h.subrange(p3, p4) =~= sid);
    assert(h.subrange(p4, p5) =~= b3);
    assert(h.subrange(p5, p6) =~= reply);
    assert(h.subrange(p6, p7) =~= b4);
    assert(h.subrange(p7, p8) =~= len);
    lemma_first(h, p1, subject);
    lemma_first(h, p2, b2);
    lemma_first(h, p4, b3);
    lemma_first(h, p5, reply);
    lemma_first(h, p6, b4);
    lemma_first(h, p7, len);
    assert(blank(b2[0]) && blank(b3[0]) && blank(b4[0]));
    assert(token_byte(subject[0]) && token_byte(reply[0]) && digit(len[0]));
    lemma_piece(h, p0, b1, Class::Blank);
    lemma_piece(h, p1, subject, Class::Token);
    lemma_piece(h, p2, b2, Class::Blank);
    lemma_piece(h, p3, sid, Class::Digit);
    lemma_piece(h, p4, b3, Class::Blank);
    lemma_piece(h, p5, reply, Class::Token);
    lemma_piece(h, p6, b4, Class::Blank);
    lemma_piece(h, p7, len, Class::Digit);
    assert(keyword_token(h, kw_msg()) == Some((subject, p3)));
    assert(number(h, p3) == Some((p4, decimal(sid))));
    assert(sep(h, p4) == Some(p5));
    assert(last_number(h, p7) == Some(decimal(len)));
    assert(opt_token_number(h, p5) == Some((Some(reply), decimal(len))));
}

/// Without a reply-to the `MSG` grammar reads three fields: for any separators
/// of spaces and tabs, `MSG subject sid length` yields those tokens and no
/// reply-to.
pub proof fn lemma_msg_three_fields(
    b1: Seq<u8>,
    subject: Seq<u8>,
    b2: Seq<u8>,
    sid: Seq<u8>,
    b3: Seq<u8>,
    len: Seq<u8>,
)
    requires
        blanks(b1),
        blanks(b2),
        blanks(b3),
        token(subject),
        numeral(sid),
        numeral(len),
    ensures
        msg_fields(kw_msg() + b1 + subject + b2 + sid + b3 + len) == Some(
            MsgFields { subject, sid: decimal(sid), reply_to: None, message_len: decimal(len) },
        ),
{
    let h = kw_msg() + b1 + subject + b2 + sid + b3 + len;
    let p0: int = 3;
    let p1 = p0 + b1.len();
    let p2 = p1 + subject.len();
    let p3 = p2 + b2.len();
    let p4 = p3 + sid.len();
    let p5 = p4 + b3.len();
    let p6 = p5 + len.len();
    assert(h.len() == p6);
    assert(h.subrange(0, 3) =~= kw_msg());
    assert(h.subrange(p0, p1) =~= b1);
    assert(h.subrange(p1, p2) =~= subject);
    assert(h.subrange(p2, p3) =~= b2);
    assert(h.subrange(p3, p4) =~= sid);
    assert(h.subrange(p4, p5) =~= b3);
    assert(h.subrange(p5, p6) =~= len);
    lemma_first(h, p1, subject);
    lemma_first(h, p2, b2);
    lemma_first(h, p4, b3);
    lemma_first(h, p5, len);
    assert(blank(b2[0]) && blank(b3[0]));
    assert(token_byte(subject[0]) && digit(len[0]));
    lemma_piece(h, p0, b1, Class::Blank);
    lemma_piece(h, p1, subject, Class::Token);
    lemma_piece(h, p2, b2, Class::Blank);
    lemma_piece(h, p3, sid, Class::Digit);
    lemma_piece(h, p4, b3, Class::Blank);
    lemma_piece(h, p5, len, Class::Digit);
    assert forall|k: int| 0 <= k < len.len() implies token_byte(#[trigger] len[k]) by {
        assert(digit(len[k]));
    }
    lemma_piece(h, p5, len, Class::Token);
    assert(run_end(h, p6, Class::Blank) == p6);
    assert(run(h, p5, Class::Token) == Some(p6));
    assert(sep(h, p6) is None);
    assert(keyword_token(h, kw_msg()) == Some((subject, p3)));
    assert(number(h, p3) == Some((p4, decimal(sid))));
    assert(sep(h, p4) == Some(p5));
    assert(last_number(h, p5) == Some(decimal(len)));
    assert(opt_token_number(h, p5) == Some((None::<Seq<u8>>, decimal(len))));
}

proof fn lemma_last_number_digit(s: Seq<u8>, i: int)
    requires
        0 <= i <= s.len(),
        last_number(s, i) is Some,
    ensures
        s.len() > 0 && digit(s.last()),
{
    lemma_run_end(s, i, Class::Digit);
    assert(Class::Digit.has(s[s.len() - 1]));
}

proof fn lemma_opt_token_number_digit(s: Seq<u8>, i: int)
    requires
        0 <= i <= s.len(),
        opt_token_number(s, i) is Some,
    ensures
        s.len() > 0 && digit(s.last()),
{
    if let Some(j) = run(s, i, Class::Token) {
        lemma_run_end(s, i, Class::Token);
        if let Some(k) = sep(s, j) {
            lemma_run_end(s, j, Class::Blank);
            if last_number(s, k) is Some {
                lemma_last_number_digit(s, k);
                return;
            }
        }
    }
    lemma_last_number_digit(s, i);
}

proof fn lemma_keyword_token_bounds(s: Seq<u8>, k: Seq<u8>)
    requires
        keyword_token(s, k) is Some,
    ensures
        keyword_token(s, k) matches Some((t, c)) && 0 <= c <= s.len(),
{
    let a = run_end(s, k.len() as int, Class::Blank);
    lemma_run_end(s, k.len() as int, Class::Blank);
    lemma_run_end(s, a, Class::Token);
    let b = run_end(s, a, Class::Token);
    lemma_run_end(s, b, Class::Blank);
}

/// A header that does not start with its command keyword is refused by that
/// command's grammar.
pub proof fn lemma_keyword_mismatch_fails(s: Seq<u8>)
    ensures
        !starts_with(s, kw_msg()) ==> msg_fields(s) is None,
        !starts_with(s, kw_pub()) ==> pub_fields(s) is None,
        !starts_with(s, kw_sub()) ==> sub_fields(s) is None,
        !starts_with(s, kw_unsub()) ==> unsub_fields(s) is None,
        !starts_with(s, kw_err()) ==> err_message(s) is None,
{
}

/// The mandatory integer ends `MSG`, `PUB` and `SUB` lines: a header whose last
/// byte is no digit (the integer is missing or holds another byte) is refused.
pub proof fn lemma_missing_integer_fails(s: Seq<u8>)
    requires
        s.len() == 0 || !digit(s.last()),
    ensures
        msg_fields(s) is None,
        pub_fields(s) is None,
        sub_fields(s) is None,
{
    if msg_fields(s) is Some {
        lemma_keyword_token_bounds(s, kw_msg());
        let c = keyword_token(s, kw_msg())->Some_0.1;
        lemma_run_end(s, c, Class::Digit);
        let d = number(s, c)->Some_0.0;
        lemma_run_end(s, d, Class::Blank);
        let e = sep(s, d)->Some_0;
        lemma_opt_token_number_digit(s, e);
    }
    if pub_fields(s) is Some {
        lemma_keyword_token_bounds(s, kw_pub());
        lemma_opt_token_number_digit(s, keyword_token(s, kw_pub())->Some_0.1);
    }
    if sub_fields(s) is Some {
        lemma_keyword_token_bounds(s, kw_sub());
        lemma_opt_token_number_digit(s, keyword_token(s, kw_sub())->Some_0.1);
    }
}

/// An `-ERR` line whose message has no closing quote is refused.
pub proof fn lemma_unterminated_quote_fails(s: Seq<u8>)
    requires
        forall|k: int| 6 <= k < s.len() ==> s[k] != 0x27,
    ensures
        err_message(s) is None,
{
}

/// The tail of a `PUB` or `SUB` line: an optional token and its separator,
/// then the integer.
pub open spec fn opt_tail(opt: Option<Seq<u8>>, b3: Seq<u8>, num: Seq<u8>) -> Seq<u8> {
    match opt {
        Some(t) => t + b3 + num,
        None => num,
    }
}

proof fn lemma_keyword_opt_tail(
    k: Seq<u8>,
    b1: Seq<u8>,
    subject: Seq<u8>,
    b2: Seq<u8>,
    opt: Option<Seq<u8>>,
    b3: Seq<u8>,
    num: Seq<u8>,
)
    requires
        blanks(b1),
        blanks(b2),
        token(subject),
        numeral(num),
        opt matches Some(t) ==> token(t) && blanks(b3),
    ensures
        ({
            let h = k + b1 + subject + b2 + opt_tail(opt, b3, num);
            let p3 = (k.len() + b1.len() + subject.len() + b2.len()) as int;
            &&& keyword_token(h, k) == Some((subject, p3))
            &&& opt_token_number(h, p3) == Some((opt, decimal(num)))
        }),
{
    let tail = opt_tail(opt, b3, num);
    let h = k + b1 + subject + b2 + tail;
    let p0 = k.len() as int;
    let p1 = p0 + b1.len();
    let p2 = p1 + subject.len();
    let p3 = p2 + b2.len();
    assert(h.len() == p3 + tail.len());
    assert(h.subrange(0, p0) =~= k);
    assert(h.subrange(p0, p1) =~= b1);
    assert(h.subrange(p1, p2) =~= subject);
    assert(h.subrange(p2, p3) =~= b2);
    assert(h.subrange(p3, h.len() as int) =~= tail);
    lemma_first(h, p1, subject);
    lemma_first(h, p2, b2);
    assert(blank(b2[0]) && token_byte(subject[0]));
    lemma_piece(h, p0, b1, Class::Blank);
    lemma_piece(h, p1, subject, Class::Token);
    lemma_first(h, p3, tail);
    match opt {
        Some(t) => {
            assert(tail[0] == t[0]);
            assert(token_byte(t[0]));
        },
        None => {
            assert(digit(num[0]));
        },
    }
    lemma_piece(h, p2, b2, Class::Blank);
    assert(keyword_token(h, k) == Some((subject, p3)));
    assert forall|i: int| 0 <= i < num.len() implies token_byte(#[trigger] num[i]) by {
        assert(digit(num[i]));
    }
    match opt {
        Some(t) => {
            let p4 = p3 + t.len();
            let p5 = p4 + b3.len();
            assert(h.subrange(p3, p4) =~= t);
            assert(h.subrange(p4, p5) =~= b3);
            assert(h.subrange(p5, h.len() as int) =~= num);
            lemma_first(h, p4, b3);
            lemma_first(h, p5, num);
            assert(blank(b3[0]) && digit(num[0]));
            lemma_piece(h, p3, t, Class::Token);
            lemma_piece(h, p4, b3, Class::Blank);
            lemma_piece(h, p5, num, Class::Digit);
            assert(last_number(h, p5) == Some(decimal(num)));
        },
        None => {
            lemma_piece(h, p3, num, Class::Digit);
            lemma_piece(h, p3, num, Class::Token);
            assert(run_end(h, h.len() as int, Class::Blank) == h.len());
            assert(sep(h, h.len() as int) is None);
            assert(last_number(h, p3) == Some(decimal(num)));
        },
    }
}

/// The optional field of `PUB` (reply-to) and of `SUB` (queue group) is
/// present exactly when the line holds it: for any separators of spaces and
/// tabs, `PUB subject [reply-to] length` and `SUB subject [group] sid` yield
/// the tokens written, with the integer read as the value of its decimal text.
pub proof fn lemma_pub_sub_fields(
    b1: Seq<u8>,
    subject: Seq<u8>,
    b2: Seq<u8>,
    opt: Option<Seq<u8>>,
    b3: Seq<u8>,
    num: Seq<u8>,
)
    requires
        blanks(b1),
        blanks(b2),
        token(subject),
        numeral(num),
        opt matches Some(t) ==> token(t) && blanks(b3),
    ensures
        pub_fields(kw_pub() + b1 + subject + b2 + opt_tail(opt, b3, num)) == Some(
            (subject, opt, decimal(num)),
        ),
        sub_fields(kw_sub() + b1 + subject + b2 + opt_tail(opt, b3, num)) == Some(
            (subject, opt, decimal(num)),
        ),
{
    lemma_keyword_opt_tail(kw_pub(), b1, subject, b2, opt, b3, num);
    lemma_keyword_opt_tail(kw_sub(), b1, subject, b2, opt, b3, num);
}

} // verus!
