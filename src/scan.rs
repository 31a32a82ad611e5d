use vstd::prelude::*;

verus! {

/// A space or a tab: the separator between fields.
pub open spec fn blank(b: u8) -> bool {
    b == 0x20 || b == 0x09
}

/// An ASCII decimal digit.
pub open spec fn digit(b: u8) -> bool {
    0x30 <= b <= 0x39
}

/// A byte that may stand in an opaque token: anything but space, tab, CR and LF.
pub open spec fn token_byte(b: u8) -> bool {
    !(b == 0x20 || b == 0x09 || b == 0x0d || b == 0x0a)
}

/// A byte that may stand in a quoted error message: anything but a single quote.
pub open spec fn message_byte(b: u8) -> bool {
    b != 0x27
}

/// Whether `chr` is an ASCII decimal digit.
pub fn is_digit(chr: u8) -> (r: bool)
    ensures
        r == digit(chr),
{
    chr == 0x30 || chr == 0x31 || chr == 0x32 || chr == 0x33 || chr == 0x34 || chr == 0x35
        || chr == 0x36 || chr == 0x37 || chr == 0x38 || chr == 0x39
}

/// Whether `chr` may stand in an opaque token (it is no space, tab, CR or LF).
pub fn is_not_space(chr: u8) -> (r: bool)
    ensures
        r == token_byte(chr),
{
    chr != 0x20 && chr != 0x09 && chr != 0x0d && chr != 0x0a
}

/// Whether `chr` may stand in a quoted message (it is no single quote).
pub fn is_not_tick(chr: u8) -> (r: bool)
    ensures
        r == message_byte(chr),
{
    chr != 0x27
}

/// Whether `chr` is a field separator byte (space or tab).
pub fn is_blank(chr: u8) -> (r: bool)
    ensures
        r == blank(chr),
{
    chr == 0x20 || chr == 0x09
}

/// The kinds of byte runs that the grammars scan over.
#[derive(Clone, Copy, PartialEq, Eq, Debug)]
pub enum Class {
    Blank,
    Digit,
    Token,
    Message,
}

impl Class {
    pub open spec fn has(self, b: u8) -> bool {
        match self {
            Class::Blank => blank(b),
            Class::Digit => digit(b),
            Class::Token => token_byte(b),
            Class::Message => message_byte(b),
        }
    }

    /// Whether `b` belongs to this class.
    pub fn contains(self, b: u8) -> (r: bool)
        ensures
            r == self.has(b),
    {
        match self {
            Class::Blank => is_blank(b),
            Class::Digit => is_digit(b),
            Class::Token => is_not_space(b),
            Class::Message => is_not_tick(b),
        }
    }
}

/// Where the longest run of bytes of class `c` that starts at `i` ends.
pub open spec fn run_end(s: Seq<u8>, i: int, c: Class) -> int
    decreases s.len() - i,
{
    if 0 <= i < s.len() && c.has(s[i]) {
        run_end(s, i + 1, c)
    } else {
        i
    }
}

/// The value of a run of decimal digits, most significant first.
pub open spec fn decimal(d: Seq<u8>) -> nat
    decreases d.len(),
{
    if d.len() == 0 {
        0
    } else {
        decimal(d.drop_last()) * 10 + (d.last() as int - 0x30) as nat
    }
}

/// A separator at `i`: one or more blanks; the position after them.
pub open spec fn sep(s: Seq<u8>, i: int) -> Option<int> {
    let e = run_end(s, i, Class::Blank);
    if e > i {
        Some(e)
    } else {
        None
    }
}

/// A non-empty run of class `c` at `i`; the position after it.
pub open spec fn run(s: Seq<u8>, i: int, c: Class) -> Option<int> {
    let e = run_end(s, i, c);
    if e > i {
        Some(e)
    } else {
        None
    }
}

/// An unsigned integer at `i`: a non-empty digit run whose value fits in 64 bits;
/// the position after it and the value.
pub open spec fn number(s: Seq<u8>, i: int) -> Option<(int, nat)> {
    let e = run_end(s, i, Class::Digit);
    let v = decimal(s.subrange(i, e));
    if e > i && v <= u64::MAX {
        Some((e, v))
    } else {
        None
    }
}

pub open spec fn lift(r: Option<usize>) -> Option<int> {
    match r {
        Some(e) => Some(e as int),
        None => None,
    }
}

pub proof fn lemma_run_end(s: Seq<u8>, i: int, c: Class)
    requires
        0 <= i <= s.len(),
    ensures
        i <= run_end(s, i, c) <= s.len(),
        forall|k: int| i <= k < run_end(s, i, c) ==> c.has(#[trigger] s[k]),
        run_end(s, i, c) < s.len() ==> !c.has(s[run_end(s, i, c)]),
    decreases s.len() - i,
{
    if i < s.len() && c.has(s[i]) {
        lemma_run_end(s, i + 1, c);
    }
}

/// A run that ends where the class stops is the longest run.
pub proof fn lemma_run_end_at(s: Seq<u8>, i: int, j: int, c: Class)
    requires
        0 <= i <= j <= s.len(),
        forall|k: int| i <= k < j ==> c.has(#[trigger] s[k]),
        j < s.len() ==> !c.has(s[j]),
    ensures
        run_end(s, i, c) == j,
    decreases j - i,
{
    if i < j {
        lemma_run_end_at(s, i + 1, j, c);
    }
}

/// The end of the run of class `c` that starts at `i`.
pub fn scan(s: &[u8], i: usize, c: Class) -> (e: usize)
    requires
        i <= s@.len(),
    ensures
        e as int == run_end(s@, i as int, c),
        i <= e <= s@.len(),
{
    proof {
        lemma_run_end(s@, i as int, c);
    }
    let mut j: usize = i;
    while j < s.len() && c.contains(s[j])
        invariant
            i <= j <= s@.len(),
            run_end(s@, i as int, c) == run_end(s@, j as int, c),
        decreases s@.len() - j,
    {
        j = j + 1;
    }
    j
}

/// A separator at `i`.
pub fn sep_at(s: &[u8], i: usize) -> (r: Option<usize>)
    requires
        i <= s@.len(),
    ensures
        lift(r) == sep(s@, i as int),
        r matches Some(e) ==> e <= s@.len(),
{
    let e = scan(s, i, Class::Blank);
    if e > i {
        Some(e)
    } else {
        None
    }
}

/// A non-empty run of class `c` at `i`.
pub fn run_at(s: &[u8], i: usize, c: Class) -> (r: Option<usize>)
    requires
        i <= s@.len(),
    ensures
        lift(r) == run(s@, i as int, c),
        r matches Some(e) ==> i < e <= s@.len(),
{
    let e = scan(s, i, c);
    if e > i {
        Some(e)
    } else {
        None
    }
}

/// A longer digit string is worth at least as much as its prefix.
pub proof fn lemma_decimal_prefix(d: Seq<u8>, n: int)
    requires
        0 <= n <= d.len(),
        forall|k: int| 0 <= k < d.len() ==> digit(#[trigger] d[k]),
    ensures
        decimal(d.subrange(0, n)) <= decimal(d),
    decreases d.len() - n,
{
    if n < d.len() {
        lemma_decimal_prefix(d, n + 1);
        let p = d.subrange(0, n + 1);
        assert(p.drop_last() =~= d.subrange(0, n));
        assert(digit(p.last()));
    } else {
        assert(d.subrange(0, n) =~= d);
    }
}

/// An unsigned integer at `i`: the digit run is read into a `u64`, and an
/// overflow is a failure.
pub fn number_at(s: &[u8], i: usize) -> (r: Option<(usize, u64)>)
    requires
        i <= s@.len(),
    ensures
        match r {
            Some((e, v)) => number(s@, i as int) == Some((e as int, v as nat)) && e <= s@.len(),
            None => number(s@, i as int) is None,
        },
{
    let e = scan(s, i, Class::Digit);
    if e == i {
        return None;
    }
    proof {
        lemma_run_end(s@, i as int, Class::Digit);
    }
    let ghost d = s@.subrange(i as int, e as int);
    let mut v: u64 = 0;
    let mut j: usize = i;
    while j < e
        invariant
            i <= j <= e <= s@.len(),
            e as int == run_end(s@, i as int, Class::Digit),
            d == s@.subrange(i as int, e as int),
            forall|k: int| 0 <= k < d.len() ==> digit(#[trigger] d[k]),
            v as nat == decimal(d.subrange(0, j - i)),
        decreases e - j,
    {
        proof {
            assert(d[j - i] == s@[j as int]);
            assert(digit(d[j - i]));
        }
        let x = s[j] - 0x30;
        let ghost p = d.subrange(0, j - i + 1);
        proof {
            assert(p.drop_last() =~= d.subrange(0, j - i));
            assert(p.last() == s@[j as int]);
            assert(decimal(p) == v as nat * 10 + x as nat);
        }
        let next = match v.checked_mul(10) {
            Some(t) => t.checked_add(x as u64),
            None => None,
        };
        match next {
            Some(t) => {
                v = t;
            },
            None => {
                proof {
                    assert(decimal(p) > u64::MAX);
                    lemma_decimal_prefix(d, j - i + 1);
                }
                return None;
            },
        }
        j = j + 1;
    }
    proof {
        assert(d.subrange(0, e - i) =~= d);
    }
    Some((e, v))
}

} // verus!
