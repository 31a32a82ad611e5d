use vstd::prelude::*;
use vstd::slice::slice_subrange;

verus! {

/// The two bytes CR LF.
pub open spec fn crlf() -> Seq<u8> {
    seq![0x0du8, 0x0au8]
}

/// Whether a CRLF starts at `i`.
pub open spec fn crlf_at(s: Seq<u8>, i: int) -> bool {
    0 <= i && i + 1 < s.len() && s[i] == 0x0d && s[i + 1] == 0x0a
}

/// The first CRLF at or after `i`.
pub open spec fn first_crlf(s: Seq<u8>, i: int) -> Option<int>
    decreases s.len() - i,
{
    if i < 0 || i + 1 >= s.len() {
        None
    } else if crlf_at(s, i) {
        Some(i)
    } else {
        first_crlf(s, i + 1)
    }
}

/// A frame split at its first CRLF: the header before it, and the payload
/// between it and the frame's last two bytes (the closing CRLF), empty where
/// nothing lies between them.
pub open spec fn split_frame(s: Seq<u8>) -> Option<(Seq<u8>, Seq<u8>)> {
    match first_crlf(s, 0) {
        None => None,
        Some(idx) => Some(
            (
                s.subrange(0, idx),
                if idx + 2 <= s.len() - 2 {
                    s.subrange(idx + 2, s.len() - 2)
                } else {
                    Seq::<u8>::empty()
                },
            ),
        ),
    }
}

/// Splits a frame into its header (the bytes before the first CRLF) and its
/// payload (the bytes after that CRLF, without the frame's closing two bytes).
/// `None` when the frame holds no CRLF.
pub fn split_header_and_payload(source: &[u8]) -> (r: Option<(&[u8], &[u8])>)
    ensures
        match r {
            Some((h, p)) => split_frame(source@) == Some((h@, p@)),
            None => split_frame(source@) is None,
        },
{
    let len = source.len();
    if len < 2 {
        return None;
    }
    let mut i: usize = 0;
    while i + 1 < len
        invariant
            len == source@.len(),
            len >= 2,
            i + 1 <= len,
            first_crlf(source@, 0) == first_crlf(source@, i as int),
        decreases len - i,
    {
        if source[i] == 0x0d && source[i + 1] == 0x0a {
            let header = slice_subrange(source, 0, i);
            let payload = if i + 2 <= len - 2 {
                slice_subrange(source, i + 2, len - 2)
            } else {
                slice_subrange(source, len, len)
            };
            proof {
                assert(payload@ =~= split_frame(source@)->Some_0.1);
            }
            return Some((header, payload));
        }
        i = i + 1;
    }
    None
}

/// Splitting undoes framing: a header without CRLF, followed by CRLF, any
/// payload and a closing CRLF, splits back into that header and that payload.
pub proof fn lemma_split_frame_inverse(header: Seq<u8>, payload: Seq<u8>)
    requires
        forall|i: int| !crlf_at(header, i),
    ensures
        split_frame(header + crlf() + payload + crlf()) == Some((header, payload)),
{
    let f = header + crlf() + payload + crlf();
    let n = header.len() as int;
    assert(f[n] == 0x0d && f[n + 1] == 0x0a);
    assert(crlf_at(f, n));
    assert(f.subrange(0, n) =~= header);
    lemma_first_crlf_prefix(header, f, 0);
    assert(f.subrange(n + 2, f.len() - 2) =~= payload);
}

proof fn lemma_first_crlf_prefix(header: Seq<u8>, f: Seq<u8>, i: int)
    requires
        0 <= i <= header.len(),
        forall|k: int| !crlf_at(header, k),
        f.len() >= header.len() + 2,
        f.subrange(0, header.len() as int) == header,
        crlf_at(f, header.len() as int),
    ensures
        first_crlf(f, i) == Some(header.len() as int),
    decreases header.len() - i,
{
    let n = header.len() as int;
    if i < n {
        assert(f[i] == header[i]);
        if i + 1 < n {
            assert(f[i + 1] == header[i + 1]);
            assert(!crlf_at(header, i));
        }
        assert(!crlf_at(f, i));
        lemma_first_crlf_prefix(header, f, i + 1);
    }
}

} // verus!
