//! Stretches of a buffer that hold whole chunks, one behind the other, and
//! what the search for a tag finds in them.
use crate::convert::lemma_u32_round_trip;
use crate::convert::readable;
use crate::convert::u32_le;
use crate::riff::chunk::chunk_header;
use crate::riff::chunk::next_chunk;
use crate::riff::chunk::occurrences_from;
use crate::riff::chunk::tagged;
use vstd::prelude::*;

verus! {

/// The distance from `p` up to `q`, or 0 where `q` lies before `p`.
pub open spec fn gap(p: int, q: int) -> nat {
    if p < q {
        (q - p) as nat
    } else {
        0
    }
}

/// Whether the stretch of `buf` from `p` to `q` holds whole chunks: the
/// walk from chunk to chunk that starts at `p` arrives at `q`.
pub open spec fn is_span(buf: Seq<u8>, p: int, q: int) -> bool
    decreases gap(p, q),
{
    if p >= q {
        p == q
    } else {
        readable(buf, p, 8) && is_span(buf, next_chunk(buf, p), q)
    }
}

/// The positions of the chunks tagged `tag` that the walk from `p` meets
/// before `q`.
pub open spec fn occ_in(buf: Seq<u8>, p: int, q: int, tag: Seq<u8>) -> Seq<int>
    decreases gap(p, q),
{
    if p >= q || !readable(buf, p, 8) {
        Seq::empty()
    } else if tagged(buf, p, tag) {
        seq![p] + occ_in(buf, next_chunk(buf, p), q, tag)
    } else {
        occ_in(buf, next_chunk(buf, p), q, tag)
    }
}

/// Behind a stretch of whole chunks, the search goes on as if it had
/// started there.
pub proof fn lemma_span_then(buf: Seq<u8>, p: int, q: int, tag: Seq<u8>)
    requires
        is_span(buf, p, q),
    ensures
        occurrences_from(buf, p, tag) == occ_in(buf, p, q, tag) + occurrences_from(buf, q, tag),
    decreases gap(p, q),
{
    if p >= q {
        assert(occ_in(buf, p, q, tag) + occurrences_from(buf, q, tag) =~= occurrences_from(
            buf,
            q,
            tag,
        ));
    } else {
        let next = next_chunk(buf, p);
        lemma_span_then(buf, next, q, tag);
        if tagged(buf, p, tag) {
            assert(seq![p] + (occ_in(buf, next, q, tag) + occurrences_from(buf, q, tag)) =~= (
            seq![p] + occ_in(buf, next, q, tag)) + occurrences_from(buf, q, tag));
        }
    }
}

/// Two stretches of whole chunks, one behind the other, are one stretch,
/// and the search finds in it what it finds in the two.
pub proof fn lemma_span_join(buf: Seq<u8>, p: int, q: int, r: int, tag: Seq<u8>)
    requires
        is_span(buf, p, q),
        is_span(buf, q, r),
        p <= q <= r,
    ensures
        is_span(buf, p, r),
        occ_in(buf, p, r, tag) == occ_in(buf, p, q, tag) + occ_in(buf, q, r, tag),
    decreases gap(p, q),
{
    if p >= q {
        assert(occ_in(buf, p, q, tag) + occ_in(buf, q, r, tag) =~= occ_in(buf, q, r, tag));
    } else {
        let next = next_chunk(buf, p);
        assert(next <= q) by {
            lemma_span_forward(buf, next, q);
        }
        lemma_span_join(buf, next, q, r, tag);
        if tagged(buf, p, tag) {
            assert(seq![p] + (occ_in(buf, next, q, tag) + occ_in(buf, q, r, tag)) =~= (seq![p]
                + occ_in(buf, next, q, tag)) + occ_in(buf, q, r, tag));
        }
    }
}

/// A stretch of whole chunks does not end before it starts.
pub proof fn lemma_span_forward(buf: Seq<u8>, p: int, q: int)
    requires
        is_span(buf, p, q),
    ensures
        p <= q,
{
}

/// One chunk is a stretch of whole chunks, and the search finds it there
/// if it carries the tag.
pub proof fn lemma_span_chunk(buf: Seq<u8>, p: int, t: Seq<u8>, n: u32, c: u32, tag: Seq<u8>)
    requires
        0 <= p,
        t.len() == 4,
        tag.len() == 4,
        p + 12 + n <= buf.len(),
        p + 12 + n <= i32::MAX,
        buf.subrange(p, p + 12) == chunk_header(t, n, c),
    ensures
        is_span(buf, p, p + 12 + n),
        occ_in(buf, p, p + 12 + n, tag) == (if t == tag {
            seq![p]
        } else {
            Seq::<int>::empty()
        }),
        next_chunk(buf, p) == p + 12 + n,
        readable(buf, p, 8),
{
    let head = buf.subrange(p, p + 12);
    assert(buf.subrange(p, p + 4) =~= head.subrange(0, 4));
    assert(head.subrange(0, 4) =~= t);
    assert(buf.subrange(p + 4, p + 8) =~= head.subrange(4, 8));
    assert(head.subrange(4, 8) =~= u32_le(n));
    lemma_u32_round_trip(buf, p + 4, n);
    let q = p + 12 + n;
    assert(is_span(buf, q, q));
    assert(occ_in(buf, q, q, tag) =~= Seq::<int>::empty());
    if t == tag {
        assert(seq![p] + Seq::<int>::empty() =~= seq![p]);
    }
}

} // verus!
