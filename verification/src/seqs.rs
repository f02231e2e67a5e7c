//! Facts about byte sequences that are built by concatenation.
use vstd::prelude::*;

verus! {

/// Where a stretch of `buf` holds `a` followed by `b`, its first part holds
/// `a` and the rest holds `b`.
pub proof fn lemma_split(buf: Seq<u8>, pos: int, a: Seq<u8>, b: Seq<u8>)
    requires
        0 <= pos,
        pos + a.len() + b.len() <= buf.len(),
        buf.subrange(pos, pos + a.len() + b.len()) == a + b,
    ensures
        buf.subrange(pos, pos + a.len()) == a,
        buf.subrange(pos + a.len(), pos + a.len() + b.len()) == b,
{
    let whole = buf.subrange(pos, pos + a.len() + b.len());
    assert(buf.subrange(pos, pos + a.len()) =~= whole.subrange(0, a.len() as int));
    assert(whole.subrange(0, a.len() as int) =~= a);
    assert(buf.subrange(pos + a.len(), pos + a.len() + b.len()) =~= whole.subrange(
        a.len() as int,
        (a.len() + b.len()) as int,
    ));
    assert(whole.subrange(a.len() as int, (a.len() + b.len()) as int) =~= b);
}

/// Where a stretch of `buf` holds `a`, and the stretch behind it holds `b`,
/// the two together hold `a` followed by `b`.
pub proof fn lemma_join(buf: Seq<u8>, pos: int, a: Seq<u8>, b: Seq<u8>)
    requires
        0 <= pos,
        pos + a.len() + b.len() <= buf.len(),
        buf.subrange(pos, pos + a.len()) == a,
        buf.subrange(pos + a.len(), pos + a.len() + b.len()) == b,
    ensures
        buf.subrange(pos, pos + a.len() + b.len()) == a + b,
{
    assert(buf.subrange(pos, pos + a.len() + b.len()) =~= buf.subrange(pos, pos + a.len())
        + buf.subrange(pos + a.len(), pos + a.len() + b.len()));
}

/// A stretch inside a stretch of `buf` that holds `whole` holds the same
/// stretch of `whole`.
pub proof fn lemma_inner(buf: Seq<u8>, pos: int, whole: Seq<u8>, a: int, b: int)
    requires
        0 <= pos,
        0 <= a <= b <= whole.len(),
        pos + whole.len() <= buf.len(),
        buf.subrange(pos, pos + whole.len()) == whole,
    ensures
        buf.subrange(pos + a, pos + b) == whole.subrange(a, b),
{
    assert(buf.subrange(pos + a, pos + b) =~= buf.subrange(pos, pos + whole.len()).subrange(a, b));
}

/// Where `buf` is six parts, one behind the other, each part stands in its
/// place.
pub proof fn lemma_six_parts(
    buf: Seq<u8>,
    a: Seq<u8>,
    b: Seq<u8>,
    c: Seq<u8>,
    d: Seq<u8>,
    e: Seq<u8>,
    f: Seq<u8>,
)
    requires
        buf == a + (b + (c + (d + (e + f)))),
    ensures
        ({
            let p1 = a.len() as int;
            let p2 = p1 + b.len();
            let p3 = p2 + c.len();
            let p4 = p3 + d.len();
            let p5 = p4 + e.len();
            &&& buf.len() == p5 + f.len()
            &&& buf.subrange(0, p1) == a
            &&& buf.subrange(p1, p2) == b
            &&& buf.subrange(p2, p3) == c
            &&& buf.subrange(p3, p4) == d
            &&& buf.subrange(p4, p5) == e
            &&& buf.subrange(p5, p5 + f.len()) == f
        }),
{
    let p1 = a.len() as int;
    let p2 = p1 + b.len();
    let p3 = p2 + c.len();
    let p4 = p3 + d.len();
    assert(buf.subrange(0, buf.len() as int) =~= buf);
    lemma_split(buf, 0, a, b + (c + (d + (e + f))));
    lemma_split(buf, p1, b, c + (d + (e + f)));
    lemma_split(buf, p2, c, d + (e + f));
    lemma_split(buf, p3, d, e + f);
    lemma_split(buf, p4, e, f);
}

} // verus!
