//! Length-prefixed strings and ordered dictionaries of string pairs.
use crate::convert::i32_at;
use crate::convert::i32_from_vec;
use crate::convert::i32_le;
use crate::convert::i32_to_array;
use crate::convert::lemma_i32_le_at;
use crate::convert::lemma_i32_round_trip;
use crate::convert::readable;
use crate::convert::write_slice;
use crate::convert::write_string_literal;
use crate::error::DecodeError;
use crate::text::byte_len;
use crate::text::text_eq;
use crate::seqs::lemma_join;
use crate::seqs::lemma_split;
use crate::text::text_from_range;
use vstd::prelude::*;
use vstd::utf8::decode_utf8;
use vstd::utf8::encode_utf8;
use vstd::utf8::encode_utf8_decode_utf8;
use vstd::utf8::encode_utf8_valid_utf8;
use vstd::utf8::valid_utf8;

verus! {

/// A dictionary as a mathematical value: its pairs of key and value, in wire
/// order.
pub type Pairs = Seq<(Seq<char>, Seq<char>)>;

/// The number of bytes that the string `t` takes on the wire.
pub open spec fn text_size(t: Seq<char>) -> int {
    4 + encode_utf8(t).len() as int
}

/// The wire form of the string `t`: its byte length, then its UTF-8 bytes.
pub open spec fn text_bytes(t: Seq<char>) -> Seq<u8> {
    i32_le(encode_utf8(t).len() as i32) + encode_utf8(t)
}

/// The string that starts at `pos`, with the position after it.
pub open spec fn text_at(buf: Seq<u8>, pos: int) -> Result<(Seq<char>, int), DecodeError> {
    if !readable(buf, pos, 4) {
        Err(DecodeError::Truncated)
    } else {
        let n = i32_at(buf, pos) as int;
        if n < 0 || !readable(buf, pos + 4, n) {
            Err(DecodeError::Truncated)
        } else if !valid_utf8(buf.subrange(pos + 4, pos + 4 + n)) {
            Err(DecodeError::InvalidText)
        } else {
            Ok((decode_utf8(buf.subrange(pos + 4, pos + 4 + n)), pos + 4 + n))
        }
    }
}

/// The number of bytes that the pairs `d` take on the wire, without the
/// leading count.
pub open spec fn pairs_size(d: Pairs) -> int
    decreases d.len(),
{
    if d.len() == 0 {
        0
    } else {
        pairs_size(d.drop_last()) + text_size(d.last().0) + text_size(d.last().1)
    }
}

/// The number of bytes that the dictionary `d` takes on the wire.
pub open spec fn dict_size(d: Pairs) -> int {
    4 + pairs_size(d)
}

/// The wire form of the pairs `d`, without the leading count.
pub open spec fn pairs_bytes(d: Pairs) -> Seq<u8>
    decreases d.len(),
{
    if d.len() == 0 {
        Seq::empty()
    } else {
        pairs_bytes(d.drop_last()) + text_bytes(d.last().0) + text_bytes(d.last().1)
    }
}

/// The wire form of the dictionary `d`: the number of pairs, then each key
/// and value as a string.
pub open spec fn dict_bytes(d: Pairs) -> Seq<u8> {
    i32_le(d.len() as i32) + pairs_bytes(d)
}

/// The `count` pairs that start at `pos`, with the position after them.
pub open spec fn pairs_at(buf: Seq<u8>, pos: int, count: int) -> Result<(Pairs, int), DecodeError>
    decreases count,
{
    if count <= 0 {
        Ok((Seq::empty(), pos))
    } else {
        match text_at(buf, pos) {
            Err(e) => Err(e),
            Ok((key, p1)) => match text_at(buf, p1) {
                Err(e) => Err(e),
                Ok((value, p2)) => match pairs_at(buf, p2, count - 1) {
                    Err(e) => Err(e),
                    Ok((rest, p3)) => Ok((seq![(key, value)] + rest, p3)),
                },
            },
        }
    }
}

/// The dictionary that starts at `pos`, with the position after it.
pub open spec fn dict_at(buf: Seq<u8>, pos: int) -> Result<(Pairs, int), DecodeError> {
    if !readable(buf, pos, 4) || i32_at(buf, pos) < 0 {
        Err(DecodeError::Truncated)
    } else {
        pairs_at(buf, pos + 4, i32_at(buf, pos) as int)
    }
}

/// The value of the first pair of `d` whose key is `key`.
pub open spec fn lookup(d: Pairs, key: Seq<char>) -> Option<Seq<char>>
    decreases d.len(),
{
    if d.len() == 0 {
        None
    } else if d[0].0 == key {
        Some(d[0].1)
    } else {
        lookup(d.drop_first(), key)
    }
}

/// A length-prefixed string.
#[derive(Debug, Clone, PartialEq)]
pub struct VoxString {
    /// The declared length in bytes.
    pub size: i32,
    /// The text.
    pub content: String,
}

impl View for VoxString {
    type V = Seq<char>;

    open spec fn view(&self) -> Seq<char> {
        self.content@
    }
}

impl VoxString {
    /// The declared length is the byte length of the text, and the string
    /// with its length prefix fits a 32-bit size.
    pub open spec fn wf(&self) -> bool {
        &&& self.size == encode_utf8(self.content@).len()
        &&& text_size(self@) <= i32::MAX
    }

    /// A string with the given declared length and text.
    pub fn new(size: i32, content: String) -> (s: VoxString)
        ensures
            s.size == size,
            s.content == content,
    {
        VoxString { size, content }
    }

    /// The string with the declared length that its text has, unless the
    /// text is too long for the format.
    pub fn from_text(content: String) -> (r: Option<VoxString>)
        ensures
            text_size(content@) <= i32::MAX <==> r is Some,
            r matches Some(s) ==> s.wf() && s.content == content,
    {
        let n = byte_len(content.as_str());
        if n > 0x7fff_fffb {
            None
        } else {
            Some(VoxString { size: n as i32, content })
        }
    }

    /// Reads the string at the cursor and moves the cursor past it. On
    /// failure the cursor stays where it was.
    pub fn read(input: &Vec<u8>, cursor: &mut i32) -> (r: Result<VoxString, DecodeError>)
        ensures
            match text_at(input@, *old(cursor) as int) {
                Ok((text, next)) => {
                    &&& r matches Ok(s)
                    &&& s@ == text
                    &&& s.wf()
                    &&& *final(cursor) == next
                },
                Err(e) => r == Err::<VoxString, DecodeError>(e) && *final(cursor) == *old(cursor),
            },
    {
        let size = match i32_from_vec(input, cursor) {
            Ok(n) => n,
            Err(e) => { return Err(e); },
        };
        let start: i32 = *cursor + 4;
        if size < 0 || size > i32::MAX - start || (start as usize) > input.len() || (
        size as usize) > input.len() - (start as usize) {
            return Err(DecodeError::Truncated);
        }
        let end: i32 = start + size;
        match text_from_range(input, start as usize, end as usize) {
            None => Err(DecodeError::InvalidText),
            Some(content) => {
                proof {
                    vstd::utf8::decode_utf8_encode_utf8(
                        input@.subrange(start as int, end as int),
                    );
                }
                *cursor = end;
                Ok(VoxString { size, content })
            },
        }
    }

    /// Appends the wire form of the string to `out`.
    pub fn write(&self, out: &mut Vec<u8>)
        requires
            self.wf(),
        ensures
            final(out)@ == old(out)@ + text_bytes(self@),
    {
        write_slice(out, &i32_to_array(self.size));
        write_string_literal(out, self.content.as_str());
        assert(out@ =~= old(out)@ + text_bytes(self@));
    }

    /// The number of bytes that the string takes on the wire.
    pub fn get_size(&self) -> (n: i32)
        requires
            self.wf(),
        ensures
            n == text_size(self@),
    {
        4 + self.size
    }
}

/// A string takes as many bytes as its size says.
pub proof fn lemma_text_bytes_len(t: Seq<char>)
    ensures
        text_bytes(t).len() == text_size(t),
{
}

/// A string that was read lies on the wire in its own wire form, from the
/// cursor to the position behind it.
pub proof fn lemma_text_at_exact(buf: Seq<u8>, pos: int)
    requires
        text_at(buf, pos) is Ok,
    ensures
        ({
            let (t, next) = text_at(buf, pos)->Ok_0;
            &&& next == pos + text_size(t)
            &&& readable(buf, pos, text_size(t))
            &&& buf.subrange(pos, next) == text_bytes(t)
        }),
{
    let n = i32_at(buf, pos) as int;
    let body = buf.subrange(pos + 4, pos + 4 + n);
    vstd::utf8::decode_utf8_encode_utf8(body);
    let head = buf.subrange(pos, pos + 4);
    assert(head =~= i32_le(n as i32)) by {
        lemma_i32_le_at(buf, pos);
    }
    assert(buf.subrange(pos, pos + 4 + n) =~= head + body);
}

/// A string read back from its own wire form is the string, and the cursor
/// ends behind it.
pub proof fn lemma_text_round_trip(buf: Seq<u8>, pos: int, t: Seq<char>)
    requires
        0 <= pos,
        pos + text_size(t) <= buf.len(),
        pos + text_size(t) <= i32::MAX,
        buf.subrange(pos, pos + text_size(t)) == text_bytes(t),
    ensures
        text_at(buf, pos) == Ok::<(Seq<char>, int), DecodeError>((t, pos + text_size(t))),
{
    let n = encode_utf8(t).len() as int;
    lemma_split(buf, pos, i32_le(n as i32), encode_utf8(t));
    lemma_i32_round_trip(buf, pos, n as i32);
    encode_utf8_valid_utf8(t);
    encode_utf8_decode_utf8(t);
}


/// The mathematical pairs of a vector of string pairs.
pub open spec fn pairs_view(v: Seq<(VoxString, VoxString)>) -> Pairs {
    Seq::new(v.len(), |i: int| (v[i].0@, v[i].1@))
}

/// An ordered dictionary of string pairs.
#[derive(Debug, Clone, PartialEq)]
pub struct Dict {
    /// The declared number of pairs.
    pub num_of_pairs: i32,
    /// The pairs, each a key and a value.
    pub pairs: Vec<(VoxString, VoxString)>,
}

impl View for Dict {
    type V = Pairs;

    open spec fn view(&self) -> Pairs {
        pairs_view(self.pairs@)
    }
}

/// Sizes are never negative.
pub proof fn lemma_pairs_size_nonneg(d: Pairs)
    ensures
        pairs_size(d) >= 0,
    decreases d.len(),
{
    if d.len() > 0 {
        lemma_pairs_size_nonneg(d.drop_last());
    }
}

/// A prefix of a dictionary takes no more bytes than the dictionary.
pub proof fn lemma_pairs_size_prefix(d: Pairs, i: int)
    requires
        0 <= i <= d.len(),
    ensures
        0 <= pairs_size(d.take(i)) <= pairs_size(d),
    decreases d.len(),
{
    lemma_pairs_size_nonneg(d.take(i));
    if i < d.len() {
        lemma_pairs_size_prefix(d.drop_last(), i);
        assert(d.drop_last().take(i) =~= d.take(i));
    } else {
        assert(d.take(i) =~= d);
    }
}

/// The pairs take as many bytes as their size says.
pub proof fn lemma_pairs_bytes_len(d: Pairs)
    ensures
        pairs_bytes(d).len() == pairs_size(d),
    decreases d.len(),
{
    if d.len() > 0 {
        lemma_pairs_bytes_len(d.drop_last());
    }
}

/// The bytes of a dictionary start with the bytes of its first pair.
pub proof fn lemma_pairs_bytes_front(d: Pairs)
    requires
        d.len() > 0,
    ensures
        pairs_bytes(d) == text_bytes(d[0].0) + text_bytes(d[0].1) + pairs_bytes(d.drop_first()),
        pairs_size(d) == text_size(d[0].0) + text_size(d[0].1) + pairs_size(d.drop_first()),
    decreases d.len(),
{
    if d.len() == 1 {
        assert(d.drop_last() =~= Seq::<(Seq<char>, Seq<char>)>::empty());
        assert(d.drop_first() =~= Seq::<(Seq<char>, Seq<char>)>::empty());
        assert(pairs_bytes(d) =~= text_bytes(d[0].0) + text_bytes(d[0].1) + pairs_bytes(
            d.drop_first(),
        ));
    } else {
        lemma_pairs_bytes_front(d.drop_last());
        assert(d.drop_last().drop_first() =~= d.drop_first().drop_last());
        assert(d.drop_first().last() == d.last());
        assert(d.drop_last()[0] == d[0]);
        assert(pairs_bytes(d) =~= text_bytes(d[0].0) + text_bytes(d[0].1) + pairs_bytes(
            d.drop_first(),
        ));
    }
}

/// Pairs read back from their own wire form are the pairs, and the cursor
/// ends behind them.
pub proof fn lemma_pairs_round_trip(buf: Seq<u8>, pos: int, d: Pairs)
    requires
        0 <= pos,
        pos + pairs_size(d) <= buf.len(),
        pos + pairs_size(d) <= i32::MAX,
        buf.subrange(pos, pos + pairs_size(d)) == pairs_bytes(d),
    ensures
        pairs_at(buf, pos, d.len() as int) == Ok::<(Pairs, int), DecodeError>(
            (d, pos + pairs_size(d)),
        ),
    decreases d.len(),
{
    if d.len() == 0 {
        assert(d =~= Seq::<(Seq<char>, Seq<char>)>::empty());
    } else {
        lemma_pairs_bytes_front(d);
        let rest = d.drop_first();
        lemma_pairs_size_nonneg(rest);
        lemma_pairs_bytes_len(rest);
        let k = d[0].0;
        let v = d[0].1;
        let p1 = pos + text_size(k);
        let p2 = p1 + text_size(v);
        lemma_text_bytes_len(k);
        lemma_text_bytes_len(v);
        lemma_split(buf, pos, text_bytes(k) + text_bytes(v), pairs_bytes(rest));
        lemma_split(buf, pos, text_bytes(k), text_bytes(v));
        lemma_text_round_trip(buf, pos, k);
        lemma_text_round_trip(buf, p1, v);
        lemma_pairs_round_trip(buf, p2, rest);
        assert(seq![(k, v)] + rest =~= d);
    }
}

/// A dictionary read back from its own wire form is the dictionary, and the
/// cursor ends behind it.
pub proof fn lemma_dict_round_trip(buf: Seq<u8>, pos: int, d: Pairs)
    requires
        0 <= pos,
        pos + dict_size(d) <= buf.len(),
        pos + dict_size(d) <= i32::MAX,
        buf.subrange(pos, pos + dict_size(d)) == dict_bytes(d),
    ensures
        dict_at(buf, pos) == Ok::<(Pairs, int), DecodeError>((d, pos + dict_size(d))),
{
    lemma_pairs_size_nonneg(d);
    lemma_pairs_bytes_len(d);
    lemma_pairs_count_bound(d);
    lemma_split(buf, pos, i32_le(d.len() as i32), pairs_bytes(d));
    lemma_i32_round_trip(buf, pos, d.len() as i32);
    lemma_pairs_round_trip(buf, pos + 4, d);
}

/// Pairs that were read lie on the wire in their own wire form, from the
/// cursor to the position behind them.
pub proof fn lemma_pairs_at_exact(buf: Seq<u8>, pos: int, count: int)
    requires
        0 <= pos <= i32::MAX,
        pos <= buf.len(),
        0 <= count,
        pairs_at(buf, pos, count) is Ok,
    ensures
        ({
            let (d, next) = pairs_at(buf, pos, count)->Ok_0;
            &&& d.len() == count
            &&& next == pos + pairs_size(d)
            &&& next <= buf.len()
            &&& next <= i32::MAX
            &&& buf.subrange(pos, next) == pairs_bytes(d)
        }),
    decreases count,
{
    if count == 0 {
        assert(buf.subrange(pos, pos) =~= Seq::<u8>::empty());
    } else {
        lemma_text_at_exact(buf, pos);
        let (k, p1) = text_at(buf, pos)->Ok_0;
        lemma_text_at_exact(buf, p1);
        let (v, p2) = text_at(buf, p1)->Ok_0;
        lemma_pairs_at_exact(buf, p2, count - 1);
        let (rest, p3) = pairs_at(buf, p2, count - 1)->Ok_0;
        let d = seq![(k, v)] + rest;
        assert(d.drop_first() =~= rest);
        assert(d[0] == (k, v));
        lemma_pairs_bytes_front(d);
        lemma_text_bytes_len(k);
        lemma_text_bytes_len(v);
        lemma_pairs_bytes_len(rest);
        lemma_join(buf, pos, text_bytes(k), text_bytes(v));
        lemma_join(buf, pos, text_bytes(k) + text_bytes(v), pairs_bytes(rest));
    }
}

/// A dictionary that was read lies on the wire in its own wire form, from
/// the cursor to the position behind it.
pub proof fn lemma_dict_at_exact(buf: Seq<u8>, pos: int)
    requires
        dict_at(buf, pos) is Ok,
    ensures
        ({
            let (d, next) = dict_at(buf, pos)->Ok_0;
            &&& next == pos + dict_size(d)
            &&& readable(buf, pos, dict_size(d))
            &&& buf.subrange(pos, next) == dict_bytes(d)
        }),
{
    lemma_pairs_at_exact(buf, pos + 4, i32_at(buf, pos) as int);
    let (d, next) = dict_at(buf, pos)->Ok_0;
    lemma_pairs_size_nonneg(d);
    lemma_i32_le_at(buf, pos);
    assert(buf.subrange(pos, next) =~= buf.subrange(pos, pos + 4) + buf.subrange(pos + 4, next));
}

/// Every pair takes at least eight bytes.
pub proof fn lemma_pairs_count_bound(d: Pairs)
    ensures
        8 * d.len() <= pairs_size(d),
    decreases d.len(),
{
    if d.len() > 0 {
        lemma_pairs_count_bound(d.drop_last());
    }
}

/// Reading extends by one pair at the far end.
proof fn lemma_pairs_at_step(
    buf: Seq<u8>,
    start: int,
    count: int,
    acc: Pairs,
    pos: int,
    i: int,
)
    requires
        0 <= i < count,
        acc.len() == i,
        pairs_at(buf, start, count) == (match pairs_at(buf, pos, count - i) {
            Ok((rest, p)) => Ok::<(Pairs, int), DecodeError>((acc + rest, p)),
            Err(e) => Err(e),
        }),
    ensures
        match text_at(buf, pos) {
            Err(e) => pairs_at(buf, start, count) == Err::<(Pairs, int), DecodeError>(e),
            Ok((key, p1)) => match text_at(buf, p1) {
                Err(e) => pairs_at(buf, start, count) == Err::<(Pairs, int), DecodeError>(e),
                Ok((value, p2)) => pairs_at(buf, start, count) == (match pairs_at(
                    buf,
                    p2,
                    count - (i + 1),
                ) {
                    Ok((rest, p)) => Ok::<(Pairs, int), DecodeError>(
                        (acc.push((key, value)) + rest, p),
                    ),
                    Err(e) => Err(e),
                }),
            },
        },
{
    match text_at(buf, pos) {
        Err(e) => {},
        Ok((key, p1)) => match text_at(buf, p1) {
            Err(e) => {},
            Ok((value, p2)) => {
                match pairs_at(buf, p2, count - (i + 1)) {
                    Ok((rest, p)) => {
                        assert(acc + (seq![(key, value)] + rest) =~= acc.push((key, value)) + rest);
                    },
                    Err(e) => {},
                }
            },
        },
    }
}

impl Dict {
    /// The declared count is the number of pairs, every string is well
    /// formed, and the dictionary fits a 32-bit size.
    pub open spec fn wf(&self) -> bool {
        &&& self.num_of_pairs == self.pairs@.len()
        &&& forall|i: int|
            0 <= i < self.pairs@.len() ==> (#[trigger] self.pairs@[i]).0.wf() && self.pairs@[i].1.wf()
        &&& dict_size(self@) <= i32::MAX
    }

    /// Reads the dictionary at the cursor and moves the cursor past it. On
    /// failure the cursor stays where it was.
    pub fn read(input: &Vec<u8>, cursor: &mut i32) -> (r: Result<Dict, DecodeError>)
        ensures
            match dict_at(input@, *old(cursor) as int) {
                Ok((d, next)) => {
                    &&& r matches Ok(x)
                    &&& x@ == d
                    &&& x.wf()
                    &&& *final(cursor) == next
                },
                Err(e) => r == Err::<Dict, DecodeError>(e) && *final(cursor) == *old(cursor),
            },
    {
        let size = match i32_from_vec(input, cursor) {
            Ok(n) => n,
            Err(e) => { return Err(e); },
        };
        if size < 0 {
            return Err(DecodeError::Truncated);
        }
        let ghost start: int = *cursor as int + 4;
        let mut pos: i32 = *cursor + 4;
        let mut pairs: Vec<(VoxString, VoxString)> = Vec::new();
        let mut i: i32 = 0;
        proof {
            assert(pairs_view(pairs@) + pairs_at(input@, start, size as int)->Ok_0.0 =~= pairs_at(
                input@,
                start,
                size as int,
            )->Ok_0.0);
        }
        while i < size
            invariant
                0 <= i <= size,
                *cursor == *old(cursor),
                readable(input@, *cursor as int, 4),
                size == i32_at(input@, *cursor as int),
                start == *cursor + 4,
                0 <= start <= pos <= i32::MAX,
                pairs@.len() == i,
                forall|j: int|
                    0 <= j < pairs@.len() ==> (#[trigger] pairs@[j]).0.wf() && pairs@[j].1.wf(),
                pairs_size(pairs_view(pairs@)) == pos - start,
                pairs_at(input@, start, size as int) == (match pairs_at(
                    input@,
                    pos as int,
                    size - i,
                ) {
                    Ok((rest, p)) => Ok::<(Pairs, int), DecodeError>((pairs_view(pairs@) + rest, p)),
                    Err(e) => Err(e),
                }),
            decreases size - i,
        {
            proof {
                lemma_pairs_at_step(
                    input@,
                    start,
                    size as int,
                    pairs_view(pairs@),
                    pos as int,
                    i as int,
                );
            }
            proof {
                if text_at(input@, pos as int) is Ok {
                    lemma_text_at_exact(input@, pos as int);
                    let p1 = text_at(input@, pos as int)->Ok_0.1;
                    if text_at(input@, p1) is Ok {
                        lemma_text_at_exact(input@, p1);
                    }
                }
            }
            let key = match VoxString::read(input, &mut pos) {
                Ok(s) => s,
                Err(e) => { return Err(e); },
            };
            let value = match VoxString::read(input, &mut pos) {
                Ok(s) => s,
                Err(e) => { return Err(e); },
            };
            let ghost before = pairs_view(pairs@);
            pairs.push((key, value));
            proof {
                assert(pairs_view(pairs@) =~= before.push((key@, value@)));
                assert(pairs_view(pairs@).drop_last() =~= before);
            }
            i = i + 1;
        }
        proof {
            let d = pairs_view(pairs@);
            assert(d + Seq::<(Seq<char>, Seq<char>)>::empty() =~= d);
        }
        *cursor = pos;
        Ok(Dict { num_of_pairs: size, pairs })
    }

    /// Appends the wire form of the dictionary to `out`.
    pub fn write(&self, out: &mut Vec<u8>)
        requires
            self.wf(),
        ensures
            final(out)@ == old(out)@ + dict_bytes(self@),
    {
        write_slice(out, &i32_to_array(self.num_of_pairs));
        let mut i: usize = 0;
        assert(self@.take(0) =~= Seq::<(Seq<char>, Seq<char>)>::empty());
        while i < self.pairs.len()
            invariant
                i <= self.pairs.len(),
                self.wf(),
                out@ == old(out)@ + i32_le(self.num_of_pairs) + pairs_bytes(self@.take(i as int)),
            decreases self.pairs.len() - i,
        {
            let ghost before = out@;
            let pair = &self.pairs[i];
            pair.0.write(out);
            pair.1.write(out);
            proof {
                let next = self@.take(i as int + 1);
                assert(next.drop_last() =~= self@.take(i as int));
                assert(next.last() == self@[i as int]);
                assert(out@ =~= old(out)@ + i32_le(self.num_of_pairs) + pairs_bytes(next));
            }
            i = i + 1;
        }
        assert(self@.take(i as int) =~= self@);
    }

    /// The number of bytes that the dictionary takes on the wire.
    pub fn get_size(&self) -> (n: i32)
        requires
            self.wf(),
        ensures
            n == dict_size(self@),
    {
        let mut size: i32 = 4;
        let mut i: usize = 0;
        assert(self@.take(0) =~= Seq::<(Seq<char>, Seq<char>)>::empty());
        while i < self.pairs.len()
            invariant
                i <= self.pairs.len(),
                self.wf(),
                size == 4 + pairs_size(self@.take(i as int)),
            decreases self.pairs.len() - i,
        {
            let pair = &self.pairs[i];
            proof {
                let next = self@.take(i as int + 1);
                assert(next.drop_last() =~= self@.take(i as int));
                assert(next.last() == self@[i as int]);
                lemma_pairs_size_prefix(self@, i as int + 1);
            }
            size = size + pair.0.get_size() + pair.1.get_size();
            i = i + 1;
        }
        assert(self@.take(i as int) =~= self@);
        size
    }
    /// The value of the first pair whose key is `key`.
    pub fn get(&self, key: &str) -> (r: Option<&VoxString>)
        ensures
            match lookup(self@, key@) {
                Some(t) => r matches Some(s) && s@ == t,
                None => r is None,
            },
    {
        let mut i: usize = 0;
        assert(self@.skip(0) =~= self@);
        while i < self.pairs.len()
            invariant
                i <= self.pairs.len(),
                lookup(self@, key@) == lookup(self@.skip(i as int), key@),
            decreases self.pairs.len() - i,
        {
            let pair = &self.pairs[i];
            proof {
                assert(self@.skip(i as int)[0] == self@[i as int]);
                assert(self@.skip(i as int).drop_first() =~= self@.skip(i as int + 1));
            }
            if text_eq(pair.0.content.as_str(), key) {
                return Some(&pair.1);
            }
            i = i + 1;
        }
        None
    }
}

} // verus!
