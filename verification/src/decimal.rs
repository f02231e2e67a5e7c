//! Numbers as decimal ASCII text, the form in which attribute values carry
//! them: an optional sign and digits, and lists of numbers separated by one
//! space.
use crate::text::ascii_string;
use vstd::prelude::*;
use vstd::slice::slice_subrange;
use vstd::utf8::decode_utf8;
use vstd::utf8::decode_utf8_encode_utf8;
use vstd::utf8::encode_utf8;
use vstd::utf8::encode_utf8_decode_utf8;
use vstd::utf8::encode_utf8_valid_utf8;
use vstd::utf8::is_ascii_chars;
use vstd::utf8::is_ascii_chars_encode_utf8;
use vstd::utf8::valid_utf8;

verus! {

/// The ASCII digit for `d`.
pub open spec fn digit_byte(d: int) -> u8 {
    (48 + d) as u8
}

/// The decimal digits of `n`, most significant first, without leading zeros.
pub open spec fn digits(n: nat) -> Seq<u8>
    decreases n,
{
    if n < 10 {
        seq![digit_byte(n as int)]
    } else {
        digits(n / 10).push(digit_byte((n % 10) as int))
    }
}

/// The decimal text of `v`: a minus sign where it is negative, then the
/// digits of its magnitude.
pub open spec fn decimal(v: int) -> Seq<u8> {
    if v < 0 {
        seq![45u8] + digits((-v) as nat)
    } else {
        digits(v as nat)
    }
}

/// Whether `b` is an ASCII digit.
pub open spec fn is_digit(b: u8) -> bool {
    48 <= b <= 57
}

/// Whether `s` holds ASCII digits only.
pub open spec fn all_digits(s: Seq<u8>) -> bool {
    forall|i: int| 0 <= i < s.len() ==> is_digit(#[trigger] s[i])
}

/// The number that the digits `s` spell.
pub open spec fn digits_value(s: Seq<u8>) -> nat
    decreases s.len(),
{
    if s.len() == 0 {
        0
    } else {
        (10 * digits_value(s.drop_last()) + (s.last() - 48)) as nat
    }
}

/// The digits of `s` without a leading sign.
pub open spec fn unsigned_part(s: Seq<u8>) -> Seq<u8> {
    if s.len() > 0 && (s[0] == 45 || s[0] == 43) {
        s.drop_first()
    } else {
        s
    }
}

/// The 32-bit signed number that `s` spells: an optional `+` or `-`, then at
/// least one digit. Anything else, and any number out of range, is no number.
pub open spec fn parse_decimal(s: Seq<u8>) -> Option<i32> {
    let body = unsigned_part(s);
    if body.len() == 0 || !all_digits(body) {
        None
    } else {
        let v: int = if s[0] == 45 {
            -(digits_value(body) as int)
        } else {
            digits_value(body) as int
        };
        if i32::MIN <= v <= i32::MAX {
            Some(v as i32)
        } else {
            None
        }
    }
}

/// The length of the first field of `s`: the position of its first space,
/// or its length where it holds none.
pub open spec fn first_space(s: Seq<u8>) -> int
    decreases s.len(),
{
    if s.len() == 0 || s[0] == 32 {
        0
    } else {
        1 + first_space(s.drop_first())
    }
}

/// The numbers of a list in which single spaces separate the fields, if
/// every field spells a number. A text without a space is one field, the
/// empty text too.
pub open spec fn parse_list(s: Seq<u8>) -> Option<Seq<i32>>
    decreases s.len(),
{
    let i = first_space(s);
    match parse_decimal(s.take(i)) {
        None => None,
        Some(v) => if 0 <= i < s.len() {
            match parse_list(s.skip(i + 1)) {
                None => None,
                Some(rest) => Some(seq![v] + rest),
            }
        } else {
            Some(seq![v])
        },
    }
}

/// The text of three numbers separated by spaces.
pub open spec fn triple(x: int, y: int, z: int) -> Seq<u8> {
    decimal(x) + seq![32u8] + decimal(y) + seq![32u8] + decimal(z)
}

/// The decimal text of `v` as characters.
pub open spec fn decimal_text(v: int) -> Seq<char> {
    decode_utf8(decimal(v))
}

/// The text of three numbers separated by spaces, as characters.
pub open spec fn triple_text(x: int, y: int, z: int) -> Seq<char> {
    decode_utf8(triple(x, y, z))
}

/// ASCII bytes are the UTF-8 encoding of the text they decode to.
pub proof fn lemma_ascii_text(bytes: Seq<u8>)
    requires
        forall|i: int| 0 <= i < bytes.len() ==> (#[trigger] bytes[i]) < 128,
    ensures
        valid_utf8(bytes),
        encode_utf8(decode_utf8(bytes)) == bytes,
{
    let chars = Seq::new(bytes.len(), |i: int| bytes[i] as char);
    assert(is_ascii_chars(chars));
    is_ascii_chars_encode_utf8(chars);
    assert(encode_utf8(chars) =~= bytes);
    encode_utf8_valid_utf8(chars);
    decode_utf8_encode_utf8(bytes);
}

/// The decimal text of a 32-bit number encodes to its decimal bytes, and
/// spells the number.
pub proof fn lemma_decimal_text(v: i32)
    ensures
        encode_utf8(decimal_text(v as int)) == decimal(v as int),
        parse_decimal(encode_utf8(decimal_text(v as int))) == Some(v),
        1 <= encode_utf8(decimal_text(v as int)).len() <= 11,
{
    lemma_decimal_round_trip(v);
    lemma_ascii_text(decimal(v as int));
}

/// The text of three 32-bit numbers encodes to its bytes, and spells the
/// three numbers.
pub proof fn lemma_triple_text(x: i32, y: i32, z: i32)
    ensures
        encode_utf8(triple_text(x as int, y as int, z as int)) == triple(
            x as int,
            y as int,
            z as int,
        ),
        parse_list(encode_utf8(triple_text(x as int, y as int, z as int))) == Some(seq![x, y, z]),
        encode_utf8(triple_text(x as int, y as int, z as int)).len() <= 35,
{
    lemma_triple_round_trip(x, y, z);
    lemma_ascii_text(triple(x as int, y as int, z as int));
}

/// The digits of a number are digits, at least one, and spell the number.
pub proof fn lemma_digits(n: nat)
    ensures
        digits(n).len() >= 1,
        all_digits(digits(n)),
        digits_value(digits(n)) == n,
    decreases n,
{
    if n < 10 {
        assert(digits(n).drop_last() =~= Seq::<u8>::empty());
        assert(digits_value(Seq::<u8>::empty()) == 0);
        assert(digits(n).last() == digit_byte(n as int));
    } else {
        lemma_digits(n / 10);
        assert(digits(n).drop_last() =~= digits(n / 10));
        assert(digits(n).last() == digit_byte((n % 10) as int));
        assert(n == 10 * (n / 10) + n % 10);
    }
}

/// A number below `10^k` has at most `k` digits; here for 32-bit magnitudes.
pub proof fn lemma_digits_len(n: nat)
    requires
        n <= 0x8000_0000,
    ensures
        digits(n).len() <= 10,
{
    reveal_with_fuel(digits, 11);
}

/// The decimal text of a 32-bit number spells that number.
pub proof fn lemma_decimal_round_trip(v: i32)
    ensures
        parse_decimal(decimal(v as int)) == Some(v),
        1 <= decimal(v as int).len() <= 11,
        forall|i: int| 0 <= i < decimal(v as int).len() ==> (#[trigger] decimal(v as int)[i]) != 32,
        forall|i: int| 0 <= i < decimal(v as int).len() ==> (#[trigger] decimal(v as int)[i]) < 128,
{
    let s = decimal(v as int);
    if v < 0 {
        let n = (-v) as nat;
        lemma_digits(n);
        lemma_digits_len(n);
        assert(s.drop_first() =~= digits(n));
        assert forall|i: int| 0 <= i < s.len() implies (#[trigger] s[i]) != 32 && s[i] < 128 by {
            if i > 0 {
                assert(s[i] == digits(n)[i - 1]);
            }
        }
    } else {
        let n = v as nat;
        lemma_digits(n);
        lemma_digits_len(n);
        assert(is_digit(s[0]));
    }
}

/// A text that holds no space is its own first field.
pub proof fn lemma_first_space_none(s: Seq<u8>)
    requires
        forall|i: int| 0 <= i < s.len() ==> (#[trigger] s[i]) != 32,
    ensures
        first_space(s) == s.len(),
    decreases s.len(),
{
    if s.len() > 0 {
        lemma_first_space_none(s.drop_first());
    }
}

/// The first field of a text ends at its first space.
pub proof fn lemma_first_space_prefix(a: Seq<u8>, rest: Seq<u8>)
    requires
        forall|i: int| 0 <= i < a.len() ==> (#[trigger] a[i]) != 32,
    ensures
        first_space(a + seq![32u8] + rest) == a.len(),
    decreases a.len(),
{
    let s = a + seq![32u8] + rest;
    if a.len() > 0 {
        assert(s.drop_first() =~= a.drop_first() + seq![32u8] + rest);
        lemma_first_space_prefix(a.drop_first(), rest);
    }
}

/// A list that starts with a number and a space is that number, then the
/// list behind the space.
pub proof fn lemma_parse_list_prefix(v: i32, rest: Seq<u8>)
    ensures
        parse_list(decimal(v as int) + seq![32u8] + rest) == (match parse_list(rest) {
            None => None,
            Some(r) => Some(seq![v] + r),
        }),
{
    let a = decimal(v as int);
    let s = a + seq![32u8] + rest;
    lemma_decimal_round_trip(v);
    lemma_first_space_prefix(a, rest);
    assert(s.take(a.len() as int) =~= a);
    assert(s.skip(a.len() as int + 1) =~= rest);
}

/// The text of three 32-bit numbers spells those three numbers.
pub proof fn lemma_triple_round_trip(x: i32, y: i32, z: i32)
    ensures
        parse_list(triple(x as int, y as int, z as int)) == Some(seq![x, y, z]),
        forall|i: int|
            0 <= i < triple(x as int, y as int, z as int).len() ==> (#[trigger] triple(
                x as int,
                y as int,
                z as int,
            )[i]) < 128,
        triple(x as int, y as int, z as int).len() <= 35,
{
    let dx = decimal(x as int);
    let dy = decimal(y as int);
    let dz = decimal(z as int);
    lemma_decimal_round_trip(x);
    lemma_decimal_round_trip(y);
    lemma_decimal_round_trip(z);
    let t = triple(x as int, y as int, z as int);
    assert(t =~= dx + seq![32u8] + (dy + seq![32u8] + dz));
    lemma_parse_list_prefix(x, dy + seq![32u8] + dz);
    lemma_parse_list_prefix(y, dz);
    lemma_first_space_none(dz);
    assert(dz.take(dz.len() as int) =~= dz);
    assert(parse_list(dz) == Some(seq![z]));
    assert(seq![y] + seq![z] =~= seq![y, z]);
    assert(seq![x] + seq![y, z] =~= seq![x, y, z]);
}

/// Appends the decimal digits of `n` to `out`.
fn push_digits(n: u32, out: &mut Vec<u8>)
    ensures
        final(out)@ == old(out)@ + digits(n as nat),
    decreases n,
{
    if n >= 10 {
        push_digits(n / 10, out);
    }
    out.push((48 + n % 10) as u8);
    proof {
        if n >= 10 {
            assert(out@ =~= old(out)@ + digits(n as nat));
        } else {
            assert(out@ =~= old(out)@ + digits(n as nat));
        }
    }
}

/// The decimal text of `v`.
pub fn decimal_string(v: i32) -> (r: String)
    ensures
        r@ == decimal_text(v as int),
        encode_utf8(r@) == decimal(v as int),
{
    let mut bytes: Vec<u8> = Vec::new();
    if v < 0 {
        bytes.push(45u8);
        let magnitude: u32 = (-(v as i64)) as u32;
        push_digits(magnitude, &mut bytes);
    } else {
        push_digits(v as u32, &mut bytes);
    }
    proof {
        assert(bytes@ =~= decimal(v as int));
        lemma_decimal_round_trip(v);
    }
    let r = ascii_string(bytes);
    proof {
        encode_utf8_decode_utf8(r@);
    }
    r
}

/// The text of three numbers separated by spaces.
pub fn triple_string(x: i32, y: i32, z: i32) -> (r: String)
    ensures
        r@ == triple_text(x as int, y as int, z as int),
        encode_utf8(r@) == triple(x as int, y as int, z as int),
{
    let mut bytes: Vec<u8> = Vec::new();
    push_signed(x, &mut bytes);
    bytes.push(32u8);
    push_signed(y, &mut bytes);
    bytes.push(32u8);
    push_signed(z, &mut bytes);
    proof {
        assert(bytes@ =~= triple(x as int, y as int, z as int));
        lemma_triple_round_trip(x, y, z);
    }
    let r = ascii_string(bytes);
    proof {
        encode_utf8_decode_utf8(r@);
    }
    r
}

/// Appends the decimal text of `v` to `out`.
fn push_signed(v: i32, out: &mut Vec<u8>)
    ensures
        final(out)@ == old(out)@ + decimal(v as int),
{
    if v < 0 {
        out.push(45u8);
        let magnitude: u32 = (-(v as i64)) as u32;
        push_digits(magnitude, out);
    } else {
        push_digits(v as u32, out);
    }
    assert(out@ =~= old(out)@ + decimal(v as int));
}

/// The number that `bytes` spell, if they spell a 32-bit signed number.
pub fn parse_i32(bytes: &[u8]) -> (r: Option<i32>)
    ensures
        r == parse_decimal(bytes@),
{
    let n = bytes.len();
    if n == 0 {
        return None;
    }
    let negative = bytes[0] == 45;
    let first: usize = if bytes[0] == 45 || bytes[0] == 43 {
        1
    } else {
        0
    };
    if first == n {
        assert(unsigned_part(bytes@).len() == 0);
        return None;
    }
    let ghost body = unsigned_part(bytes@);
    let mut acc: i64 = 0;
    let mut i: usize = first;
    assert(body.take(0) =~= Seq::<u8>::empty());
    while i < n
        invariant
            first <= i <= n,
            n == bytes@.len(),
            first <= 1,
            body == unsigned_part(bytes@),
            body.len() == n - first,
            forall|j: int| 0 <= j < body.len() ==> body[j] == bytes@[j + first],
            forall|j: int| 0 <= j < i - first ==> is_digit(#[trigger] body[j]),
            0 <= acc <= 0x8000_0001,
            acc <= 0x8000_0000 ==> acc == digits_value(body.take(i - first)),
            acc > 0x8000_0000 ==> digits_value(body.take(i - first)) > 0x8000_0000,
        decreases n - i,
    {
        let b = bytes[i];
        if b < 48 || b > 57 {
            assert(!is_digit(body[i - first]));
            return None;
        }
        proof {
            let next = body.take(i - first + 1);
            assert(next.drop_last() =~= body.take(i - first));
            assert(next.last() == b);
        }
        acc = acc * 10 + (b - 48) as i64;
        if acc > 0x8000_0000 {
            acc = 0x8000_0001;
        }
        i = i + 1;
    }
    proof {
        assert(body.take(n - first) =~= body);
        assert(all_digits(body));
    }
    if negative {
        if acc > 0x8000_0000 {
            None
        } else {
            Some((-acc) as i32)
        }
    } else {
        if acc > 0x7fff_ffff {
            None
        } else {
            Some(acc as i32)
        }
    }
}

/// The end of the field that starts at `start`.
fn field_end(bytes: &[u8], start: usize) -> (end: usize)
    requires
        start <= bytes@.len(),
    ensures
        start <= end <= bytes@.len(),
        end - start == first_space(bytes@.skip(start as int)),
{
    let mut end: usize = start;
    while end < bytes.len() && bytes[end] != 32
        invariant
            start <= end <= bytes@.len(),
            first_space(bytes@.skip(start as int)) == (end - start) + first_space(
                bytes@.skip(end as int),
            ),
        decreases bytes@.len() - end,
    {
        proof {
            assert(bytes@.skip(end as int).drop_first() =~= bytes@.skip(end as int + 1));
        }
        end = end + 1;
    }
    end
}

/// The numbers of a list separated by spaces, if every field spells one.
pub fn parse_numbers(bytes: &[u8]) -> (r: Option<Vec<i32>>)
    ensures
        match parse_list(bytes@) {
            Some(v) => r matches Some(out) && out@ == v,
            None => r is None,
        },
{
    let mut out: Vec<i32> = Vec::new();
    let mut start: usize = 0;
    let n = bytes.len();
    proof {
        assert(bytes@.skip(0) =~= bytes@);
        if let Some(rest) = parse_list(bytes@) {
            assert(out@ + rest =~= rest);
        }
    }
    loop
        invariant
            start <= n,
            n == bytes@.len(),
            parse_list(bytes@) == (match parse_list(bytes@.skip(start as int)) {
                None => None,
                Some(rest) => Some(out@ + rest),
            }),
        decreases n - start,
    {
        let ghost tail = bytes@.skip(start as int);
        let end = field_end(bytes, start);
        proof {
            assert(tail.take(end - start) =~= bytes@.subrange(start as int, end as int));
            if end < n {
                assert(tail.skip(end - start + 1) =~= bytes@.skip(end as int + 1));
            }
        }
        let v = match parse_i32(slice_subrange(bytes, start, end)) {
            None => { return None; },
            Some(v) => v,
        };
        let ghost before = out@;
        out.push(v);
        if end >= n {
            proof {
                assert(before + seq![v] =~= out@);
            }
            return Some(out);
        }
        proof {
            if let Some(rest) = parse_list(bytes@.skip(end as int + 1)) {
                assert(before + (seq![v] + rest) =~= out@ + rest);
            }
        }
        start = end + 1;
    }
}

} // verus!
