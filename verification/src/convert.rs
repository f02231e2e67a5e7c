//! Fixed-width little-endian integers: their byte encoding, and reads at an
//! explicit position of a buffer.
use crate::error::DecodeError;
use vstd::arithmetic::div_mod::lemma_fundamental_div_mod_converse;
use vstd::prelude::*;
use vstd::utf8::encode_utf8;

verus! {

/// The four bytes of `v`, least significant first.
pub open spec fn u32_le(v: u32) -> Seq<u8> {
    seq![
        (v % 256) as u8,
        ((v / 256) % 256) as u8,
        ((v / 65536) % 256) as u8,
        ((v / 16777216) % 256) as u8,
    ]
}

/// The two bytes of `v`, least significant first.
pub open spec fn u16_le(v: u16) -> Seq<u8> {
    seq![(v % 256) as u8, ((v / 256) % 256) as u8]
}

/// The unsigned 32-bit pattern of `v` in two's complement.
pub open spec fn u32_of(v: i32) -> u32 {
    if v >= 0 {
        v as u32
    } else {
        (v + 0x1_0000_0000) as u32
    }
}

/// The signed value of the 32-bit pattern `u` in two's complement.
pub open spec fn i32_of(u: u32) -> i32 {
    if u < 0x8000_0000 {
        u as i32
    } else {
        (u - 0x1_0000_0000) as i32
    }
}

/// The four bytes of `v` in two's complement, least significant first.
pub open spec fn i32_le(v: i32) -> Seq<u8> {
    u32_le(u32_of(v))
}

/// Whether the `n` bytes from `pos` lie inside `buf` and inside the range
/// that a 32-bit signed cursor can address.
pub open spec fn readable(buf: Seq<u8>, pos: int, n: int) -> bool {
    &&& 0 <= pos
    &&& 0 <= n
    &&& pos + n <= buf.len()
    &&& pos + n <= i32::MAX
}

/// The unsigned little-endian value of the four bytes of `buf` from `pos`.
pub open spec fn u32_at(buf: Seq<u8>, pos: int) -> u32 {
    (buf[pos] + 256 * buf[pos + 1] + 65536 * buf[pos + 2] + 16777216 * buf[pos + 3]) as u32
}

/// The signed little-endian value of the four bytes of `buf` from `pos`.
pub open spec fn i32_at(buf: Seq<u8>, pos: int) -> i32 {
    i32_of(u32_at(buf, pos))
}

/// The unsigned little-endian value of the two bytes of `buf` from `pos`.
pub open spec fn u16_at(buf: Seq<u8>, pos: int) -> u16 {
    (buf[pos] + 256 * buf[pos + 1]) as u16
}

/// Reading back the bytes of an unsigned integer gives the integer.
pub proof fn lemma_u32_round_trip(buf: Seq<u8>, pos: int, v: u32)
    requires
        0 <= pos,
        pos + 4 <= buf.len(),
        buf.subrange(pos, pos + 4) == u32_le(v),
    ensures
        u32_at(buf, pos) == v,
{
    let s = buf.subrange(pos, pos + 4);
    assert(buf[pos] == s[0]);
    assert(buf[pos + 1] == s[1]);
    assert(buf[pos + 2] == s[2]);
    assert(buf[pos + 3] == s[3]);
}

/// Reading back the bytes of a signed integer gives the integer.
pub proof fn lemma_i32_round_trip(buf: Seq<u8>, pos: int, v: i32)
    requires
        0 <= pos,
        pos + 4 <= buf.len(),
        buf.subrange(pos, pos + 4) == i32_le(v),
    ensures
        i32_at(buf, pos) == v,
{
    lemma_u32_round_trip(buf, pos, u32_of(v));
}

/// The digits of a number in base 256 are its bytes.
proof fn lemma_base_256(b0: int, b1: int, b2: int, b3: int)
    requires
        0 <= b0 < 256,
        0 <= b1 < 256,
        0 <= b2 < 256,
        0 <= b3 < 256,
    ensures
        ({
            let v = b0 + 256 * b1 + 65536 * b2 + 16777216 * b3;
            &&& 0 <= v < 0x1_0000_0000
            &&& v % 256 == b0
            &&& (v / 256) % 256 == b1
            &&& (v / 65536) % 256 == b2
            &&& (v / 16777216) % 256 == b3
        }),
{
    let v = b0 + 256 * b1 + 65536 * b2 + 16777216 * b3;
    let q1 = b1 + 256 * b2 + 65536 * b3;
    let q2 = b2 + 256 * b3;
    lemma_fundamental_div_mod_converse(v, 256, q1, b0);
    lemma_fundamental_div_mod_converse(q1, 256, q2, b1);
    lemma_fundamental_div_mod_converse(q2, 256, b3, b2);
    lemma_fundamental_div_mod_converse(v, 65536, q2, b0 + 256 * b1);
    lemma_fundamental_div_mod_converse(v, 16777216, b3, b0 + 256 * b1 + 65536 * b2);
    lemma_fundamental_div_mod_converse(b3, 256, 0, b3);
}

/// The four bytes at `pos` are the encoding of the signed integer read there.
pub proof fn lemma_i32_le_at(buf: Seq<u8>, pos: int)
    requires
        0 <= pos,
        pos + 4 <= buf.len(),
    ensures
        buf.subrange(pos, pos + 4) == i32_le(i32_at(buf, pos)),
{
    lemma_u32_le_at(buf, pos);
}

/// The four bytes at `pos` are the encoding of the unsigned integer read
/// there.
pub proof fn lemma_u32_le_at(buf: Seq<u8>, pos: int)
    requires
        0 <= pos,
        pos + 4 <= buf.len(),
    ensures
        buf.subrange(pos, pos + 4) == u32_le(u32_at(buf, pos)),
{
    lemma_base_256(buf[pos] as int, buf[pos + 1] as int, buf[pos + 2] as int, buf[pos + 3] as int);
    assert(buf.subrange(pos, pos + 4) =~= u32_le(u32_at(buf, pos)));
}

/// Reading back the bytes of a 16-bit integer gives the integer.
pub proof fn lemma_u16_round_trip(buf: Seq<u8>, pos: int, v: u16)
    requires
        0 <= pos,
        pos + 2 <= buf.len(),
        buf.subrange(pos, pos + 2) == u16_le(v),
    ensures
        u16_at(buf, pos) == v,
{
    let s = buf.subrange(pos, pos + 2);
    assert(buf[pos] == s[0]);
    assert(buf[pos + 1] == s[1]);
}

/// The little-endian bytes of `a`.
pub fn u32_to_array(a: u32) -> (r: [u8; 4])
    ensures
        r@ == u32_le(a),
{
    let r: [u8; 4] = [
        (a % 256) as u8,
        ((a / 256) % 256) as u8,
        ((a / 65536) % 256) as u8,
        ((a / 16777216) % 256) as u8,
    ];
    assert(r@ =~= u32_le(a));
    r
}

/// The little-endian bytes of `a`.
pub fn u16_to_array(a: u16) -> (r: [u8; 2])
    ensures
        r@ == u16_le(a),
{
    let r: [u8; 2] = [(a % 256) as u8, ((a / 256) % 256) as u8];
    assert(r@ =~= u16_le(a));
    r
}

/// The little-endian two's complement bytes of `a`.
pub fn i32_to_array(a: i32) -> (r: [u8; 4])
    ensures
        r@ == i32_le(a),
{
    let u: u32 = if a >= 0 {
        a as u32
    } else {
        (a as i64 + 0x1_0000_0000) as u32
    };
    u32_to_array(u)
}

/// Appends `slice` to `out`.
pub fn write_slice(out: &mut Vec<u8>, slice: &[u8])
    ensures
        final(out)@ == old(out)@ + slice@,
{
    out.extend_from_slice(slice);
    assert(out@ =~= old(out)@ + slice@);
}

/// Appends the UTF-8 bytes of `string` to `out`.
pub fn write_string_literal(out: &mut Vec<u8>, string: &str)
    ensures
        final(out)@ == old(out)@ + encode_utf8(string@),
{
    write_slice(out, string.as_bytes());
}

/// The unsigned integer stored at `pos`, if its four bytes are readable.
pub fn u32_from_vec(vec: &Vec<u8>, pos: i32) -> (r: Result<u32, DecodeError>)
    ensures
        readable(vec@, pos as int, 4) ==> r == Ok::<u32, DecodeError>(u32_at(vec@, pos as int)),
        !readable(vec@, pos as int, 4) ==> r == Err::<u32, DecodeError>(DecodeError::Truncated),
{
    if pos < 0 || pos > i32::MAX - 4 || vec.len() < 4 || pos as usize > vec.len() - 4 {
        return Err(DecodeError::Truncated);
    }
    let p: usize = pos as usize;
    let b0: u32 = vec[p] as u32;
    let b1: u32 = vec[p + 1] as u32;
    let b2: u32 = vec[p + 2] as u32;
    let b3: u32 = vec[p + 3] as u32;
    Ok(b0 + 256 * b1 + 65536 * b2 + 16777216 * b3)
}

/// The signed integer stored at the cursor, if its four bytes are readable.
/// The cursor stays where it is.
pub fn i32_from_vec(vec: &Vec<u8>, pos: &mut i32) -> (r: Result<i32, DecodeError>)
    ensures
        *final(pos) == *old(pos),
        readable(vec@, *old(pos) as int, 4) ==> r == Ok::<i32, DecodeError>(
            i32_at(vec@, *old(pos) as int),
        ),
        !readable(vec@, *old(pos) as int, 4) ==> r == Err::<i32, DecodeError>(
            DecodeError::Truncated,
        ),
{
    match u32_from_vec(vec, *pos) {
        Err(e) => Err(e),
        Ok(u) => {
            if u < 0x8000_0000 {
                Ok(u as i32)
            } else {
                Ok((u as i64 - 0x1_0000_0000) as i32)
            }
        },
    }
}

} // verus!
