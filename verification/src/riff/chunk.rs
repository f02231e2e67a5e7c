//! Chunk headers, and the search for a chunk by its tag.
//!
//! A chunk is a four-byte tag, the size of its content, the size of its
//! children, and the content. The search walks the chunks of a file from
//! offset 8, the header of the outer container, and steps over each chunk by
//! its declared content size.
use crate::convert::readable;
use crate::convert::u32_at;
use crate::convert::u32_from_vec;
use crate::convert::u32_le;
use crate::convert::u32_to_array;
use crate::convert::write_slice;
use crate::convert::write_string_literal;
use crate::error::DecodeError;
use crate::text::text_from_range;
use vstd::prelude::*;
use vstd::utf8::decode_utf8;
use vstd::utf8::encode_utf8;
use vstd::utf8::is_ascii_chars;
use vstd::utf8::is_ascii_chars_encode_utf8;
use vstd::utf8::valid_utf8;

verus! {

/// The header of a chunk: its tag, the size of its content and the size of
/// its children.
pub open spec fn chunk_header(tag: Seq<u8>, content: u32, children: u32) -> Seq<u8> {
    tag + u32_le(content) + u32_le(children)
}

/// The text of the four-byte tag at `pos`.
pub open spec fn tag_at(buf: Seq<u8>, pos: int) -> Result<Seq<char>, DecodeError> {
    if !readable(buf, pos, 4) {
        Err(DecodeError::Truncated)
    } else if !valid_utf8(buf.subrange(pos, pos + 4)) {
        Err(DecodeError::InvalidText)
    } else {
        Ok(decode_utf8(buf.subrange(pos, pos + 4)))
    }
}

/// Whether the four bytes at `pos` are `tag`.
pub open spec fn tagged(buf: Seq<u8>, pos: int, tag: Seq<u8>) -> bool {
    buf.subrange(pos, pos + 4) == tag
}

/// The position of the chunk that follows the chunk at `pos`.
pub open spec fn next_chunk(buf: Seq<u8>, pos: int) -> int {
    pos + 12 + u32_at(buf, pos + 4)
}

/// The number of bytes of `buf` from `pos` on.
pub open spec fn remaining(buf: Seq<u8>, pos: int) -> nat {
    if pos <= buf.len() {
        (buf.len() - pos) as nat
    } else {
        0
    }
}

/// The positions, from `pos` on, of the chunks tagged `tag`, in file order.
/// The walk ends where no tag and content size can be read.
pub open spec fn occurrences_from(buf: Seq<u8>, pos: int, tag: Seq<u8>) -> Seq<int>
    decreases remaining(buf, pos),
{
    if !readable(buf, pos, 8) {
        Seq::empty()
    } else if tagged(buf, pos, tag) {
        seq![pos] + occurrences_from(buf, next_chunk(buf, pos), tag)
    } else {
        occurrences_from(buf, next_chunk(buf, pos), tag)
    }
}

/// The positions of the chunks of a file that are tagged `tag`.
pub open spec fn occurrences(buf: Seq<u8>, tag: Seq<u8>) -> Seq<int> {
    occurrences_from(buf, 8, tag)
}

/// Chunks lie at least twelve bytes apart, which bounds their number.
pub proof fn lemma_occurrences_bound(buf: Seq<u8>, pos: int, tag: Seq<u8>)
    requires
        0 <= pos,
    ensures
        pos + 12 * occurrences_from(buf, pos, tag).len() <= i32::MAX + 4 || occurrences_from(
            buf,
            pos,
            tag,
        ).len() == 0,
        forall|i: int|
            0 <= i < occurrences_from(buf, pos, tag).len() ==> pos <= (#[trigger] occurrences_from(
                buf,
                pos,
                tag,
            )[i]) && readable(buf, occurrences_from(buf, pos, tag)[i], 8),
    decreases remaining(buf, pos),
{
    if readable(buf, pos, 8) {
        lemma_occurrences_bound(buf, next_chunk(buf, pos), tag);
    }
}

/// Appends a chunk header to `out`: the bytes of `name`, then the two sizes.
pub fn write_chunk(name: &str, size: u32, children_size: u32, out: &mut Vec<u8>)
    ensures
        final(out)@ == old(out)@ + chunk_header(encode_utf8(name@), size, children_size),
{
    write_string_literal(out, name);
    write_slice(out, &u32_to_array(size));
    write_slice(out, &u32_to_array(children_size));
    assert(out@ =~= old(out)@ + chunk_header(encode_utf8(name@), size, children_size));
}

/// The tag at the cursor as text. The cursor stays where it is.
pub fn chunk_name(vec: &Vec<u8>, pos: &mut i32) -> (r: Result<String, DecodeError>)
    ensures
        *final(pos) == *old(pos),
        match tag_at(vec@, *old(pos) as int) {
            Ok(t) => r matches Ok(s) && s@ == t,
            Err(e) => r == Err::<String, DecodeError>(e),
        },
{
    let p: i32 = *pos;
    if p < 0 || p > i32::MAX - 4 || vec.len() < 4 || p as usize > vec.len() - 4 {
        return Err(DecodeError::Truncated);
    }
    match text_from_range(vec, p as usize, p as usize + 4) {
        None => Err(DecodeError::InvalidText),
        Some(s) => Ok(s),
    }
}

/// Whether the four bytes of `buf` at `pos` are the bytes of `tag`.
fn tag_matches(buf: &Vec<u8>, pos: usize, tag: &[u8]) -> (r: bool)
    requires
        pos + 4 <= buf.len(),
    ensures
        r == tagged(buf@, pos as int, tag@),
{
    if tag.len() != 4 {
        return false;
    }
    let r = buf[pos] == tag[0] && buf[pos + 1] == tag[1] && buf[pos + 2] == tag[2] && buf[pos + 3]
        == tag[3];
    proof {
        let s = buf@.subrange(pos as int, pos as int + 4);
        if r {
            assert(s =~= tag@);
        } else {
            assert(s[0] == buf@[pos as int]);
            assert(s[1] == buf@[pos as int + 1]);
            assert(s[2] == buf@[pos as int + 2]);
            assert(s[3] == buf@[pos as int + 3]);
        }
    }
    r
}

/// Whether a tag and a content size can be read at `pos`.
fn header_readable(buf: &Vec<u8>, pos: u64) -> (r: bool)
    ensures
        r == readable(buf@, pos as int, 8),
{
    pos <= 0x7fff_fff7 && buf.len() >= 8 && pos as usize <= buf.len() - 8
}

/// The position of the `number`-th chunk tagged `tag`, counted from 1,
/// among the chunks from `start` on.
pub fn find_chunk_from(contents: &Vec<u8>, start: u64, tag: &[u8], number: i32) -> (r: Result<
    usize,
    DecodeError,
>)
    ensures
        ({
            let found = occurrences_from(contents@, start as int, tag@);
            if 1 <= number <= found.len() {
                r matches Ok(p) && p == found[number - 1]
            } else {
                r == Err::<usize, DecodeError>(DecodeError::ChunkNotFound)
            }
        }),
{
    let mut pos: u64 = start;
    let mut seen: i32 = 0;
    let ghost all = occurrences_from(contents@, start as int, tag@);
    let ghost mut found: Seq<int> = Seq::empty();
    proof {
        lemma_occurrences_bound(contents@, start as int, tag@);
        assert(found + all =~= all);
    }
    while header_readable(contents, pos)
        invariant
            0 <= seen,
            seen < number || number < 1,
            start <= pos,
            found.len() == seen,
            all == occurrences_from(contents@, start as int, tag@),
            all == found + occurrences_from(contents@, pos as int, tag@),
            12 * all.len() <= i32::MAX + 4,
        decreases remaining(contents@, pos as int),
    {
        let p: usize = pos as usize;
        let ghost rest = occurrences_from(contents@, next_chunk(contents@, pos as int), tag@);
        if tag_matches(contents, p, tag) {
            proof {
                assert(all =~= found.push(pos as int) + rest);
                found = found.push(pos as int);
            }
            seen = seen + 1;
            if seen == number {
                assert(all[seen - 1] == found[seen - 1]);
                return Ok(p);
            }
        }
        let size = match u32_from_vec(contents, (p + 4) as i32) {
            Ok(n) => n,
            Err(e) => { return Err(DecodeError::ChunkNotFound); },
        };
        pos = pos + 12 + size as u64;
    }
    Err(DecodeError::ChunkNotFound)
}

/// The position of the `number`-th chunk tagged `name`, counted from 1.
pub fn find_chunk(contents: &Vec<u8>, name: String, number: i32) -> (r: Result<
    usize,
    DecodeError,
>)
    ensures
        ({
            let found = occurrences(contents@, encode_utf8(name@));
            if 1 <= number <= found.len() {
                r matches Ok(p) && p == found[number - 1]
            } else {
                r == Err::<usize, DecodeError>(DecodeError::ChunkNotFound)
            }
        }),
{
    find_chunk_from(contents, 8, name.as_str().as_bytes(), number)
}

/// The number of chunks tagged `name`.
pub fn num_of_chunks(contents: &Vec<u8>, name: String) -> (n: i32)
    ensures
        n == occurrences(contents@, encode_utf8(name@)).len(),
{
    let tag = name.as_str().as_bytes();
    let mut pos: u64 = 8;
    let mut seen: i32 = 0;
    let ghost all = occurrences(contents@, tag@);
    proof {
        lemma_occurrences_bound(contents@, 8, tag@);
    }
    while header_readable(contents, pos)
        invariant
            0 <= seen,
            8 <= pos,
            all == occurrences(contents@, tag@),
            seen + occurrences_from(contents@, pos as int, tag@).len() == all.len(),
            12 * all.len() <= i32::MAX,
        decreases remaining(contents@, pos as int),
    {
        let p: usize = pos as usize;
        if tag_matches(contents, p, tag) {
            seen = seen + 1;
        }
        let size = match u32_from_vec(contents, (p + 4) as i32) {
            Ok(n) => n,
            Err(e) => { return seen; },
        };
        pos = pos + 12 + size as u64;
    }
    seen
}

/// The bytes of four ASCII characters.
pub proof fn lemma_ascii_tag(s: Seq<char>)
    requires
        s.len() == 4,
        is_ascii_chars(s),
    ensures
        encode_utf8(s) == seq![s[0] as u8, s[1] as u8, s[2] as u8, s[3] as u8],
{
    is_ascii_chars_encode_utf8(s);
    assert(encode_utf8(s) =~= seq![s[0] as u8, s[1] as u8, s[2] as u8, s[3] as u8]);
}

/// The tag `nTRN` of a transform node chunk.
pub open spec fn tag_ntrn() -> Seq<u8> {
    seq![110u8, 84u8, 82u8, 78u8]
}

/// The tag `nGRP` of a group node chunk.
pub open spec fn tag_ngrp() -> Seq<u8> {
    seq![110u8, 71u8, 82u8, 80u8]
}

/// The tag `nSHP` of a shape node chunk.
pub open spec fn tag_nshp() -> Seq<u8> {
    seq![110u8, 83u8, 72u8, 80u8]
}

/// The tag `MATL` of a material chunk.
pub open spec fn tag_matl() -> Seq<u8> {
    seq![77u8, 65u8, 84u8, 76u8]
}

/// The tag `LAYR` of a layer chunk.
pub open spec fn tag_layr() -> Seq<u8> {
    seq![76u8, 65u8, 89u8, 82u8]
}

/// The tag `SIZE` of the chunk that holds a model's dimensions.
pub open spec fn tag_size() -> Seq<u8> {
    seq![83u8, 73u8, 90u8, 69u8]
}

/// The tag `XYZI` of the chunk that holds a model's voxels.
pub open spec fn tag_xyzi() -> Seq<u8> {
    seq![88u8, 89u8, 90u8, 73u8]
}

/// The tag `RGBA` of the palette chunk.
pub open spec fn tag_rgba() -> Seq<u8> {
    seq![82u8, 71u8, 66u8, 65u8]
}

/// The tag `MAIN` of the outer container chunk.
pub open spec fn tag_main() -> Seq<u8> {
    seq![77u8, 65u8, 73u8, 78u8]
}

/// The magic `VOX ` with which a file begins.
pub open spec fn magic() -> Seq<u8> {
    seq![86u8, 79u8, 88u8, 32u8]
}

/// The bytes of the tag literals.
pub proof fn lemma_tags()
    ensures
        encode_utf8("nTRN"@) == tag_ntrn(),
        encode_utf8("nGRP"@) == tag_ngrp(),
        encode_utf8("nSHP"@) == tag_nshp(),
        encode_utf8("MATL"@) == tag_matl(),
        encode_utf8("LAYR"@) == tag_layr(),
        encode_utf8("SIZE"@) == tag_size(),
        encode_utf8("XYZI"@) == tag_xyzi(),
        encode_utf8("RGBA"@) == tag_rgba(),
        encode_utf8("MAIN"@) == tag_main(),
        encode_utf8("VOX "@) == magic(),
{
    reveal_strlit("nTRN");
    reveal_strlit("nGRP");
    reveal_strlit("nSHP");
    reveal_strlit("MATL");
    reveal_strlit("LAYR");
    reveal_strlit("SIZE");
    reveal_strlit("XYZI");
    reveal_strlit("RGBA");
    reveal_strlit("MAIN");
    reveal_strlit("VOX ");
    lemma_ascii_tag("nTRN"@);
    lemma_ascii_tag("nGRP"@);
    lemma_ascii_tag("nSHP"@);
    lemma_ascii_tag("MATL"@);
    lemma_ascii_tag("LAYR"@);
    lemma_ascii_tag("SIZE"@);
    lemma_ascii_tag("XYZI"@);
    lemma_ascii_tag("RGBA"@);
    lemma_ascii_tag("MAIN"@);
    lemma_ascii_tag("VOX "@);
}

} // verus!
