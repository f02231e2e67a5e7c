//! The typed chunk records: transform, group and shape nodes, materials and
//! layers. Each record reads itself at a cursor, writes itself with its chunk
//! header, and knows the exact size of its content.
use crate::convert::i32_at;
use crate::convert::i32_from_vec;
use crate::convert::i32_le;
use crate::convert::i32_to_array;
use crate::convert::lemma_i32_round_trip;
use crate::convert::readable;
use crate::convert::write_slice;
use crate::error::DecodeError;
use crate::riff::chunk::chunk_header;
use crate::riff::chunk::lemma_tags;
use crate::riff::chunk::tag_layr;
use crate::riff::chunk::tag_matl;
use crate::riff::chunk::tag_ngrp;
use crate::riff::chunk::tag_nshp;
use crate::riff::chunk::tag_ntrn;
use crate::riff::chunk::write_chunk;
use crate::riff::dict::dict_at;
use crate::riff::dict::dict_bytes;
use crate::riff::dict::dict_size;
use crate::riff::dict::lemma_dict_at_exact;
use crate::riff::dict::lemma_dict_round_trip;
use crate::riff::dict::lemma_pairs_bytes_len;
use crate::riff::dict::lemma_pairs_size_nonneg;
use crate::riff::dict::Dict;
use crate::riff::dict::Pairs;
use crate::seqs::lemma_split;
use vstd::prelude::*;

verus! {

/// The integer at `pos`, with the position after it.
pub open spec fn int_at(buf: Seq<u8>, pos: int) -> Result<(i32, int), DecodeError> {
    if readable(buf, pos, 4) {
        Ok((i32_at(buf, pos), pos + 4))
    } else {
        Err(DecodeError::Truncated)
    }
}

/// The `count` integers from `pos`, with the position after them.
pub open spec fn ints_at(buf: Seq<u8>, pos: int, count: int) -> Result<(Seq<i32>, int), DecodeError> {
    if count < 0 || !readable(buf, pos, 4 * count) {
        Err(DecodeError::Truncated)
    } else {
        Ok((Seq::new(count as nat, |i: int| i32_at(buf, pos + 4 * i)), pos + 4 * count))
    }
}

/// The wire form of a list of integers.
pub open spec fn ints_bytes(s: Seq<i32>) -> Seq<u8>
    decreases s.len(),
{
    if s.len() == 0 {
        Seq::empty()
    } else {
        ints_bytes(s.drop_last()) + i32_le(s.last())
    }
}

/// A list of integers takes four bytes for each.
pub proof fn lemma_ints_bytes(s: Seq<i32>)
    ensures
        ints_bytes(s).len() == 4 * s.len(),
        forall|i: int|
            0 <= i < s.len() ==> #[trigger] ints_bytes(s).subrange(4 * i, 4 * i + 4) == i32_le(
                s[i],
            ),
    decreases s.len(),
{
    if s.len() > 0 {
        let front = s.drop_last();
        lemma_ints_bytes(front);
        let b = ints_bytes(s);
        assert forall|i: int| 0 <= i < s.len() implies #[trigger] b.subrange(4 * i, 4 * i + 4)
            == i32_le(s[i]) by {
            if i < s.len() - 1 {
                assert(b.subrange(4 * i, 4 * i + 4) =~= ints_bytes(front).subrange(
                    4 * i,
                    4 * i + 4,
                ));
                assert(front[i] == s[i]);
            } else {
                assert(b.subrange(4 * i, 4 * i + 4) =~= i32_le(s.last()));
            }
        }
    }
}

/// A dictionary takes as many bytes as its size says, four at least.
pub proof fn lemma_dict_bytes_len(d: Pairs)
    ensures
        dict_bytes(d).len() == dict_size(d),
        dict_size(d) >= 4,
{
    lemma_pairs_bytes_len(d);
    lemma_pairs_size_nonneg(d);
}

/// A header takes twelve bytes.
pub proof fn lemma_header_len(tag: Seq<u8>, content: u32, children: u32)
    requires
        tag.len() == 4,
    ensures
        chunk_header(tag, content, children).len() == 12,
{
}

/// An integer field read back from its own bytes is the integer, and what
/// follows it on the wire follows it in the buffer.
pub proof fn lemma_int_field(buf: Seq<u8>, pos: int, v: i32, rest: Seq<u8>)
    requires
        0 <= pos,
        pos + 4 + rest.len() <= buf.len(),
        pos + 4 + rest.len() <= i32::MAX,
        buf.subrange(pos, pos + 4 + rest.len()) == i32_le(v) + rest,
    ensures
        int_at(buf, pos) == Ok::<(i32, int), DecodeError>((v, pos + 4)),
        buf.subrange(pos + 4, pos + 4 + rest.len()) == rest,
{
    lemma_split(buf, pos, i32_le(v), rest);
    lemma_i32_round_trip(buf, pos, v);
}

/// A dictionary field read back from its own bytes is the dictionary, and
/// what follows it on the wire follows it in the buffer.
pub proof fn lemma_dict_field(buf: Seq<u8>, pos: int, d: Pairs, rest: Seq<u8>)
    requires
        0 <= pos,
        pos + dict_size(d) + rest.len() <= buf.len(),
        pos + dict_size(d) + rest.len() <= i32::MAX,
        buf.subrange(pos, pos + dict_size(d) + rest.len()) == dict_bytes(d) + rest,
    ensures
        dict_at(buf, pos) == Ok::<(Pairs, int), DecodeError>((d, pos + dict_size(d))),
        buf.subrange(pos + dict_size(d), pos + dict_size(d) + rest.len()) == rest,
        dict_size(d) >= 4,
{
    lemma_pairs_bytes_len(d);
    lemma_pairs_size_nonneg(d);
    lemma_split(buf, pos, dict_bytes(d), rest);
    lemma_dict_round_trip(buf, pos, d);
}

/// A list of integers read back from its own bytes is the list.
pub proof fn lemma_ints_field(buf: Seq<u8>, pos: int, s: Seq<i32>)
    requires
        0 <= pos,
        pos + 4 * s.len() <= buf.len(),
        pos + 4 * s.len() <= i32::MAX,
        buf.subrange(pos, pos + 4 * s.len()) == ints_bytes(s),
    ensures
        ints_at(buf, pos, s.len() as int) == Ok::<(Seq<i32>, int), DecodeError>(
            (s, pos + 4 * s.len()),
        ),
{
    lemma_ints_bytes(s);
    let got = ints_at(buf, pos, s.len() as int)->Ok_0.0;
    assert forall|i: int| 0 <= i < s.len() implies got[i] == s[i] by {
        let whole = buf.subrange(pos, pos + 4 * s.len());
        assert(buf.subrange(pos + 4 * i, pos + 4 * i + 4) =~= whole.subrange(4 * i, 4 * i + 4));
        lemma_i32_round_trip(buf, pos + 4 * i, s[i]);
    }
    assert(got =~= s);
}

/// Reads the integer at the cursor and moves the cursor past it. On failure
/// the cursor stays where it was.
pub fn take_i32(input: &Vec<u8>, pos: &mut i32) -> (r: Result<i32, DecodeError>)
    ensures
        match int_at(input@, *old(pos) as int) {
            Ok((v, next)) => r == Ok::<i32, DecodeError>(v) && *final(pos) == next,
            Err(e) => r == Err::<i32, DecodeError>(e) && *final(pos) == *old(pos),
        },
{
    match i32_from_vec(input, pos) {
        Err(e) => Err(e),
        Ok(v) => {
            *pos = *pos + 4;
            Ok(v)
        },
    }
}

/// The cursor moved past a chunk header, if the cursor can go there.
pub fn skip_header(cursor: i32) -> (r: Result<i32, DecodeError>)
    ensures
        cursor + 12 <= i32::MAX ==> r == Ok::<i32, DecodeError>((cursor + 12) as i32),
        cursor + 12 > i32::MAX ==> r == Err::<i32, DecodeError>(DecodeError::Truncated),
{
    if cursor > i32::MAX - 12 {
        Err(DecodeError::Truncated)
    } else {
        Ok(cursor + 12)
    }
}

/// A rotation as one byte: bits 0 and 1 index the non-zero entry of the
/// first row, bits 2 and 3 that of the second row, bits 4 to 6 the signs of
/// the three rows.
pub struct Rotation {}

/// A transform node chunk as a mathematical value.
pub struct NtrnView {
    pub node_id: i32,
    pub node_attributes: Pairs,
    pub child_node_id: i32,
    pub reserved_id: i32,
    pub layer_id: i32,
    pub num_of_frames: i32,
    pub frame_attributes: Pairs,
}

/// The size of the content of a transform node chunk.
pub open spec fn ntrn_size(v: NtrnView) -> int {
    20 + dict_size(v.node_attributes) + dict_size(v.frame_attributes)
}

/// What follows the frame count of a transform node chunk.
pub open spec fn ntrn_tail(v: NtrnView) -> Seq<u8> {
    i32_le(v.child_node_id) + (i32_le(v.reserved_id) + (i32_le(v.layer_id) + (i32_le(
        v.num_of_frames,
    ) + dict_bytes(v.frame_attributes))))
}

/// The content of a transform node chunk: node id, attributes, child id,
/// reserved id, layer id, frame count, frame attributes.
pub open spec fn ntrn_payload(v: NtrnView) -> Seq<u8> {
    i32_le(v.node_id) + (dict_bytes(v.node_attributes) + ntrn_tail(v))
}

/// A transform node chunk on the wire.
pub open spec fn ntrn_bytes(v: NtrnView) -> Seq<u8> {
    chunk_header(tag_ntrn(), ntrn_size(v) as u32, 0) + ntrn_payload(v)
}

/// The transform node chunk whose header starts at `pos`, with the position
/// after the chunk.
pub open spec fn ntrn_at(buf: Seq<u8>, pos: int) -> Result<(NtrnView, int), DecodeError> {
    match int_at(buf, pos + 12) {
        Err(e) => Err(e),
        Ok((node_id, p1)) => match dict_at(buf, p1) {
            Err(e) => Err(e),
            Ok((node_attributes, p2)) => match int_at(buf, p2) {
                Err(e) => Err(e),
                Ok((child_node_id, p3)) => match int_at(buf, p3) {
                    Err(e) => Err(e),
                    Ok((reserved_id, p4)) => match int_at(buf, p4) {
                        Err(e) => Err(e),
                        Ok((layer_id, p5)) => match int_at(buf, p5) {
                            Err(e) => Err(e),
                            Ok((num_of_frames, p6)) => match dict_at(buf, p6) {
                                Err(e) => Err(e),
                                Ok((frame_attributes, p7)) => Ok(
                                    (
                                        NtrnView {
                                            node_id,
                                            node_attributes,
                                            child_node_id,
                                            reserved_id,
                                            layer_id,
                                            num_of_frames,
                                            frame_attributes,
                                        },
                                        p7,
                                    ),
                                ),
                            },
                        },
                    },
                },
            },
        },
    }
}

/// A transform node chunk.
#[allow(non_camel_case_types)]
#[derive(Debug, Clone, PartialEq)]
pub struct nTRN {
    pub node_id: i32,
    pub node_attributes: Dict,
    pub child_node_id: i32,
    /// Always -1 in files.
    pub reserved_id: i32,
    pub layer_id: i32,
    /// Always 1 in files.
    pub num_of_frames: i32,
    /// The rotation under `_r` and the translation under `_t`.
    pub frame_attributes: Dict,
}

impl View for nTRN {
    type V = NtrnView;

    open spec fn view(&self) -> NtrnView {
        NtrnView {
            node_id: self.node_id,
            node_attributes: self.node_attributes@,
            child_node_id: self.child_node_id,
            reserved_id: self.reserved_id,
            layer_id: self.layer_id,
            num_of_frames: self.num_of_frames,
            frame_attributes: self.frame_attributes@,
        }
    }
}

/// The content of a transform node chunk takes as many bytes as its size
/// says.
pub proof fn lemma_ntrn_len(v: NtrnView)
    ensures
        ntrn_payload(v).len() == ntrn_size(v),
        ntrn_size(v) >= 28,
        ntrn_bytes(v).len() == 12 + ntrn_size(v),
{
    lemma_dict_bytes_len(v.node_attributes);
    lemma_dict_bytes_len(v.frame_attributes);
    let t4 = i32_le(v.num_of_frames) + dict_bytes(v.frame_attributes);
    assert(t4.len() == 4 + dict_size(v.frame_attributes));
    let t3 = i32_le(v.layer_id) + t4;
    assert(t3.len() == 4 + t4.len());
    let t2 = i32_le(v.reserved_id) + t3;
    assert(t2.len() == 4 + t3.len());
    assert(ntrn_tail(v).len() == 4 + t2.len());
    let t0 = dict_bytes(v.node_attributes) + ntrn_tail(v);
    assert(t0.len() == dict_size(v.node_attributes) + ntrn_tail(v).len());
    assert(ntrn_payload(v).len() == 4 + t0.len());
    lemma_header_len(tag_ntrn(), ntrn_size(v) as u32, 0);
}

/// A transform node chunk read back from its own wire form is the chunk,
/// and the cursor ends behind it.
pub proof fn lemma_ntrn_round_trip(buf: Seq<u8>, pos: int, v: NtrnView)
    requires
        0 <= pos,
        pos + 12 + ntrn_size(v) <= buf.len(),
        pos + 12 + ntrn_size(v) <= i32::MAX,
        buf.subrange(pos, pos + 12 + ntrn_size(v)) == ntrn_bytes(v),
    ensures
        ntrn_at(buf, pos) == Ok::<(NtrnView, int), DecodeError>((v, pos + 12 + ntrn_size(v))),
{
    lemma_ntrn_len(v);
    lemma_pairs_bytes_len(v.node_attributes);
    lemma_pairs_bytes_len(v.frame_attributes);
    lemma_pairs_size_nonneg(v.node_attributes);
    lemma_pairs_size_nonneg(v.frame_attributes);
    let a = dict_size(v.node_attributes);
    lemma_split(buf, pos, chunk_header(tag_ntrn(), ntrn_size(v) as u32, 0), ntrn_payload(v));
    let p0 = pos + 12;
    lemma_int_field(buf, p0, v.node_id, dict_bytes(v.node_attributes) + ntrn_tail(v));
    lemma_dict_field(buf, p0 + 4, v.node_attributes, ntrn_tail(v));
    let p2 = p0 + 4 + a;
    let t1 = i32_le(v.reserved_id) + (i32_le(v.layer_id) + (i32_le(v.num_of_frames) + dict_bytes(
        v.frame_attributes,
    )));
    lemma_int_field(buf, p2, v.child_node_id, t1);
    let t2 = i32_le(v.layer_id) + (i32_le(v.num_of_frames) + dict_bytes(v.frame_attributes));
    lemma_int_field(buf, p2 + 4, v.reserved_id, t2);
    let t3 = i32_le(v.num_of_frames) + dict_bytes(v.frame_attributes);
    lemma_int_field(buf, p2 + 8, v.layer_id, t3);
    lemma_int_field(buf, p2 + 12, v.num_of_frames, dict_bytes(v.frame_attributes));
    lemma_dict_round_trip(buf, p2 + 16, v.frame_attributes);
}

impl nTRN {
    /// Both dictionaries are well formed and the content fits a 32-bit size.
    pub open spec fn wf(&self) -> bool {
        &&& self.node_attributes.wf()
        &&& self.frame_attributes.wf()
        &&& ntrn_size(self@) <= i32::MAX
    }

    /// Reads the chunk whose header starts at the cursor and moves the
    /// cursor past the chunk. On failure the cursor stays where it was.
    pub fn read(input: &Vec<u8>, cursor: &mut i32) -> (r: Result<nTRN, DecodeError>)
        ensures
            match ntrn_at(input@, *old(cursor) as int) {
                Ok((v, next)) => {
                    &&& r matches Ok(x)
                    &&& x@ == v
                    &&& x.wf()
                    &&& *final(cursor) == next
                    &&& next == *old(cursor) + 12 + ntrn_size(v)
                },
                Err(e) => r == Err::<nTRN, DecodeError>(e) && *final(cursor) == *old(cursor),
            },
    {
        let mut pos: i32 = match skip_header(*cursor) {
            Ok(p) => p,
            Err(e) => { return Err(e); },
        };
        let node_id = match take_i32(input, &mut pos) {
            Ok(v) => v,
            Err(e) => { return Err(e); },
        };
        proof {
            if dict_at(input@, pos as int) is Ok {
                lemma_dict_at_exact(input@, pos as int);
            }
        }
        let node_attributes = match Dict::read(input, &mut pos) {
            Ok(v) => v,
            Err(e) => { return Err(e); },
        };
        let child_node_id = match take_i32(input, &mut pos) {
            Ok(v) => v,
            Err(e) => { return Err(e); },
        };
        let reserved_id = match take_i32(input, &mut pos) {
            Ok(v) => v,
            Err(e) => { return Err(e); },
        };
        let layer_id = match take_i32(input, &mut pos) {
            Ok(v) => v,
            Err(e) => { return Err(e); },
        };
        let num_of_frames = match take_i32(input, &mut pos) {
            Ok(v) => v,
            Err(e) => { return Err(e); },
        };
        proof {
            if dict_at(input@, pos as int) is Ok {
                lemma_dict_at_exact(input@, pos as int);
            }
        }
        let frame_attributes = match Dict::read(input, &mut pos) {
            Ok(v) => v,
            Err(e) => { return Err(e); },
        };
        *cursor = pos;
        Ok(
            nTRN {
                node_id,
                node_attributes,
                child_node_id,
                reserved_id,
                layer_id,
                num_of_frames,
                frame_attributes,
            },
        )
    }

    /// Appends the chunk, header first, to `out`.
    pub fn write(&self, out: &mut Vec<u8>)
        requires
            self.wf(),
        ensures
            final(out)@ == old(out)@ + ntrn_bytes(self@),
    {
        proof {
            lemma_tags();
        }
        write_chunk("nTRN", self.get_size() as u32, 0, out);
        write_slice(out, &i32_to_array(self.node_id));
        self.node_attributes.write(out);
        write_slice(out, &i32_to_array(self.child_node_id));
        write_slice(out, &i32_to_array(self.reserved_id));
        write_slice(out, &i32_to_array(self.layer_id));
        write_slice(out, &i32_to_array(self.num_of_frames));
        self.frame_attributes.write(out);
        assert(out@ =~= old(out)@ + ntrn_bytes(self@));
    }

    /// The size of the chunk's content in bytes.
    pub fn get_size(&self) -> (n: i32)
        requires
            self.wf(),
        ensures
            n == ntrn_size(self@),
    {
        proof {
            lemma_pairs_size_nonneg(self.node_attributes@);
            lemma_pairs_size_nonneg(self.frame_attributes@);
        }
        20 + self.node_attributes.get_size() + self.frame_attributes.get_size()
    }
}

/// A group node chunk as a mathematical value.
pub struct NgrpView {
    pub node_id: i32,
    pub node_attributes: Pairs,
    pub child_id: Seq<i32>,
}

/// The size of the content of a group node chunk.
pub open spec fn ngrp_size(v: NgrpView) -> int {
    8 + dict_size(v.node_attributes) + 4 * v.child_id.len()
}

/// The content of a group node chunk: node id, attributes, the number of
/// children, the id of each child.
pub open spec fn ngrp_payload(v: NgrpView) -> Seq<u8> {
    i32_le(v.node_id) + (dict_bytes(v.node_attributes) + (i32_le(v.child_id.len() as i32)
        + ints_bytes(v.child_id)))
}

/// A group node chunk on the wire.
pub open spec fn ngrp_bytes(v: NgrpView) -> Seq<u8> {
    chunk_header(tag_ngrp(), ngrp_size(v) as u32, 0) + ngrp_payload(v)
}

/// The group node chunk whose header starts at `pos`, with the position
/// after the chunk.
pub open spec fn ngrp_at(buf: Seq<u8>, pos: int) -> Result<(NgrpView, int), DecodeError> {
    match int_at(buf, pos + 12) {
        Err(e) => Err(e),
        Ok((node_id, p1)) => match dict_at(buf, p1) {
            Err(e) => Err(e),
            Ok((node_attributes, p2)) => match int_at(buf, p2) {
                Err(e) => Err(e),
                Ok((count, p3)) => match ints_at(buf, p3, count as int) {
                    Err(e) => Err(e),
                    Ok((child_id, p4)) => Ok((NgrpView { node_id, node_attributes, child_id }, p4)),
                },
            },
        },
    }
}

/// A group node chunk.
#[allow(non_camel_case_types)]
#[derive(Debug, Clone, PartialEq)]
pub struct nGRP {
    pub node_id: i32,
    pub node_attributes: Dict,
    pub num_of_children_nodes: i32,
    /// The id of each child node.
    pub child_id: Vec<i32>,
}

impl View for nGRP {
    type V = NgrpView;

    open spec fn view(&self) -> NgrpView {
        NgrpView {
            node_id: self.node_id,
            node_attributes: self.node_attributes@,
            child_id: self.child_id@,
        }
    }
}

/// The content of a group node chunk takes as many bytes as its size says.
pub proof fn lemma_ngrp_len(v: NgrpView)
    ensures
        ngrp_payload(v).len() == ngrp_size(v),
        ngrp_size(v) >= 12,
        ngrp_bytes(v).len() == 12 + ngrp_size(v),
{
    lemma_dict_bytes_len(v.node_attributes);
    lemma_ints_bytes(v.child_id);
    let t1 = i32_le(v.child_id.len() as i32) + ints_bytes(v.child_id);
    assert(t1.len() == 4 + 4 * v.child_id.len());
    let t0 = dict_bytes(v.node_attributes) + t1;
    assert(t0.len() == dict_size(v.node_attributes) + t1.len());
    assert(ngrp_payload(v).len() == 4 + t0.len());
    lemma_header_len(tag_ngrp(), ngrp_size(v) as u32, 0);
}

/// A group node chunk read back from its own wire form is the chunk, and
/// the cursor ends behind it.
pub proof fn lemma_ngrp_round_trip(buf: Seq<u8>, pos: int, v: NgrpView)
    requires
        0 <= pos,
        pos + 12 + ngrp_size(v) <= buf.len(),
        pos + 12 + ngrp_size(v) <= i32::MAX,
        buf.subrange(pos, pos + 12 + ngrp_size(v)) == ngrp_bytes(v),
    ensures
        ngrp_at(buf, pos) == Ok::<(NgrpView, int), DecodeError>((v, pos + 12 + ngrp_size(v))),
{
    lemma_ngrp_len(v);
    lemma_dict_bytes_len(v.node_attributes);
    lemma_ints_bytes(v.child_id);
    let a = dict_size(v.node_attributes);
    lemma_split(buf, pos, chunk_header(tag_ngrp(), ngrp_size(v) as u32, 0), ngrp_payload(v));
    let p0 = pos + 12;
    let t1 = i32_le(v.child_id.len() as i32) + ints_bytes(v.child_id);
    lemma_int_field(buf, p0, v.node_id, dict_bytes(v.node_attributes) + t1);
    lemma_dict_field(buf, p0 + 4, v.node_attributes, t1);
    lemma_int_field(buf, p0 + 4 + a, v.child_id.len() as i32, ints_bytes(v.child_id));
    lemma_ints_field(buf, p0 + 8 + a, v.child_id);
}

impl nGRP {
    /// The attributes are well formed, the declared count is the number of
    /// child ids, and the content fits a 32-bit size.
    pub open spec fn wf(&self) -> bool {
        &&& self.node_attributes.wf()
        &&& self.num_of_children_nodes == self.child_id@.len()
        &&& ngrp_size(self@) <= i32::MAX
    }

    /// Reads the chunk whose header starts at the cursor and moves the
    /// cursor past the chunk. On failure the cursor stays where it was.
    pub fn read(input: &Vec<u8>, cursor: &mut i32) -> (r: Result<nGRP, DecodeError>)
        ensures
            match ngrp_at(input@, *old(cursor) as int) {
                Ok((v, next)) => {
                    &&& r matches Ok(x)
                    &&& x@ == v
                    &&& x.wf()
                    &&& *final(cursor) == next
                    &&& next == *old(cursor) + 12 + ngrp_size(v)
                },
                Err(e) => r == Err::<nGRP, DecodeError>(e) && *final(cursor) == *old(cursor),
            },
    {
        let mut pos: i32 = match skip_header(*cursor) {
            Ok(p) => p,
            Err(e) => { return Err(e); },
        };
        let node_id = match take_i32(input, &mut pos) {
            Ok(v) => v,
            Err(e) => { return Err(e); },
        };
        proof {
            if dict_at(input@, pos as int) is Ok {
                lemma_dict_at_exact(input@, pos as int);
            }
        }
        let node_attributes = match Dict::read(input, &mut pos) {
            Ok(v) => v,
            Err(e) => { return Err(e); },
        };
        let num_of_children_nodes = match take_i32(input, &mut pos) {
            Ok(v) => v,
            Err(e) => { return Err(e); },
        };
        let child_id = match take_ints(input, &mut pos, num_of_children_nodes) {
            Ok(v) => v,
            Err(e) => { return Err(e); },
        };
        *cursor = pos;
        Ok(nGRP { node_id, node_attributes, num_of_children_nodes, child_id })
    }

    /// Appends the chunk, header first, to `out`.
    pub fn write(&self, out: &mut Vec<u8>)
        requires
            self.wf(),
        ensures
            final(out)@ == old(out)@ + ngrp_bytes(self@),
    {
        proof {
            lemma_tags();
        }
        write_chunk("nGRP", self.get_size() as u32, 0, out);
        write_slice(out, &i32_to_array(self.node_id));
        self.node_attributes.write(out);
        write_slice(out, &i32_to_array(self.num_of_children_nodes));
        let ghost before = out@;
        let mut i: usize = 0;
        assert(self.child_id@.take(0) =~= Seq::<i32>::empty());
        while i < self.child_id.len()
            invariant
                i <= self.child_id.len(),
                out@ == before + ints_bytes(self.child_id@.take(i as int)),
            decreases self.child_id.len() - i,
        {
            write_slice(out, &i32_to_array(self.child_id[i]));
            proof {
                let next = self.child_id@.take(i as int + 1);
                assert(next.drop_last() =~= self.child_id@.take(i as int));
                assert(next.last() == self.child_id@[i as int]);
                assert(out@ =~= before + ints_bytes(next));
            }
            i = i + 1;
        }
        assert(self.child_id@.take(i as int) =~= self.child_id@);
        assert(out@ =~= old(out)@ + ngrp_bytes(self@));
    }

    /// The size of the chunk's content in bytes.
    pub fn get_size(&self) -> (n: i32)
        requires
            self.wf(),
        ensures
            n == ngrp_size(self@),
    {
        proof {
            lemma_pairs_size_nonneg(self.node_attributes@);
        }
        8 + self.node_attributes.get_size() + self.child_id.len() as i32 * 4
    }
}

/// Reads `count` integers at the cursor and moves the cursor past them. On
/// failure the cursor stays where it was.
pub fn take_ints(input: &Vec<u8>, pos: &mut i32, count: i32) -> (r: Result<Vec<i32>, DecodeError>)
    ensures
        match ints_at(input@, *old(pos) as int, count as int) {
            Ok((s, next)) => r matches Ok(v) && v@ == s && *final(pos) == next,
            Err(e) => r == Err::<Vec<i32>, DecodeError>(e) && *final(pos) == *old(pos),
        },
{
    let start: i32 = *pos;
    let limit: i64 = if input.len() > 0x7fff_ffff {
        0x7fff_ffff
    } else {
        input.len() as i64
    };
    if count < 0 || start < 0 || (start as i64) + 4 * (count as i64) > limit {
        return Err(DecodeError::Truncated);
    }
    let mut out: Vec<i32> = Vec::new();
    let mut i: i32 = 0;
    let mut at: i32 = start;
    while i < count
        invariant
            0 <= i <= count,
            0 <= start,
            at == start + 4 * i,
            start + 4 * count <= i32::MAX,
            start + 4 * count <= input@.len(),
            out@.len() == i,
            forall|j: int| 0 <= j < i ==> out@[j] == i32_at(input@, start + 4 * j),
        decreases count - i,
    {
        let v = match take_i32(input, &mut at) {
            Ok(v) => v,
            Err(e) => { return Err(e); },
        };
        out.push(v);
        i = i + 1;
    }
    proof {
        assert(out@ =~= ints_at(input@, start as int, count as int)->Ok_0.0);
    }
    *pos = at;
    Ok(out)
}

/// A shape node chunk as a mathematical value.
pub struct NshpView {
    pub node_id: i32,
    pub node_attributes: Pairs,
    pub num_of_models: i32,
    pub model_id: i32,
    pub model_attributes: Pairs,
}

/// The size of the content of a shape node chunk.
pub open spec fn nshp_size(v: NshpView) -> int {
    12 + dict_size(v.node_attributes) + dict_size(v.model_attributes)
}

/// The content of a shape node chunk: node id, attributes, the number of
/// models, the model id and the model's attributes.
pub open spec fn nshp_payload(v: NshpView) -> Seq<u8> {
    i32_le(v.node_id) + (dict_bytes(v.node_attributes) + (i32_le(v.num_of_models) + (i32_le(
        v.model_id,
    ) + dict_bytes(v.model_attributes))))
}

/// A shape node chunk on the wire.
pub open spec fn nshp_bytes(v: NshpView) -> Seq<u8> {
    chunk_header(tag_nshp(), nshp_size(v) as u32, 0) + nshp_payload(v)
}

/// The shape node chunk whose header starts at `pos`, with the position
/// after the chunk.
pub open spec fn nshp_at(buf: Seq<u8>, pos: int) -> Result<(NshpView, int), DecodeError> {
    match int_at(buf, pos + 12) {
        Err(e) => Err(e),
        Ok((node_id, p1)) => match dict_at(buf, p1) {
            Err(e) => Err(e),
            Ok((node_attributes, p2)) => match int_at(buf, p2) {
                Err(e) => Err(e),
                Ok((num_of_models, p3)) => match int_at(buf, p3) {
                    Err(e) => Err(e),
                    Ok((model_id, p4)) => match dict_at(buf, p4) {
                        Err(e) => Err(e),
                        Ok((model_attributes, p5)) => Ok(
                            (
                                NshpView {
                                    node_id,
                                    node_attributes,
                                    num_of_models,
                                    model_id,
                                    model_attributes,
                                },
                                p5,
                            ),
                        ),
                    },
                },
            },
        },
    }
}

/// A shape node chunk. The format allows several models; files hold one.
#[allow(non_camel_case_types)]
#[derive(Debug, Clone, PartialEq)]
pub struct nSHP {
    pub node_id: i32,
    pub node_attributes: Dict,
    /// Always 1 in files.
    pub num_of_models: i32,
    pub model_id: i32,
    /// Reserved.
    pub model_attributes: Dict,
}

impl View for nSHP {
    type V = NshpView;

    open spec fn view(&self) -> NshpView {
        NshpView {
            node_id: self.node_id,
            node_attributes: self.node_attributes@,
            num_of_models: self.num_of_models,
            model_id: self.model_id,
            model_attributes: self.model_attributes@,
        }
    }
}

/// The content of a shape node chunk takes as many bytes as its size says.
pub proof fn lemma_nshp_len(v: NshpView)
    ensures
        nshp_payload(v).len() == nshp_size(v),
        nshp_size(v) >= 20,
        nshp_bytes(v).len() == 12 + nshp_size(v),
{
    lemma_dict_bytes_len(v.node_attributes);
    lemma_dict_bytes_len(v.model_attributes);
    let t2 = i32_le(v.model_id) + dict_bytes(v.model_attributes);
    assert(t2.len() == 4 + dict_size(v.model_attributes));
    let t1 = i32_le(v.num_of_models) + t2;
    assert(t1.len() == 4 + t2.len());
    let t0 = dict_bytes(v.node_attributes) + t1;
    assert(t0.len() == dict_size(v.node_attributes) + t1.len());
    assert(nshp_payload(v).len() == 4 + t0.len());
    lemma_header_len(tag_nshp(), nshp_size(v) as u32, 0);
}

/// A shape node chunk read back from its own wire form is the chunk, and
/// the cursor ends behind it.
pub proof fn lemma_nshp_round_trip(buf: Seq<u8>, pos: int, v: NshpView)
    requires
        0 <= pos,
        pos + 12 + nshp_size(v) <= buf.len(),
        pos + 12 + nshp_size(v) <= i32::MAX,
        buf.subrange(pos, pos + 12 + nshp_size(v)) == nshp_bytes(v),
    ensures
        nshp_at(buf, pos) == Ok::<(NshpView, int), DecodeError>((v, pos + 12 + nshp_size(v))),
{
    lemma_nshp_len(v);
    lemma_dict_bytes_len(v.node_attributes);
    lemma_dict_bytes_len(v.model_attributes);
    let a = dict_size(v.node_attributes);
    lemma_split(buf, pos, chunk_header(tag_nshp(), nshp_size(v) as u32, 0), nshp_payload(v));
    let p0 = pos + 12;
    let t2 = i32_le(v.model_id) + dict_bytes(v.model_attributes);
    let t1 = i32_le(v.num_of_models) + t2;
    lemma_int_field(buf, p0, v.node_id, dict_bytes(v.node_attributes) + t1);
    lemma_dict_field(buf, p0 + 4, v.node_attributes, t1);
    lemma_int_field(buf, p0 + 4 + a, v.num_of_models, t2);
    lemma_int_field(buf, p0 + 8 + a, v.model_id, dict_bytes(v.model_attributes));
    lemma_dict_round_trip(buf, p0 + 12 + a, v.model_attributes);
}

impl nSHP {
    /// Both dictionaries are well formed and the content fits a 32-bit size.
    pub open spec fn wf(&self) -> bool {
        &&& self.node_attributes.wf()
        &&& self.model_attributes.wf()
        &&& nshp_size(self@) <= i32::MAX
    }

    /// Reads the chunk whose header starts at the cursor and moves the
    /// cursor past the chunk. On failure the cursor stays where it was.
    pub fn read(input: &Vec<u8>, cursor: &mut i32) -> (r: Result<nSHP, DecodeError>)
        ensures
            match nshp_at(input@, *old(cursor) as int) {
                Ok((v, next)) => {
                    &&& r matches Ok(x)
                    &&& x@ == v
                    &&& x.wf()
                    &&& *final(cursor) == next
                    &&& next == *old(cursor) + 12 + nshp_size(v)
                },
                Err(e) => r == Err::<nSHP, DecodeError>(e) && *final(cursor) == *old(cursor),
            },
    {
        let mut pos: i32 = match skip_header(*cursor) {
            Ok(p) => p,
            Err(e) => { return Err(e); },
        };
        let node_id = match take_i32(input, &mut pos) {
            Ok(v) => v,
            Err(e) => { return Err(e); },
        };
        proof {
            if dict_at(input@, pos as int) is Ok {
                lemma_dict_at_exact(input@, pos as int);
            }
        }
        let node_attributes = match Dict::read(input, &mut pos) {
            Ok(v) => v,
            Err(e) => { return Err(e); },
        };
        let num_of_models = match take_i32(input, &mut pos) {
            Ok(v) => v,
            Err(e) => { return Err(e); },
        };
        let model_id = match take_i32(input, &mut pos) {
            Ok(v) => v,
            Err(e) => { return Err(e); },
        };
        proof {
            if dict_at(input@, pos as int) is Ok {
                lemma_dict_at_exact(input@, pos as int);
            }
        }
        let model_attributes = match Dict::read(input, &mut pos) {
            Ok(v) => v,
            Err(e) => { return Err(e); },
        };
        *cursor = pos;
        Ok(nSHP { node_id, node_attributes, num_of_models, model_id, model_attributes })
    }

    /// Appends the chunk, header first, to `out`.
    pub fn write(&self, out: &mut Vec<u8>)
        requires
            self.wf(),
        ensures
            final(out)@ == old(out)@ + nshp_bytes(self@),
    {
        proof {
            lemma_tags();
        }
        write_chunk("nSHP", self.get_size() as u32, 0, out);
        write_slice(out, &i32_to_array(self.node_id));
        self.node_attributes.write(out);
        write_slice(out, &i32_to_array(self.num_of_models));
        write_slice(out, &i32_to_array(self.model_id));
        self.model_attributes.write(out);
        assert(out@ =~= old(out)@ + nshp_bytes(self@));
    }

    /// The size of the chunk's content in bytes.
    pub fn get_size(&self) -> (n: i32)
        requires
            self.wf(),
        ensures
            n == nshp_size(self@),
    {
        proof {
            lemma_pairs_size_nonneg(self.node_attributes@);
            lemma_pairs_size_nonneg(self.model_attributes@);
        }
        12 + self.node_attributes.get_size() + self.model_attributes.get_size()
    }
}

/// A material chunk as a mathematical value.
pub struct MatlView {
    pub material_id: i32,
    pub properties: Pairs,
}

/// The size of the content of a material chunk.
pub open spec fn matl_size(v: MatlView) -> int {
    4 + dict_size(v.properties)
}

/// The content of a material chunk: the material id and its properties.
pub open spec fn matl_payload(v: MatlView) -> Seq<u8> {
    i32_le(v.material_id) + dict_bytes(v.properties)
}

/// A material chunk on the wire.
pub open spec fn matl_bytes(v: MatlView) -> Seq<u8> {
    chunk_header(tag_matl(), matl_size(v) as u32, 0) + matl_payload(v)
}

/// The material chunk whose header starts at `pos`, with the position after
/// the chunk.
pub open spec fn matl_at(buf: Seq<u8>, pos: int) -> Result<(MatlView, int), DecodeError> {
    match int_at(buf, pos + 12) {
        Err(e) => Err(e),
        Ok((material_id, p1)) => match dict_at(buf, p1) {
            Err(e) => Err(e),
            Ok((properties, p2)) => Ok((MatlView { material_id, properties }, p2)),
        },
    }
}

/// A material chunk.
#[allow(non_camel_case_types)]
#[derive(Debug, Clone, PartialEq)]
pub struct MATL {
    pub material_id: i32,
    pub properties: Dict,
}

impl View for MATL {
    type V = MatlView;

    open spec fn view(&self) -> MatlView {
        MatlView { material_id: self.material_id, properties: self.properties@ }
    }
}

/// A material chunk read back from its own wire form is the chunk, and the
/// cursor ends behind it.
pub proof fn lemma_matl_round_trip(buf: Seq<u8>, pos: int, v: MatlView)
    requires
        0 <= pos,
        pos + 12 + matl_size(v) <= buf.len(),
        pos + 12 + matl_size(v) <= i32::MAX,
        buf.subrange(pos, pos + 12 + matl_size(v)) == matl_bytes(v),
    ensures
        matl_at(buf, pos) == Ok::<(MatlView, int), DecodeError>((v, pos + 12 + matl_size(v))),
        matl_bytes(v).len() == 12 + matl_size(v),
{
    lemma_dict_bytes_len(v.properties);
    lemma_header_len(tag_matl(), matl_size(v) as u32, 0);
    lemma_split(buf, pos, chunk_header(tag_matl(), matl_size(v) as u32, 0), matl_payload(v));
    lemma_int_field(buf, pos + 12, v.material_id, dict_bytes(v.properties));
    lemma_dict_round_trip(buf, pos + 16, v.properties);
}

impl MATL {
    /// The properties are well formed and the content fits a 32-bit size.
    pub open spec fn wf(&self) -> bool {
        &&& self.properties.wf()
        &&& matl_size(self@) <= i32::MAX
    }

    /// Reads the chunk whose header starts at the cursor and moves the
    /// cursor past the chunk. On failure the cursor stays where it was.
    pub fn read(input: &Vec<u8>, cursor: &mut i32) -> (r: Result<MATL, DecodeError>)
        ensures
            match matl_at(input@, *old(cursor) as int) {
                Ok((v, next)) => {
                    &&& r matches Ok(x)
                    &&& x@ == v
                    &&& x.wf()
                    &&& *final(cursor) == next
                    &&& next == *old(cursor) + 12 + matl_size(v)
                },
                Err(e) => r == Err::<MATL, DecodeError>(e) && *final(cursor) == *old(cursor),
            },
    {
        let mut pos: i32 = match skip_header(*cursor) {
            Ok(p) => p,
            Err(e) => { return Err(e); },
        };
        let material_id = match take_i32(input, &mut pos) {
            Ok(v) => v,
            Err(e) => { return Err(e); },
        };
        proof {
            if dict_at(input@, pos as int) is Ok {
                lemma_dict_at_exact(input@, pos as int);
            }
        }
        let properties = match Dict::read(input, &mut pos) {
            Ok(v) => v,
            Err(e) => { return Err(e); },
        };
        *cursor = pos;
        Ok(MATL { material_id, properties })
    }

    /// Appends the chunk, header first, to `out`.
    pub fn write(&self, out: &mut Vec<u8>)
        requires
            self.wf(),
        ensures
            final(out)@ == old(out)@ + matl_bytes(self@),
    {
        proof {
            lemma_tags();
        }
        write_chunk("MATL", self.get_size() as u32, 0, out);
        write_slice(out, &i32_to_array(self.material_id));
        self.properties.write(out);
        assert(out@ =~= old(out)@ + matl_bytes(self@));
    }

    /// The size of the chunk's content in bytes.
    pub fn get_size(&self) -> (n: i32)
        requires
            self.wf(),
        ensures
            n == matl_size(self@),
    {
        proof {
            lemma_pairs_size_nonneg(self.properties@);
        }
        4 + self.properties.get_size()
    }
}

/// A layer chunk as a mathematical value.
pub struct LayrView {
    pub layer_id: i32,
    pub layer_attributes: Pairs,
    pub reserved_id: i32,
}

/// The size of the content of a layer chunk.
pub open spec fn layr_size(v: LayrView) -> int {
    8 + dict_size(v.layer_attributes)
}

/// The content of a layer chunk: the layer id, its attributes and a
/// reserved id.
pub open spec fn layr_payload(v: LayrView) -> Seq<u8> {
    i32_le(v.layer_id) + (dict_bytes(v.layer_attributes) + i32_le(v.reserved_id))
}

/// A layer chunk on the wire.
pub open spec fn layr_bytes(v: LayrView) -> Seq<u8> {
    chunk_header(tag_layr(), layr_size(v) as u32, 0) + layr_payload(v)
}

/// The layer chunk whose header starts at `pos`, with the position after
/// the chunk.
pub open spec fn layr_at(buf: Seq<u8>, pos: int) -> Result<(LayrView, int), DecodeError> {
    match int_at(buf, pos + 12) {
        Err(e) => Err(e),
        Ok((layer_id, p1)) => match dict_at(buf, p1) {
            Err(e) => Err(e),
            Ok((layer_attributes, p2)) => match int_at(buf, p2) {
                Err(e) => Err(e),
                Ok((reserved_id, p3)) => Ok(
                    (LayrView { layer_id, layer_attributes, reserved_id }, p3),
                ),
            },
        },
    }
}

/// A layer chunk.
#[allow(non_camel_case_types)]
#[derive(Debug, Clone, PartialEq)]
pub struct LAYR {
    pub layer_id: i32,
    /// The name under `_name` and the visibility under `_hidden`.
    pub layer_attributes: Dict,
    /// Always -1 in files.
    pub reserved_id: i32,
}

impl View for LAYR {
    type V = LayrView;

    open spec fn view(&self) -> LayrView {
        LayrView {
            layer_id: self.layer_id,
            layer_attributes: self.layer_attributes@,
            reserved_id: self.reserved_id,
        }
    }
}

/// The content of a layer chunk takes as many bytes as its size says.
pub proof fn lemma_layr_len(v: LayrView)
    ensures
        layr_payload(v).len() == layr_size(v),
        layr_size(v) >= 12,
        layr_bytes(v).len() == 12 + layr_size(v),
{
    lemma_dict_bytes_len(v.layer_attributes);
    let t0 = dict_bytes(v.layer_attributes) + i32_le(v.reserved_id);
    assert(t0.len() == dict_size(v.layer_attributes) + 4);
    assert(layr_payload(v).len() == 4 + t0.len());
    lemma_header_len(tag_layr(), layr_size(v) as u32, 0);
}

/// A layer chunk read back from its own wire form is the chunk, and the
/// cursor ends behind it.
pub proof fn lemma_layr_round_trip(buf: Seq<u8>, pos: int, v: LayrView)
    requires
        0 <= pos,
        pos + 12 + layr_size(v) <= buf.len(),
        pos + 12 + layr_size(v) <= i32::MAX,
        buf.subrange(pos, pos + 12 + layr_size(v)) == layr_bytes(v),
    ensures
        layr_at(buf, pos) == Ok::<(LayrView, int), DecodeError>((v, pos + 12 + layr_size(v))),
{
    lemma_layr_len(v);
    lemma_dict_bytes_len(v.layer_attributes);
    let a = dict_size(v.layer_attributes);
    lemma_split(buf, pos, chunk_header(tag_layr(), layr_size(v) as u32, 0), layr_payload(v));
    lemma_int_field(buf, pos + 12, v.layer_id, dict_bytes(v.layer_attributes) + i32_le(v.reserved_id));
    lemma_dict_field(buf, pos + 16, v.layer_attributes, i32_le(v.reserved_id));
    lemma_i32_round_trip(buf, pos + 16 + a, v.reserved_id);
}

impl LAYR {
    /// The attributes are well formed and the content fits a 32-bit size.
    pub open spec fn wf(&self) -> bool {
        &&& self.layer_attributes.wf()
        &&& layr_size(self@) <= i32::MAX
    }

    /// Reads the chunk whose header starts at the cursor and moves the
    /// cursor past the chunk. On failure the cursor stays where it was.
    pub fn read(input: &Vec<u8>, cursor: &mut i32) -> (r: Result<LAYR, DecodeError>)
        ensures
            match layr_at(input@, *old(cursor) as int) {
                Ok((v, next)) => {
                    &&& r matches Ok(x)
                    &&& x@ == v
                    &&& x.wf()
                    &&& *final(cursor) == next
                    &&& next == *old(cursor) + 12 + layr_size(v)
                },
                Err(e) => r == Err::<LAYR, DecodeError>(e) && *final(cursor) == *old(cursor),
            },
    {
        let mut pos: i32 = match skip_header(*cursor) {
            Ok(p) => p,
            Err(e) => { return Err(e); },
        };
        let layer_id = match take_i32(input, &mut pos) {
            Ok(v) => v,
            Err(e) => { return Err(e); },
        };
        proof {
            if dict_at(input@, pos as int) is Ok {
                lemma_dict_at_exact(input@, pos as int);
            }
        }
        let layer_attributes = match Dict::read(input, &mut pos) {
            Ok(v) => v,
            Err(e) => { return Err(e); },
        };
        let reserved_id = match take_i32(input, &mut pos) {
            Ok(v) => v,
            Err(e) => { return Err(e); },
        };
        *cursor = pos;
        Ok(LAYR { layer_id, layer_attributes, reserved_id })
    }

    /// Appends the chunk, header first, to `out`.
    pub fn write(&self, out: &mut Vec<u8>)
        requires
            self.wf(),
        ensures
            final(out)@ == old(out)@ + layr_bytes(self@),
    {
        proof {
            lemma_tags();
        }
        write_chunk("LAYR", self.get_size() as u32, 0, out);
        write_slice(out, &i32_to_array(self.layer_id));
        self.layer_attributes.write(out);
        write_slice(out, &i32_to_array(self.reserved_id));
        assert(out@ =~= old(out)@ + layr_bytes(self@));
    }

    /// The size of the chunk's content in bytes.
    pub fn get_size(&self) -> (n: i32)
        requires
            self.wf(),
        ensures
            n == layr_size(self@),
    {
        proof {
            lemma_pairs_size_nonneg(self.layer_attributes@);
        }
        8 + self.layer_attributes.get_size()
    }
}

/// A transform node chunk that was read lies inside the buffer, behind the
/// cursor, and takes twelve bytes more than the size of its content.
pub proof fn lemma_ntrn_at_exact(buf: Seq<u8>, pos: int)
    requires
        ntrn_at(buf, pos) is Ok,
    ensures
        ({
            let (v, next) = ntrn_at(buf, pos)->Ok_0;
            &&& next == pos + 12 + ntrn_size(v)
            &&& 0 <= pos + 12
            &&& next <= buf.len()
            &&& next <= i32::MAX
            &&& ntrn_size(v) >= 28
        }),
{
    let (node_id, p1) = int_at(buf, pos + 12)->Ok_0;
    lemma_dict_at_exact(buf, p1);
    let (a, p2) = dict_at(buf, p1)->Ok_0;
    lemma_dict_at_exact(buf, p2 + 16);
    lemma_pairs_size_nonneg(a);
    lemma_pairs_size_nonneg(dict_at(buf, p2 + 16)->Ok_0.0);
}

/// A group node chunk that was read lies inside the buffer, behind the
/// cursor, and takes twelve bytes more than the size of its content.
pub proof fn lemma_ngrp_at_exact(buf: Seq<u8>, pos: int)
    requires
        ngrp_at(buf, pos) is Ok,
    ensures
        ({
            let (v, next) = ngrp_at(buf, pos)->Ok_0;
            &&& next == pos + 12 + ngrp_size(v)
            &&& 0 <= pos + 12
            &&& next <= buf.len()
            &&& next <= i32::MAX
            &&& ngrp_size(v) >= 12
        }),
{
    let (node_id, p1) = int_at(buf, pos + 12)->Ok_0;
    lemma_dict_at_exact(buf, p1);
    lemma_pairs_size_nonneg(dict_at(buf, p1)->Ok_0.0);
}

/// A shape node chunk that was read lies inside the buffer, behind the
/// cursor, and takes twelve bytes more than the size of its content.
pub proof fn lemma_nshp_at_exact(buf: Seq<u8>, pos: int)
    requires
        nshp_at(buf, pos) is Ok,
    ensures
        ({
            let (v, next) = nshp_at(buf, pos)->Ok_0;
            &&& next == pos + 12 + nshp_size(v)
            &&& 0 <= pos + 12
            &&& next <= buf.len()
            &&& next <= i32::MAX
            &&& nshp_size(v) >= 20
        }),
{
    let (node_id, p1) = int_at(buf, pos + 12)->Ok_0;
    lemma_dict_at_exact(buf, p1);
    let (a, p2) = dict_at(buf, p1)->Ok_0;
    lemma_dict_at_exact(buf, p2 + 8);
    lemma_pairs_size_nonneg(a);
    lemma_pairs_size_nonneg(dict_at(buf, p2 + 8)->Ok_0.0);
}

} // verus!
