//! What is written reads back as what it was: the parts of the proof that a
//! saved scene file loads as the scene it was saved from.
use crate::color::Color;
use crate::convert::i32_le;
use crate::convert::lemma_i32_round_trip;
use crate::convert::lemma_u16_round_trip;
use crate::convert::readable;
use crate::convert::u16_at;
use crate::convert::u16_le;
use crate::convert::u32_le;
use crate::decimal::lemma_decimal_text;
use crate::decimal::lemma_triple_text;
use crate::error::DecodeError;
use crate::layer::layer_attributes;
use crate::layer::layer_chunk;
use crate::layer::layer_of;
use crate::layer::LayerView;
use crate::model::all_colored;
use crate::model::model_at;
use crate::model::model_bytes;
use crate::model::size_payload;
use crate::model::voxels_at;
use crate::model::voxels_bytes;
use crate::model::ModelView;
use crate::node::attrs_pairs;
use crate::node::bool_text;
use crate::node::frame_pairs;
use crate::node::key_hidden;
use crate::node::key_name;
use crate::node::key_rotation;
use crate::node::key_translation;
use crate::node::lemma_keys;
use crate::node::linked_all;
use crate::node::numbered_all;
use crate::node::subtree_bytes_all;
use crate::node::AttributesView;
use crate::node::NodeType;
use crate::node::NodeView;
use crate::node::Transform;
use crate::riff::chunk::chunk_header;
use crate::riff::chunk::lemma_tags;
use crate::riff::chunk::tag_at;
use crate::riff::chunk::tag_layr;
use crate::riff::chunk::tag_main;
use crate::riff::chunk::tag_rgba;
use crate::riff::chunk::tag_ngrp;
use crate::riff::chunk::tag_nshp;
use crate::riff::chunk::tag_ntrn;
use crate::riff::chunk::tag_size;
use crate::riff::chunk::tag_xyzi;
use crate::riff::dict::lookup;
use crate::riff::records::layr_bytes;
use crate::riff::records::layr_size;
use crate::riff::records::lemma_ngrp_round_trip;
use crate::riff::records::ngrp_at;
use crate::riff::records::nshp_at;
use crate::riff::records::ntrn_at;
use crate::riff::records::NgrpView;
use crate::riff::records::NshpView;
use crate::riff::records::NtrnView;
use crate::riff::span::is_span;
use crate::riff::span::lemma_span_chunk;
use crate::riff::span::lemma_span_join;
use crate::riff::span::occ_in;
use crate::riff::tree::root_at;
use crate::riff::records::lemma_nshp_round_trip;
use crate::riff::records::lemma_ntrn_round_trip;
use crate::riff::records::ngrp_payload;
use crate::riff::records::ngrp_size;
use crate::riff::records::nshp_payload;
use crate::riff::records::nshp_size;
use crate::riff::records::ntrn_payload;
use crate::riff::records::ntrn_size;
use crate::riff::tree::attributes_of;
use crate::riff::tree::children_at;
use crate::riff::tree::leaf;
use crate::riff::tree::lemma_children_at_unfold;
use crate::riff::tree::lemma_names;
use crate::riff::tree::name_ngrp;
use crate::riff::tree::name_nshp;
use crate::riff::tree::name_ntrn;
use crate::riff::tree::ngrp_node;
use crate::riff::tree::node_chunk_at;
use crate::riff::tree::nshp_node;
use crate::riff::tree::ntrn_node;
use crate::riff::tree::slot_at;
use crate::riff::tree::with_children;
use crate::riff::tree::flag_of;
use crate::riff::tree::hidden_of;
use crate::riff::tree::rotation_of;
use crate::riff::tree::translation_of;
use crate::seqs::lemma_inner;
use crate::seqs::lemma_split;
use crate::voxel::Voxel;
use crate::voxfile::read::colors_at;
use crate::voxfile::write::layers_bytes;
use crate::voxfile::write::layers_size;
use crate::voxfile::write::models_bytes;
use crate::voxfile::write::models_size;
use crate::voxfile::write::palette_bytes;
use vstd::prelude::*;
use vstd::utf8::encode_utf8;

verus! {

/// The bytes of the voxel at index `i` of a list of voxels.
pub proof fn lemma_voxels_bytes_at(s: Seq<Voxel>, i: int)
    requires
        0 <= i < s.len(),
    ensures
        voxels_bytes(s).len() == 4 * s.len(),
        voxels_bytes(s)[4 * i] == s[i].position.0,
        voxels_bytes(s)[4 * i + 1] == s[i].position.1,
        voxels_bytes(s)[4 * i + 2] == s[i].position.2,
        voxels_bytes(s)[4 * i + 3] == s[i].colorindex,
    decreases s.len(),
{
    crate::theorems::lemma_voxels_bytes_len(s);
    crate::theorems::lemma_voxels_bytes_len(s.drop_last());
    if i < s.len() - 1 {
        lemma_voxels_bytes_at(s.drop_last(), i);
        assert(s.drop_last()[i] == s[i]);
    }
}

/// Voxels read back from their own bytes are the voxels.
pub proof fn lemma_voxels_round_trip(buf: Seq<u8>, pos: int, s: Seq<Voxel>)
    requires
        0 <= pos,
        pos + 4 * s.len() <= buf.len(),
        buf.subrange(pos, pos + 4 * s.len()) == voxels_bytes(s),
    ensures
        voxels_at(buf, pos, s.len() as int) == s,
{
    let got = voxels_at(buf, pos, s.len() as int);
    let whole = buf.subrange(pos, pos + 4 * s.len());
    assert forall|i: int| 0 <= i < s.len() implies got[i] == s[i] by {
        lemma_voxels_bytes_at(s, i);
        assert(buf[pos + 4 * i] == whole[4 * i]);
        assert(buf[pos + 4 * i + 1] == whole[4 * i + 1]);
        assert(buf[pos + 4 * i + 2] == whole[4 * i + 2]);
        assert(buf[pos + 4 * i + 3] == whole[4 * i + 3]);
    }
    assert(got =~= s);
}

/// The dimensions read back from their own bytes are the dimensions.
pub proof fn lemma_size_round_trip(buf: Seq<u8>, pos: int, size: (u16, u16, u16))
    requires
        0 <= pos,
        pos + 12 <= buf.len(),
        buf.subrange(pos, pos + 12) == size_payload(size),
    ensures
        u16_at(buf, pos) == size.0,
        u16_at(buf, pos + 4) == size.1,
        u16_at(buf, pos + 8) == size.2,
{
    let whole = buf.subrange(pos, pos + 12);
    assert(buf.subrange(pos, pos + 2) =~= whole.subrange(0, 2));
    assert(whole.subrange(0, 2) =~= u16_le(size.0));
    lemma_u16_round_trip(buf, pos, size.0);
    assert(buf.subrange(pos + 4, pos + 6) =~= whole.subrange(4, 6));
    assert(whole.subrange(4, 6) =~= u16_le(size.1));
    lemma_u16_round_trip(buf, pos + 4, size.1);
    assert(buf.subrange(pos + 8, pos + 10) =~= whole.subrange(8, 10));
    assert(whole.subrange(8, 10) =~= u16_le(size.2));
    lemma_u16_round_trip(buf, pos + 8, size.2);
}

/// The model as it reads back: without placement, and with the id that the
/// reader hands out.
pub open spec fn bare_model(m: ModelView, id: i32) -> ModelView {
    ModelView {
        size: m.size,
        voxels: m.voxels,
        position: None,
        rotation: None,
        layer: None,
        name: None,
        id,
    }
}

/// A model read back from its own two chunks has the size and the voxels
/// that it had.
pub proof fn lemma_model_round_trip(buf: Seq<u8>, pos: int, m: ModelView, id: i32)
    requires
        0 <= pos,
        pos + 40 + 4 * m.voxels.len() <= buf.len(),
        pos + 40 + 4 * m.voxels.len() <= i32::MAX,
        buf.subrange(pos, pos + 40 + 4 * m.voxels.len()) == model_bytes(m),
        all_colored(m.voxels),
    ensures
        model_at(buf, pos, id) == Ok::<(ModelView, int), DecodeError>(
            (bare_model(m, id), pos + 40),
        ),
{
    let n = m.voxels.len() as int;
    crate::theorems::lemma_voxels_bytes_len(m.voxels);
    let a = chunk_header(tag_size(), 12, 0);
    let b = size_payload(m.size);
    let c = chunk_header(tag_xyzi(), (4 * n + 4) as u32, 0);
    let d = u32_le(n as u32);
    let e = voxels_bytes(m.voxels);
    assert(model_bytes(m) =~= a + (b + (c + (d + e))));
    lemma_split(buf, pos, a, b + (c + (d + e)));
    lemma_split(buf, pos + 12, b, c + (d + e));
    lemma_split(buf, pos + 24, c, d + e);
    lemma_split(buf, pos + 36, d, e);
    lemma_size_round_trip(buf, pos + 12, m.size);
    assert(d == i32_le(n as i32));
    lemma_i32_round_trip(buf, pos + 36, n as i32);
    lemma_voxels_round_trip(buf, pos + 40, m.voxels);
}

/// The colours of the palette read back from their own bytes are the
/// colours.
pub proof fn lemma_colors_round_trip(buf: Seq<u8>, pos: int, p: Seq<Color>)
    requires
        0 <= pos,
        p.len() == 256,
        pos + 1024 <= buf.len(),
        buf.subrange(pos, pos + 1024) == palette_bytes(p),
    ensures
        colors_at(buf, pos) == p,
{
    let got = colors_at(buf, pos);
    let whole = buf.subrange(pos, pos + 1024);
    assert forall|i: int| 0 <= i < 256 implies got[i] == p[i] by {
        lemma_palette_bytes_at(p, i);
        assert(buf[pos + 4 * i] == whole[4 * i]);
        assert(buf[pos + 4 * i + 1] == whole[4 * i + 1]);
        assert(buf[pos + 4 * i + 2] == whole[4 * i + 2]);
        assert(buf[pos + 4 * i + 3] == whole[4 * i + 3]);
    }
    assert(got =~= p);
}

/// The bytes of the colour at index `i` of a list of colours.
pub proof fn lemma_palette_bytes_at(p: Seq<Color>, i: int)
    requires
        0 <= i < p.len(),
    ensures
        palette_bytes(p).len() == 4 * p.len(),
        palette_bytes(p)[4 * i] == p[i].r,
        palette_bytes(p)[4 * i + 1] == p[i].g,
        palette_bytes(p)[4 * i + 2] == p[i].b,
        palette_bytes(p)[4 * i + 3] == p[i].a,
    decreases p.len(),
{
    crate::theorems::lemma_palette_bytes_len(p);
    crate::theorems::lemma_palette_bytes_len(p.drop_last());
    if i < p.len() - 1 {
        lemma_palette_bytes_at(p.drop_last(), i);
        assert(p.drop_last()[i] == p[i]);
    }
}

/// The text of a boolean spells the boolean.
pub proof fn lemma_flag_round_trip(value: bool)
    ensures
        flag_of(bool_text(value)) == Ok::<bool, DecodeError>(value),
{
    lemma_keys();
    let bytes = encode_utf8(bool_text(value));
    assert(bytes.drop_last() =~= Seq::<u8>::empty());
    reveal_with_fuel(crate::decimal::digits_value, 3);
    assert(crate::decimal::unsigned_part(bytes) == bytes);
    assert(crate::decimal::all_digits(bytes));
    assert(crate::decimal::digits_value(bytes) == (if value {
        1nat
    } else {
        0nat
    }));
}

/// The attributes that the dictionary of some attributes carries are those
/// attributes.
pub proof fn lemma_attributes_round_trip(a: AttributesView)
    ensures
        attributes_of(attrs_pairs(a)) == Ok::<AttributesView, DecodeError>(a),
        lookup(attrs_pairs(a), key_name()) == a.name,
        hidden_of(attrs_pairs(a)) == Ok::<Option<bool>, DecodeError>(a.hidden),
{
    let d = attrs_pairs(a);
    reveal_with_fuel(lookup, 3);
    assert(key_name() != key_hidden()) by {
        assert(key_name().len() != key_hidden().len());
    }
    match a.hidden {
        Some(h) => {
            lemma_flag_round_trip(h);
        },
        None => {},
    }
    match a.name {
        Some(n) => {
            assert(d[0] == (key_name(), n));
            match a.hidden {
                Some(h) => {
                    assert(d.drop_first()[0] == (key_hidden(), bool_text(h)));
                    assert(d.drop_first().drop_first().len() == 0);
                },
                None => {
                    assert(d.drop_first().len() == 0);
                },
            }
        },
        None => {
            match a.hidden {
                Some(h) => {
                    assert(d[0] == (key_hidden(), bool_text(h)));
                    assert(d.drop_first().len() == 0);
                },
                None => {
                    assert(d.len() == 0);
                },
            }
        },
    }
}

/// The rotation and the translation that the frame dictionary of a
/// transform carries are those of the transform.
pub proof fn lemma_frame_round_trip(t: Transform)
    ensures
        rotation_of(frame_pairs(t)) == Ok::<Option<i32>, DecodeError>(t.rotation),
        translation_of(frame_pairs(t)) == Ok::<Option<(i32, i32, i32)>, DecodeError>(
            t.translation,
        ),
{
    let d = frame_pairs(t);
    reveal_with_fuel(lookup, 3);
    assert(key_rotation() != key_translation()) by {
        assert(key_rotation()[1] != key_translation()[1]);
    }
    match t.rotation {
        Some(r) => {
            lemma_decimal_text(r);
        },
        None => {},
    }
    match t.translation {
        Some((x, y, z)) => {
            lemma_triple_text(x, y, z);
        },
        None => {},
    }
    match t.rotation {
        Some(r) => {
            assert(d[0] == (key_rotation(), crate::decimal::decimal_text(r as int)));
            match t.translation {
                Some((x, y, z)) => {
                    assert(d.drop_first()[0] == (
                        key_translation(),
                        crate::decimal::triple_text(x as int, y as int, z as int),
                    ));
                    assert(d.drop_first().drop_first().len() == 0);
                },
                None => {
                    assert(d.drop_first().len() == 0);
                },
            }
        },
        None => {
            match t.translation {
                Some((x, y, z)) => {
                    assert(d[0] == (
                        key_translation(),
                        crate::decimal::triple_text(x as int, y as int, z as int),
                    ));
                    assert(d.drop_first().len() == 0);
                },
                None => {
                    assert(d.len() == 0);
                },
            }
        },
    }
}

/// The layer that the chunk of a layer describes is the layer.
pub proof fn lemma_layer_round_trip(l: LayerView)
    ensures
        layer_of(layer_chunk(l)) == Ok::<LayerView, DecodeError>(l),
{
    lemma_attributes_round_trip(layer_attributes(l));
}

/// Whether no node of the tree carries a number or a list of child ids.
pub open spec fn bare(n: NodeView) -> bool
    decreases n,
{
    &&& n.id == 0
    &&& n.children_ids.len() == 0
    &&& forall|i: int| 0 <= i < n.children.len() ==> bare(#[trigger] n.children[i])
}

/// Whether every transform node of the tree has one child and every shape
/// node none.
pub open spec fn strict(n: NodeView) -> bool
    decreases n,
{
    &&& n.node_type is Transform ==> n.children.len() == 1
    &&& n.node_type is Shape ==> n.children.len() == 0
    &&& forall|i: int| 0 <= i < n.children.len() ==> strict(#[trigger] n.children[i])
}

/// The number of child slots that the chunk of a node opens.
pub open spec fn slots_of(w: NodeView) -> int {
    match w.node_type {
        NodeType::Transform(_) => 1,
        NodeType::Group => w.children_ids.len() as int,
        NodeType::Shape(_) => 0,
    }
}

/// The tag at `pos` reads as the text whose bytes stand there.
pub proof fn lemma_tag_at(buf: Seq<u8>, pos: int, name: Seq<char>)
    requires
        readable(buf, pos, 4),
        buf.subrange(pos, pos + 4) == encode_utf8(name),
    ensures
        tag_at(buf, pos) == Ok::<Seq<char>, DecodeError>(name),
{
    vstd::utf8::encode_utf8_valid_utf8(name);
    vstd::utf8::encode_utf8_decode_utf8(name);
}

/// The texts of the node tags encode to the node tags, and differ from each
/// other.
pub proof fn lemma_node_tags()
    ensures
        encode_utf8(name_ntrn()) == tag_ntrn(),
        encode_utf8(name_ngrp()) == tag_ngrp(),
        encode_utf8(name_nshp()) == tag_nshp(),
        name_ntrn() != name_ngrp(),
        name_ntrn() != name_nshp(),
        name_ngrp() != name_nshp(),
{
    lemma_tags();
    lemma_names();
    assert(name_ntrn()[1] != name_ngrp()[1]);
    assert(name_ntrn()[1] != name_nshp()[1]);
    assert(name_ngrp()[1] != name_nshp()[1]);
}

/// The tag of a chunk reads as the text whose bytes it holds.
pub proof fn lemma_chunk_tag(
    buf: Seq<u8>,
    pos: int,
    name: Seq<char>,
    size: u32,
    payload: Seq<u8>,
)
    requires
        0 <= pos,
        encode_utf8(name).len() == 4,
        pos + 12 + payload.len() <= buf.len(),
        pos + 12 + payload.len() <= i32::MAX,
        buf.subrange(pos, pos + 12 + payload.len()) == chunk_header(encode_utf8(name), size, 0)
            + payload,
    ensures
        tag_at(buf, pos) == Ok::<Seq<char>, DecodeError>(name),
{
    let head = chunk_header(encode_utf8(name), size, 0);
    lemma_split(buf, pos, head, payload);
    assert(head =~= encode_utf8(name) + (u32_le(size) + u32_le(0)));
    lemma_split(buf, pos, encode_utf8(name), u32_le(size) + u32_le(0));
    lemma_tag_at(buf, pos, name);
}

/// The chunk of a transform node reads back as the chunk, and describes
/// the node without child, number and child ids.
pub proof fn lemma_transform_record(buf: Seq<u8>, pos: int, w: NodeView, t: Transform)
    requires
        w.node_type == NodeType::Transform(t),
        w.writable(),
        0 <= pos,
        pos + 12 + w.size() <= buf.len(),
        pos + 12 + w.size() <= i32::MAX,
        buf.subrange(pos, pos + 12 + w.size()) == w.bytes(),
    ensures
        tag_at(buf, pos) == Ok::<Seq<char>, DecodeError>(name_ntrn()),
        ntrn_at(buf, pos) == Ok::<(NtrnView, int), DecodeError>(
            (w.as_ntrn(t), pos + 12 + w.size()),
        ),
        ntrn_node(w.as_ntrn(t)) == Ok::<NodeView, DecodeError>(leaf(w.node_type, w.attributes)),
{
    lemma_node_tags();
    let v = w.as_ntrn(t);
    crate::riff::records::lemma_ntrn_len(v);
    lemma_chunk_tag(buf, pos, name_ntrn(), ntrn_size(v) as u32, ntrn_payload(v));
    lemma_ntrn_round_trip(buf, pos, v);
    lemma_attributes_round_trip(w.attributes);
    lemma_frame_round_trip(t);
}

/// The chunk of a transform node reads back as the node, without child,
/// number and child ids, with one child slot.
proof fn lemma_transform_chunk(buf: Seq<u8>, pos: int, w: NodeView, t: Transform)
    requires
        w.node_type == NodeType::Transform(t),
        w.writable(),
        0 <= pos,
        pos + 12 + w.size() <= buf.len(),
        pos + 12 + w.size() <= i32::MAX,
        buf.subrange(pos, pos + 12 + w.size()) == w.bytes(),
    ensures
        node_chunk_at(buf, pos) == Ok::<Option<(NodeView, int, int)>, DecodeError>(
            Some((leaf(w.node_type, w.attributes), 1, pos + 12 + w.size())),
        ),
{
    lemma_transform_record(buf, pos, w, t);
    lemma_node_tags();
    reveal(node_chunk_at);
}

/// The chunk of a group node reads back as the chunk, and describes the
/// node without children, number and child ids.
pub proof fn lemma_group_record(buf: Seq<u8>, pos: int, w: NodeView)
    requires
        w.node_type == NodeType::Group,
        w.writable(),
        0 <= pos,
        pos + 12 + w.size() <= buf.len(),
        pos + 12 + w.size() <= i32::MAX,
        buf.subrange(pos, pos + 12 + w.size()) == w.bytes(),
    ensures
        tag_at(buf, pos) == Ok::<Seq<char>, DecodeError>(name_ngrp()),
        ngrp_at(buf, pos) == Ok::<(NgrpView, int), DecodeError>((w.as_ngrp(), pos + 12 + w.size())),
        ngrp_node(w.as_ngrp()) == Ok::<NodeView, DecodeError>(leaf(w.node_type, w.attributes)),
{
    lemma_node_tags();
    let v = w.as_ngrp();
    crate::riff::records::lemma_ngrp_len(v);
    lemma_chunk_tag(buf, pos, name_ngrp(), ngrp_size(v) as u32, ngrp_payload(v));
    lemma_ngrp_round_trip(buf, pos, v);
    lemma_attributes_round_trip(w.attributes);
}

/// The chunk of a group node reads back as the node, without children,
/// number and child ids, with as many child slots as it lists child ids.
proof fn lemma_group_chunk(buf: Seq<u8>, pos: int, w: NodeView)
    requires
        w.node_type == NodeType::Group,
        w.writable(),
        0 <= pos,
        pos + 12 + w.size() <= buf.len(),
        pos + 12 + w.size() <= i32::MAX,
        buf.subrange(pos, pos + 12 + w.size()) == w.bytes(),
    ensures
        node_chunk_at(buf, pos) == Ok::<Option<(NodeView, int, int)>, DecodeError>(
            Some((leaf(w.node_type, w.attributes), w.children_ids.len() as int, pos + 12 + w.size())),
        ),
{
    lemma_group_record(buf, pos, w);
    lemma_node_tags();
    reveal(node_chunk_at);
}

/// The chunk of a shape node reads back as the chunk, and describes the
/// node without number and child ids.
pub proof fn lemma_shape_record(buf: Seq<u8>, pos: int, w: NodeView, m: i32)
    requires
        w.node_type == NodeType::Shape(m),
        w.writable(),
        0 <= pos,
        pos + 12 + w.size() <= buf.len(),
        pos + 12 + w.size() <= i32::MAX,
        buf.subrange(pos, pos + 12 + w.size()) == w.bytes(),
    ensures
        tag_at(buf, pos) == Ok::<Seq<char>, DecodeError>(name_nshp()),
        nshp_at(buf, pos) == Ok::<(NshpView, int), DecodeError>(
            (w.as_nshp(m), pos + 12 + w.size()),
        ),
        nshp_node(w.as_nshp(m)) == Ok::<NodeView, DecodeError>(leaf(w.node_type, w.attributes)),
{
    lemma_node_tags();
    let v = w.as_nshp(m);
    assert(crate::riff::dict::pairs_size(Seq::<(Seq<char>, Seq<char>)>::empty()) == 0);
    crate::riff::records::lemma_nshp_len(v);
    lemma_chunk_tag(buf, pos, name_nshp(), nshp_size(v) as u32, nshp_payload(v));
    lemma_nshp_round_trip(buf, pos, v);
    lemma_attributes_round_trip(w.attributes);
}

/// The chunk of a shape node reads back as the node, without number and
/// child ids, with no child slot.
proof fn lemma_shape_chunk(buf: Seq<u8>, pos: int, w: NodeView, m: i32)
    requires
        w.node_type == NodeType::Shape(m),
        w.writable(),
        0 <= pos,
        pos + 12 + w.size() <= buf.len(),
        pos + 12 + w.size() <= i32::MAX,
        buf.subrange(pos, pos + 12 + w.size()) == w.bytes(),
    ensures
        node_chunk_at(buf, pos) == Ok::<Option<(NodeView, int, int)>, DecodeError>(
            Some((leaf(w.node_type, w.attributes), 0, pos + 12 + w.size())),
        ),
{
    lemma_shape_record(buf, pos, w, m);
    lemma_node_tags();
    reveal(node_chunk_at);
}

/// The chunk of a node reads back as the node it was written for, without
/// children, number and child ids, with the child slots it opens.
pub proof fn lemma_node_chunk(buf: Seq<u8>, pos: int, w: NodeView)
    requires
        w.writable(),
        0 <= pos,
        pos + 12 + w.size() <= buf.len(),
        pos + 12 + w.size() <= i32::MAX,
        buf.subrange(pos, pos + 12 + w.size()) == w.bytes(),
    ensures
        node_chunk_at(buf, pos) == Ok::<Option<(NodeView, int, int)>, DecodeError>(
            Some((leaf(w.node_type, w.attributes), slots_of(w), pos + 12 + w.size())),
        ),
{
    match w.node_type {
        NodeType::Transform(t) => {
            lemma_transform_chunk(buf, pos, w, t);
        },
        NodeType::Group => {
            lemma_group_chunk(buf, pos, w);
        },
        NodeType::Shape(m) => {
            lemma_shape_chunk(buf, pos, w, m);
        },
    }
}

/// Where the chunks of the tree at index `i` of a sequence of trees stand
/// among the chunks of the sequence.
pub proof fn lemma_subtree_slice(all: Seq<NodeView>, i: int)
    requires
        0 <= i < all.len(),
    ensures
        ({
            let a = subtree_bytes_all(all.take(i)).len() as int;
            let b = subtree_bytes_all(all.take(i + 1)).len() as int;
            &&& b == a + all[i].subtree_bytes().len()
            &&& b <= subtree_bytes_all(all).len()
            &&& subtree_bytes_all(all).subrange(a, b) == all[i].subtree_bytes()
        }),
    decreases all.len(),
{
    let front = all.drop_last();
    crate::node::lemma_count_all_take(all, i);
    if i == all.len() - 1 {
        assert(all.take(i) =~= front);
        assert(all.take(i + 1) =~= all);
        assert(subtree_bytes_all(all).subrange(
            subtree_bytes_all(front).len() as int,
            subtree_bytes_all(all).len() as int,
        ) =~= all[i].subtree_bytes());
    } else {
        lemma_subtree_slice(front, i);
        assert(front.take(i) =~= all.take(i));
        assert(front.take(i + 1) =~= all.take(i + 1));
        assert(front[i] == all[i]);
        let a = subtree_bytes_all(all.take(i)).len() as int;
        let b = subtree_bytes_all(all.take(i + 1)).len() as int;
        assert(subtree_bytes_all(all).subrange(a, b) =~= subtree_bytes_all(front).subrange(a, b));
    }
}

/// A bare tree read back from the chunks that were written for it, after
/// numbering and linking, is the tree.
pub proof fn lemma_slot(buf: Seq<u8>, pos: int, t: NodeView, start: int)
    requires
        bare(t),
        strict(t),
        t.encodable(),
        0 <= pos,
        pos + t.numbered(start).linked().subtree_bytes().len() <= buf.len(),
        pos + t.numbered(start).linked().subtree_bytes().len() <= i32::MAX,
        buf.subrange(pos, pos + t.numbered(start).linked().subtree_bytes().len())
            == t.numbered(start).linked().subtree_bytes(),
    ensures
        slot_at(buf, pos) == Ok::<(Option<NodeView>, nat), DecodeError>(
            (Some(t), t.numbered(start).linked().subtree_bytes().len()),
        ),
    decreases t, 0int,
{
    let m = t.numbered(start);
    let w = m.linked();
    crate::node::lemma_write_ready(t, start);
    crate::node::lemma_numbered(t, start);
    crate::node::lemma_linked(m);
    crate::node::lemma_numbered_all(t.children, start + 1);
    crate::node::lemma_linked_all(m.children);
    crate::node::lemma_node_bytes_len(w);
    crate::node::lemma_size_nonneg(w);
    let own = w.bytes();
    let below = subtree_bytes_all(w.children);
    lemma_split(buf, pos, own, below);
    lemma_node_chunk(buf, pos, w);
    let p1 = pos + 12 + w.size();
    assert(slots_of(w) == t.children.len());
    assert(w.children == linked_all(numbered_all(t.children, start + 1)));
    assert(below.subrange(0, below.len() as int) =~= below);
    lemma_children(buf, p1, t.children, start + 1, 0);
    assert(w.children.take(0) =~= Seq::<NodeView>::empty());
    assert(t.children.skip(0) =~= t.children);
    assert(with_children(leaf(w.node_type, w.attributes), t.children) == t) by {
        assert(t.children_ids =~= Seq::<i32>::empty());
    }
}

/// Bare trees read back from the chunks that were written for them, after
/// numbering and linking, are the trees; here from the tree at index `i`
/// on.
pub proof fn lemma_children(buf: Seq<u8>, base: int, s: Seq<NodeView>, start: int, i: int)
    requires
        0 <= i <= s.len(),
        forall|k: int| 0 <= k < s.len() ==> bare(#[trigger] s[k]) && strict(s[k]) && s[k].encodable(),
        0 <= base,
        base + subtree_bytes_all(linked_all(numbered_all(s, start))).len() <= buf.len(),
        base + subtree_bytes_all(linked_all(numbered_all(s, start))).len() <= i32::MAX,
        buf.subrange(base, base + subtree_bytes_all(linked_all(numbered_all(s, start))).len())
            == subtree_bytes_all(linked_all(numbered_all(s, start))),
    ensures
        ({
            let ws = linked_all(numbered_all(s, start));
            let done = subtree_bytes_all(ws.take(i)).len();
            &&& done <= subtree_bytes_all(ws).len()
            &&& children_at(buf, base + done, s.len() - i) == Ok::<
                (Seq<NodeView>, nat),
                DecodeError,
            >((s.skip(i), (subtree_bytes_all(ws).len() - done) as nat))
        }),
    decreases s, s.len() - i,
{
    let ms = numbered_all(s, start);
    let ws = linked_all(ms);
    crate::node::lemma_numbered_all(s, start);
    crate::node::lemma_linked_all(ms);
    let whole = subtree_bytes_all(ws);
    let done = subtree_bytes_all(ws.take(i)).len() as int;
    if i == s.len() {
        assert(ws.take(i) =~= ws);
        assert(s.skip(i) =~= Seq::<NodeView>::empty());
    } else {
        lemma_subtree_slice(ws, i);
        let next = subtree_bytes_all(ws.take(i + 1)).len() as int;
        let start_i = start + crate::node::count_all(s.take(i));
        assert(ws[i] == s[i].numbered(start_i).linked());
        lemma_inner(buf, base, whole, done, next);
        lemma_slot(buf, base + done, s[i], start_i);
        lemma_children(buf, base, s, start, i + 1);
        lemma_children_at_unfold(buf, base + done, s.len() - i);
        assert(seq![s[i]] + s.skip(i + 1) =~= s.skip(i));
    }
}

/// A bare tree under a transform node, read back as the scene tree from the
/// chunks that were written for it, is the tree.
pub proof fn lemma_root(buf: Seq<u8>, pos: int, t: NodeView, start: int)
    requires
        t.node_type is Transform,
        bare(t),
        strict(t),
        t.encodable(),
        0 <= pos,
        pos + t.numbered(start).linked().subtree_bytes().len() <= buf.len(),
        pos + t.numbered(start).linked().subtree_bytes().len() <= i32::MAX,
        buf.subrange(pos, pos + t.numbered(start).linked().subtree_bytes().len())
            == t.numbered(start).linked().subtree_bytes(),
    ensures
        root_at(buf, pos) == Ok::<NodeView, DecodeError>(t),
{
    let m = t.numbered(start);
    let w = m.linked();
    crate::node::lemma_write_ready(t, start);
    crate::node::lemma_numbered(t, start);
    crate::node::lemma_linked(m);
    crate::node::lemma_node_bytes_len(w);
    crate::node::lemma_size_nonneg(w);
    let own = w.bytes();
    let below = subtree_bytes_all(w.children);
    lemma_split(buf, pos, own, below);
    let tr = w.node_type->Transform_0;
    lemma_transform_record(buf, pos, w, tr);
    let p1 = pos + 12 + w.size();
    assert(w.children == linked_all(numbered_all(t.children, start + 1)));
    lemma_children(buf, p1, t.children, start + 1, 0);
    assert(w.children.take(0) =~= Seq::<NodeView>::empty());
    assert(t.children.skip(0) =~= t.children);
    assert(with_children(leaf(w.node_type, w.attributes), t.children) == t) by {
        assert(t.children_ids =~= Seq::<i32>::empty());
    }
}

/// The positions at which the chunks of the models `ms` start, where the
/// first starts at `p`.
pub open spec fn model_starts(ms: Seq<ModelView>, p: int) -> Seq<int> {
    Seq::new(ms.len(), |i: int| p + models_size(ms.take(i)))
}

/// The positions at which the chunks of the layers `ls` start, where the
/// first starts at `p`.
pub open spec fn layer_starts(ls: Seq<LayerView>, p: int) -> Seq<int> {
    Seq::new(ls.len(), |i: int| p + layers_size(ls.take(i)))
}

/// The tags that matter to the reader differ from each other.
pub proof fn lemma_tags_differ()
    ensures
        tag_size() != tag_xyzi(),
        tag_size() != tag_layr(),
        tag_size() != tag_rgba(),
        tag_size() != tag_main(),
        tag_size() != tag_ntrn(),
        tag_size() != tag_ngrp(),
        tag_size() != tag_nshp(),
        tag_layr() != tag_xyzi(),
        tag_layr() != tag_rgba(),
        tag_layr() != tag_main(),
        tag_layr() != tag_ntrn(),
        tag_layr() != tag_ngrp(),
        tag_layr() != tag_nshp(),
        tag_rgba() != tag_xyzi(),
        tag_rgba() != tag_main(),
        tag_rgba() != tag_ntrn(),
        tag_rgba() != tag_ngrp(),
        tag_rgba() != tag_nshp(),
        tag_ntrn() != tag_xyzi(),
        tag_ntrn() != tag_main(),
        tag_ntrn() != tag_ngrp(),
        tag_ntrn() != tag_nshp(),
{
    assert(tag_size()[0] == 83 && tag_size()[1] == 73);
    assert(tag_xyzi()[0] == 88);
    assert(tag_layr()[0] == 76);
    assert(tag_rgba()[0] == 82);
    assert(tag_main()[0] == 77);
    assert(tag_ntrn()[0] == 110 && tag_ntrn()[1] == 84);
    assert(tag_ngrp()[0] == 110 && tag_ngrp()[1] == 71);
    assert(tag_nshp()[0] == 110 && tag_nshp()[1] == 83);
}

/// Where the chunks of the model at index `i` stand among the chunks of the
/// models.
pub proof fn lemma_models_slice(ms: Seq<ModelView>, i: int)
    requires
        0 <= i < ms.len(),
    ensures
        ({
            let a = models_size(ms.take(i));
            let b = a + 40 + 4 * ms[i].voxels.len();
            &&& 0 <= a
            &&& b <= models_size(ms)
            &&& models_bytes(ms).len() == models_size(ms)
            &&& models_bytes(ms).subrange(a, b) == model_bytes(ms[i])
        }),
    decreases ms.len(),
{
    let front = ms.drop_last();
    crate::theorems::lemma_models_bytes_len(ms);
    crate::theorems::lemma_models_bytes_len(front);
    crate::theorems::lemma_model_bytes_len(ms.last());
    crate::voxfile::write::lemma_models_size(ms, i);
    crate::voxfile::write::lemma_models_size(ms, i + 1);
    if i == ms.len() - 1 {
        assert(ms.take(i) =~= front);
        assert(models_bytes(ms).subrange(models_size(front), models_size(ms)) =~= model_bytes(
            ms[i],
        ));
    } else {
        lemma_models_slice(front, i);
        assert(front.take(i) =~= ms.take(i));
        assert(front[i] == ms[i]);
        let a = models_size(ms.take(i));
        let b = a + 40 + 4 * ms[i].voxels.len();
        assert(models_bytes(ms).subrange(a, b) =~= models_bytes(front).subrange(a, b));
    }
}

/// Where the chunk of the layer at index `i` stands among the chunks of the
/// layers.
pub proof fn lemma_layers_slice(ls: Seq<LayerView>, i: int)
    requires
        0 <= i < ls.len(),
    ensures
        ({
            let a = layers_size(ls.take(i));
            let b = a + 12 + layr_size(layer_chunk(ls[i]));
            &&& 0 <= a
            &&& b <= layers_size(ls)
            &&& layers_bytes(ls).len() == layers_size(ls)
            &&& layers_bytes(ls).subrange(a, b) == layr_bytes(layer_chunk(ls[i]))
        }),
    decreases ls.len(),
{
    let front = ls.drop_last();
    crate::theorems::lemma_layers_bytes_len(ls);
    crate::theorems::lemma_layers_bytes_len(front);
    crate::riff::records::lemma_layr_len(layer_chunk(ls.last()));
    crate::voxfile::write::lemma_layers_size(ls, i);
    crate::voxfile::write::lemma_layers_size(ls, i + 1);
    if i == ls.len() - 1 {
        assert(ls.take(i) =~= front);
        assert(layers_bytes(ls).subrange(layers_size(front), layers_size(ls)) =~= layr_bytes(
            layer_chunk(ls[i]),
        ));
    } else {
        lemma_layers_slice(front, i);
        assert(front.take(i) =~= ls.take(i));
        assert(front[i] == ls[i]);
        let a = layers_size(ls.take(i));
        let b = a + 12 + layr_size(layer_chunk(ls[i]));
        assert(layers_bytes(ls).subrange(a, b) =~= layers_bytes(front).subrange(a, b));
    }
}

/// The chunks of models are whole chunks, and the search finds among them
/// the first chunk of each model under its tag, and nothing under the tags
/// of other kinds of chunks.
pub proof fn lemma_models_region(buf: Seq<u8>, p: int, ms: Seq<ModelView>, tag: Seq<u8>)
    requires
        0 <= p,
        tag.len() == 4,
        p + models_size(ms) <= buf.len(),
        p + models_size(ms) <= i32::MAX,
        buf.subrange(p, p + models_size(ms)) == models_bytes(ms),
    ensures
        is_span(buf, p, p + models_size(ms)),
        tag == tag_size() ==> occ_in(buf, p, p + models_size(ms), tag) == model_starts(ms, p),
        tag != tag_size() && tag != tag_xyzi() ==> occ_in(buf, p, p + models_size(ms), tag)
            == Seq::<int>::empty(),
    decreases ms.len(),
{
    if ms.len() == 0 {
        assert(model_starts(ms, p) =~= Seq::<int>::empty());
    } else {
        let front = ms.drop_last();
        let i = ms.len() - 1;
        let m = ms.last();
        let n = m.voxels.len() as int;
        lemma_models_slice(ms, i);
        assert(ms.take(i) =~= front);
        crate::theorems::lemma_models_bytes_len(front);
        crate::theorems::lemma_model_bytes_len(m);
        crate::theorems::lemma_voxels_bytes_len(m.voxels);
        let q = p + models_size(front);
        lemma_split(buf, p, models_bytes(front), model_bytes(m));
        lemma_models_region(buf, p, front, tag);
        let a = chunk_header(tag_size(), 12, 0);
        let b = size_payload(m.size);
        let c = chunk_header(tag_xyzi(), (4 * n + 4) as u32, 0);
        let rest = u32_le(n as u32) + voxels_bytes(m.voxels);
        assert(model_bytes(m) =~= a + (b + (c + rest)));
        lemma_split(buf, q, a, b + (c + rest));
        lemma_split(buf, q + 12, b, c + rest);
        lemma_split(buf, q + 24, c, rest);
        lemma_span_chunk(buf, q, tag_size(), 12, 0, tag);
        lemma_span_chunk(buf, q + 24, tag_xyzi(), (4 * n + 4) as u32, 0, tag);
        lemma_span_join(buf, q, q + 24, q + 40 + 4 * n, tag);
        lemma_span_join(buf, p, q, q + 40 + 4 * n, tag);
        lemma_tags_differ();
        if tag == tag_size() {
            assert(model_starts(front, p) + seq![q] =~= model_starts(ms, p)) by {
                assert forall|k: int| 0 <= k < front.len() implies front.take(k) == ms.take(k) by {
                    assert(front.take(k) =~= ms.take(k));
                }
            }
            assert(seq![q] + Seq::<int>::empty() =~= seq![q]);
        }
    }
}

/// The chunks of layers are whole chunks, and the search finds each of them
/// under their tag, and nothing under other tags.
pub proof fn lemma_layers_region(buf: Seq<u8>, p: int, ls: Seq<LayerView>, tag: Seq<u8>)
    requires
        0 <= p,
        tag.len() == 4,
        p + layers_size(ls) <= buf.len(),
        p + layers_size(ls) <= i32::MAX,
        buf.subrange(p, p + layers_size(ls)) == layers_bytes(ls),
    ensures
        is_span(buf, p, p + layers_size(ls)),
        tag == tag_layr() ==> occ_in(buf, p, p + layers_size(ls), tag) == layer_starts(ls, p),
        tag != tag_layr() ==> occ_in(buf, p, p + layers_size(ls), tag) == Seq::<int>::empty(),
    decreases ls.len(),
{
    if ls.len() == 0 {
        assert(layer_starts(ls, p) =~= Seq::<int>::empty());
    } else {
        let front = ls.drop_last();
        let i = ls.len() - 1;
        let c = layer_chunk(ls.last());
        lemma_layers_slice(ls, i);
        assert(ls.take(i) =~= front);
        crate::theorems::lemma_layers_bytes_len(front);
        crate::riff::records::lemma_layr_len(c);
        let q = p + layers_size(front);
        lemma_split(buf, p, layers_bytes(front), layr_bytes(c));
        lemma_layers_region(buf, p, front, tag);
        lemma_split(
            buf,
            q,
            chunk_header(tag_layr(), layr_size(c) as u32, 0),
            crate::riff::records::layr_payload(c),
        );
        lemma_span_chunk(buf, q, tag_layr(), layr_size(c) as u32, 0, tag);
        lemma_span_join(buf, p, q, q + 12 + layr_size(c), tag);
        if tag == tag_layr() {
            assert(layer_starts(front, p) + seq![q] =~= layer_starts(ls, p)) by {
                assert forall|k: int| 0 <= k < front.len() implies front.take(k) == ls.take(k) by {
                    assert(front.take(k) =~= ls.take(k));
                }
            }
        }
    }
}

/// A chunk starts with its header.
pub proof fn lemma_header_first(tag: Seq<u8>, size: u32, payload: Seq<u8>)
    requires
        tag.len() == 4,
    ensures
        (chunk_header(tag, size, 0) + payload).subrange(0, 12) == chunk_header(tag, size, 0),
{
    assert((chunk_header(tag, size, 0) + payload).subrange(0, 12) =~= chunk_header(tag, size, 0));
}

/// The tag of the chunk of a node.
pub open spec fn tag_of(w: NodeView) -> Seq<u8> {
    match w.node_type {
        NodeType::Transform(_) => tag_ntrn(),
        NodeType::Group => tag_ngrp(),
        NodeType::Shape(_) => tag_nshp(),
    }
}

/// The tag and the declared size at the head of the chunk of a node.
pub proof fn lemma_node_header(w: NodeView)
    requires
        w.writable(),
    ensures
        w.bytes().len() == 12 + w.size(),
        w.bytes().subrange(0, 12) == chunk_header(tag_of(w), w.size() as u32, 0),
        tag_of(w).len() == 4,
{
    crate::node::lemma_node_bytes_len(w);
    match w.node_type {
        NodeType::Transform(t) => {
            let v = w.as_ntrn(t);
            lemma_header_first(tag_ntrn(), ntrn_size(v) as u32, ntrn_payload(v));
        },
        NodeType::Group => {
            let v = w.as_ngrp();
            lemma_header_first(tag_ngrp(), ngrp_size(v) as u32, ngrp_payload(v));
        },
        NodeType::Shape(m) => {
            let v = w.as_nshp(m);
            assert(crate::riff::dict::pairs_size(Seq::<(Seq<char>, Seq<char>)>::empty()) == 0);
            lemma_header_first(tag_nshp(), nshp_size(v) as u32, nshp_payload(v));
        },
    }
}

/// The chunks of a tree are whole chunks; the search finds nothing among
/// them under tags of other kinds of chunks, and under the tag of transform
/// nodes it finds the root first, if the root is one.
pub proof fn lemma_tree_region(buf: Seq<u8>, p: int, w: NodeView, tag: Seq<u8>)
    requires
        w.all_writable(),
        0 <= p,
        tag.len() == 4,
        p + w.subtree_bytes().len() <= buf.len(),
        p + w.subtree_bytes().len() <= i32::MAX,
        buf.subrange(p, p + w.subtree_bytes().len()) == w.subtree_bytes(),
    ensures
        is_span(buf, p, p + w.subtree_bytes().len()),
        tag != tag_ntrn() && tag != tag_ngrp() && tag != tag_nshp() ==> occ_in(
            buf,
            p,
            p + w.subtree_bytes().len(),
            tag,
        ) == Seq::<int>::empty(),
        tag == tag_ntrn() && w.node_type is Transform ==> occ_in(
            buf,
            p,
            p + w.subtree_bytes().len(),
            tag,
        ).len() >= 1 && occ_in(buf, p, p + w.subtree_bytes().len(), tag)[0] == p,
    decreases w, 1int,
{
    lemma_node_header(w);
    crate::node::lemma_size_nonneg(w);
    let own = w.bytes();
    let below = subtree_bytes_all(w.children);
    lemma_split(buf, p, own, below);
    lemma_inner(buf, p, own, 0, 12);
    let q = p + 12 + w.size();
    lemma_span_chunk(buf, p, tag_of(w), w.size() as u32, 0, tag);
    lemma_trees_region(buf, q, w.children, tag);
    lemma_span_join(buf, p, q, q + below.len(), tag);
}

/// The chunks of a sequence of trees are whole chunks, and the search finds
/// nothing among them under tags of other kinds of chunks.
pub proof fn lemma_trees_region(buf: Seq<u8>, p: int, s: Seq<NodeView>, tag: Seq<u8>)
    requires
        forall|i: int| 0 <= i < s.len() ==> (#[trigger] s[i]).all_writable(),
        0 <= p,
        tag.len() == 4,
        p + subtree_bytes_all(s).len() <= buf.len(),
        p + subtree_bytes_all(s).len() <= i32::MAX,
        buf.subrange(p, p + subtree_bytes_all(s).len()) == subtree_bytes_all(s),
    ensures
        is_span(buf, p, p + subtree_bytes_all(s).len()),
        tag != tag_ntrn() && tag != tag_ngrp() && tag != tag_nshp() ==> occ_in(
            buf,
            p,
            p + subtree_bytes_all(s).len(),
            tag,
        ) == Seq::<int>::empty(),
    decreases s, 0int,
{
    if s.len() > 0 {
        let front = s.drop_last();
        let last = s.last();
        assert forall|i: int| 0 <= i < front.len() implies (#[trigger] front[i]).all_writable() by {
            assert(front[i] == s[i]);
        }
        lemma_split(buf, p, subtree_bytes_all(front), last.subtree_bytes());
        let q = p + subtree_bytes_all(front).len();
        lemma_trees_region(buf, p, front, tag);
        lemma_tree_region(buf, q, last, tag);
        lemma_span_join(buf, p, q, q + last.subtree_bytes().len(), tag);
    }
}

} // verus!
