//! The scene tree as the node chunks of a file spell it out.
//!
//! The chunks carry no parent pointers. The tree is rebuilt by recursive
//! descent: a transform node is followed by its one child, a group node by
//! as many children as its chunk declares, a shape node by none.
use crate::decimal::parse_decimal;
use crate::decimal::parse_i32;
use crate::decimal::parse_list;
use crate::decimal::parse_numbers;
use crate::error::DecodeError;
use crate::node::key_hidden;
use crate::node::key_name;
use crate::node::key_rotation;
use crate::node::key_translation;
use crate::node::lemma_keys;
use crate::node::lemma_view_children;
use crate::node::AttributesView;
use crate::node::Node;
use crate::node::NodeAttributes;
use crate::node::NodeType;
use crate::node::NodeView;
use crate::node::Transform;
use crate::riff::chunk::chunk_name;
use crate::riff::chunk::find_chunk;
use crate::riff::chunk::lemma_occurrences_bound;
use crate::riff::chunk::lemma_tags;
use crate::riff::chunk::occurrences;
use crate::riff::chunk::remaining;
use crate::riff::chunk::tag_at;
use crate::riff::chunk::tag_ntrn;
use crate::riff::dict::lookup;
use crate::riff::dict::Dict;
use crate::riff::dict::Pairs;
use crate::riff::dict::VoxString;
use crate::riff::records::lemma_ngrp_at_exact;
use crate::riff::records::lemma_nshp_at_exact;
use crate::riff::records::lemma_ntrn_at_exact;
use crate::riff::records::nGRP;
use crate::riff::records::nSHP;
use crate::riff::records::nTRN;
use crate::riff::records::ngrp_at;
use crate::riff::records::nshp_at;
use crate::riff::records::ntrn_at;
use crate::riff::records::NgrpView;
use crate::riff::records::NshpView;
use crate::riff::records::NtrnView;
use crate::text::text_eq;
use vstd::prelude::*;
use vstd::utf8::encode_utf8;

verus! {

/// The tag of a transform node chunk as text.
pub open spec fn name_ntrn() -> Seq<char> {
    seq!['n', 'T', 'R', 'N']
}

/// The tag of a group node chunk as text.
pub open spec fn name_ngrp() -> Seq<char> {
    seq!['n', 'G', 'R', 'P']
}

/// The tag of a shape node chunk as text.
pub open spec fn name_nshp() -> Seq<char> {
    seq!['n', 'S', 'H', 'P']
}

/// The tag literals are the tags.
pub proof fn lemma_names()
    ensures
        "nTRN"@ == name_ntrn(),
        "nGRP"@ == name_ngrp(),
        "nSHP"@ == name_nshp(),
{
    reveal_strlit("nTRN");
    reveal_strlit("nGRP");
    reveal_strlit("nSHP");
    assert("nTRN"@ =~= name_ntrn());
    assert("nGRP"@ =~= name_ngrp());
    assert("nSHP"@ =~= name_nshp());
}

/// The boolean that the text of a flag spells: true for the number 1, false
/// for any other number.
pub open spec fn flag_of(text: Seq<char>) -> Result<bool, DecodeError> {
    match parse_decimal(encode_utf8(text)) {
        Some(v) => Ok(v == 1),
        None => Err(DecodeError::InvalidNumber),
    }
}

/// The visibility that a dictionary carries under `_hidden`.
pub open spec fn hidden_of(d: Pairs) -> Result<Option<bool>, DecodeError> {
    match lookup(d, key_hidden()) {
        None => Ok(None),
        Some(t) => match flag_of(t) {
            Ok(b) => Ok(Some(b)),
            Err(e) => Err(e),
        },
    }
}

/// The attributes that a dictionary carries: the name under `_name` and the
/// visibility under `_hidden`.
pub open spec fn attributes_of(d: Pairs) -> Result<AttributesView, DecodeError> {
    match hidden_of(d) {
        Err(e) => Err(e),
        Ok(hidden) => Ok(AttributesView { name: lookup(d, key_name()), hidden }),
    }
}

/// The rotation that a frame dictionary carries under `_r`.
pub open spec fn rotation_of(d: Pairs) -> Result<Option<i32>, DecodeError> {
    match lookup(d, key_rotation()) {
        None => Ok(None),
        Some(t) => match parse_decimal(encode_utf8(t)) {
            Some(v) => Ok(Some(v)),
            None => Err(DecodeError::InvalidNumber),
        },
    }
}

/// The translation that a frame dictionary carries under `_t`: the first
/// three numbers of a list separated by spaces.
pub open spec fn translation_of(d: Pairs) -> Result<Option<(i32, i32, i32)>, DecodeError> {
    match lookup(d, key_translation()) {
        None => Ok(None),
        Some(t) => match parse_list(encode_utf8(t)) {
            Some(v) => if v.len() >= 3 {
                Ok(Some((v[0], v[1], v[2])))
            } else {
                Err(DecodeError::InvalidNumber)
            },
            None => Err(DecodeError::InvalidNumber),
        },
    }
}

/// A node without children and without a number.
pub open spec fn leaf(node_type: NodeType, attributes: AttributesView) -> NodeView {
    NodeView {
        node_type,
        id: 0,
        children_ids: Seq::empty(),
        attributes,
        children: Seq::empty(),
    }
}

/// The node `n` with the children `kids`.
pub open spec fn with_children(n: NodeView, kids: Seq<NodeView>) -> NodeView {
    NodeView {
        node_type: n.node_type,
        id: n.id,
        children_ids: n.children_ids,
        attributes: n.attributes,
        children: kids,
    }
}

/// The node that a transform node chunk describes, without its child.
pub open spec fn ntrn_node(v: NtrnView) -> Result<NodeView, DecodeError> {
    match attributes_of(v.node_attributes) {
        Err(e) => Err(e),
        Ok(attributes) => match rotation_of(v.frame_attributes) {
            Err(e) => Err(e),
            Ok(rotation) => match translation_of(v.frame_attributes) {
                Err(e) => Err(e),
                Ok(translation) => Ok(
                    leaf(
                        NodeType::Transform(Transform { layer: v.layer_id, rotation, translation }),
                        attributes,
                    ),
                ),
            },
        },
    }
}

/// The node that a group node chunk describes, without its children.
pub open spec fn ngrp_node(v: NgrpView) -> Result<NodeView, DecodeError> {
    match attributes_of(v.node_attributes) {
        Err(e) => Err(e),
        Ok(attributes) => Ok(leaf(NodeType::Group, attributes)),
    }
}

/// The node that a shape node chunk describes.
pub open spec fn nshp_node(v: NshpView) -> Result<NodeView, DecodeError> {
    match attributes_of(v.node_attributes) {
        Err(e) => Err(e),
        Ok(attributes) => Ok(leaf(NodeType::Shape(v.model_id), attributes)),
    }
}

/// The node chunk at `pos`: the node it describes, the number of child
/// slots that follow it, and the position after the chunk. A transform node
/// has one slot, a group node as many as it declares, a shape node none. A
/// tag that names no node chunk gives nothing.
#[verifier::opaque]
pub open spec fn node_chunk_at(buf: Seq<u8>, pos: int) -> Result<
    Option<(NodeView, int, int)>,
    DecodeError,
> {
    match tag_at(buf, pos) {
        Err(e) => Err(e),
        Ok(tag) => if tag == name_ntrn() {
            match ntrn_at(buf, pos) {
                Err(e) => Err(e),
                Ok((chunk, p1)) => match ntrn_node(chunk) {
                    Err(e) => Err(e),
                    Ok(node) => Ok(Some((node, 1, p1))),
                },
            }
        } else if tag == name_nshp() {
            match nshp_at(buf, pos) {
                Err(e) => Err(e),
                Ok((chunk, p1)) => match nshp_node(chunk) {
                    Err(e) => Err(e),
                    Ok(node) => Ok(Some((node, 0, p1))),
                },
            }
        } else if tag == name_ngrp() {
            match ngrp_at(buf, pos) {
                Err(e) => Err(e),
                Ok((chunk, p1)) => match ngrp_node(chunk) {
                    Err(e) => Err(e),
                    Ok(node) => Ok(Some((node, chunk.child_id.len() as int, p1))),
                },
            }
        } else {
            Ok(None)
        },
    }
}

/// A node chunk that was read lies inside the buffer and ends behind the
/// cursor; the node it describes has no children yet.
pub proof fn lemma_node_chunk_at(buf: Seq<u8>, pos: int)
    requires
        node_chunk_at(buf, pos) matches Ok(Some(_)),
    ensures
        ({
            let (node, slots, next) = node_chunk_at(buf, pos)->Ok_0->Some_0;
            &&& pos < next <= buf.len()
            &&& next <= i32::MAX
            &&& -12 <= pos
            &&& 0 <= slots
            &&& node.children.len() == 0
            &&& node.children_ids.len() == 0
            &&& node.id == 0
        }),
{
    reveal(node_chunk_at);
    if ntrn_at(buf, pos) is Ok {
        lemma_ntrn_at_exact(buf, pos);
    }
    if nshp_at(buf, pos) is Ok {
        lemma_nshp_at_exact(buf, pos);
    }
    if ngrp_at(buf, pos) is Ok {
        lemma_ngrp_at_exact(buf, pos);
    }
}

/// The tree that fills one child slot at `pos`, with the number of bytes
/// that its chunks take: the node of the chunk at the cursor, with its own
/// child slots filled from the chunks that follow. A tag that names no node
/// chunk leaves the slot empty and takes no bytes.
pub open spec fn slot_at(buf: Seq<u8>, pos: int) -> Result<(Option<NodeView>, nat), DecodeError>
    decreases remaining(buf, pos), 0int,
    via slot_at_decreases
{
    match node_chunk_at(buf, pos) {
        Err(e) => Err(e),
        Ok(None) => Ok((None, 0)),
        Ok(Some((node, slots, p1))) => match children_at(buf, p1, slots) {
            Err(e) => Err(e),
            Ok((kids, below)) => Ok((Some(with_children(node, kids)), (p1 - pos + below) as nat)),
        },
    }
}

#[via_fn]
proof fn slot_at_decreases(buf: Seq<u8>, pos: int) {
    if node_chunk_at(buf, pos) matches Ok(Some(_)) {
        lemma_node_chunk_at(buf, pos);
    }
}

/// The trees that fill `count` child slots from `pos`, one slot after the
/// other, with the number of bytes that their chunks take.
pub open spec fn children_at(buf: Seq<u8>, pos: int, count: int) -> Result<
    (Seq<NodeView>, nat),
    DecodeError,
>
    decreases remaining(buf, pos), count,
{
    if count <= 0 {
        Ok((Seq::empty(), 0))
    } else {
        match slot_at(buf, pos) {
            Err(e) => Err(e),
            Ok((first, used)) => match children_at(buf, pos + used, count - 1) {
                Err(e) => Err(e),
                Ok((rest, after)) => Ok(
                    (
                        match first {
                            Some(n) => seq![n] + rest,
                            None => rest,
                        },
                        used + after,
                    ),
                ),
            },
        }
    }
}

/// The tree whose root is the transform node chunk at `pos`: the node of
/// that chunk, with its one child slot filled from the chunks that follow.
pub open spec fn root_at(buf: Seq<u8>, pos: int) -> Result<NodeView, DecodeError> {
    match ntrn_at(buf, pos) {
        Err(e) => Err(e),
        Ok((chunk, p1)) => match ntrn_node(chunk) {
            Err(e) => Err(e),
            Ok(node) => match children_at(buf, p1, 1) {
                Err(e) => Err(e),
                Ok((kids, below)) => Ok(with_children(node, kids)),
            },
        },
    }
}

/// The scene tree of a file: its root is the first transform node chunk.
pub open spec fn tree_at(buf: Seq<u8>) -> Result<NodeView, DecodeError> {
    let found = occurrences(buf, tag_ntrn());
    if found.len() == 0 {
        Err(DecodeError::ChunkNotFound)
    } else {
        root_at(buf, found[0])
    }
}

/// The numbers of a list in which single spaces separate the fields.
pub fn parse_string(string: &String) -> (r: Result<Vec<i32>, DecodeError>)
    ensures
        match parse_list(encode_utf8(string@)) {
            Some(v) => r matches Ok(out) && out@ == v,
            None => r matches Err(e) && e == DecodeError::InvalidNumber,
        },
{
    match parse_numbers(string.as_str().as_bytes()) {
        Some(v) => Ok(v),
        None => Err(DecodeError::InvalidNumber),
    }
}

/// The boolean that the text of a flag spells.
pub fn parse_flag(text: &VoxString) -> (r: Result<bool, DecodeError>)
    ensures
        r == flag_of(text@),
{
    match parse_i32(text.content.as_str().as_bytes()) {
        Some(v) => Ok(v == 1),
        None => Err(DecodeError::InvalidNumber),
    }
}

/// The attributes that a dictionary carries.
pub fn attributes_from(d: &Dict) -> (r: Result<NodeAttributes, DecodeError>)
    ensures
        match attributes_of(d@) {
            Ok(a) => r matches Ok(x) && x@ == a,
            Err(e) => r matches Err(x) && x == e,
        },
{
    proof {
        lemma_keys();
    }
    let hidden = match d.get("_hidden") {
        None => None,
        Some(text) => match parse_flag(text) {
            Ok(b) => Some(b),
            Err(e) => { return Err(e); },
        },
    };
    let name = match d.get("_name") {
        None => None,
        Some(text) => Some(text.content.clone()),
    };
    Ok(NodeAttributes { name, hidden })
}

impl nTRN {
    /// The translation that the frame attributes carry under `_t`.
    pub fn has_translation(&self) -> (r: Result<Option<(i32, i32, i32)>, DecodeError>)
        ensures
            r == translation_of(self@.frame_attributes),
    {
        proof {
            lemma_keys();
        }
        match self.frame_attributes.get("_t") {
            None => Ok(None),
            Some(text) => match parse_string(&text.content) {
                Err(e) => Err(e),
                Ok(parsed) => {
                    if parsed.len() >= 3 {
                        Ok(Some((parsed[0], parsed[1], parsed[2])))
                    } else {
                        Err(DecodeError::InvalidNumber)
                    }
                },
            },
        }
    }

    /// The rotation that the frame attributes carry under `_r`.
    pub fn has_rotation(&self) -> (r: Result<Option<i32>, DecodeError>)
        ensures
            r == rotation_of(self@.frame_attributes),
    {
        proof {
            lemma_keys();
        }
        match self.frame_attributes.get("_r") {
            None => Ok(None),
            Some(text) => match parse_i32(text.content.as_str().as_bytes()) {
                Some(v) => Ok(Some(v)),
                None => Err(DecodeError::InvalidNumber),
            },
        }
    }

    /// The transform node that the chunk describes, without its child.
    pub fn to_node(&self) -> (r: Result<Node, DecodeError>)
        ensures
            match ntrn_node(self@) {
                Ok(n) => r matches Ok(x) && x@ == n && x.children@.len() == 0,
                Err(e) => r matches Err(x) && x == e,
            },
    {
        let attributes = match attributes_from(&self.node_attributes) {
            Ok(a) => a,
            Err(e) => { return Err(e); },
        };
        let rotation = match self.has_rotation() {
            Ok(v) => v,
            Err(e) => { return Err(e); },
        };
        let translation = match self.has_translation() {
            Ok(v) => v,
            Err(e) => { return Err(e); },
        };
        let data = Transform { layer: self.layer_id, rotation, translation };
        let node = Node::new(NodeType::Transform(data), attributes);
        proof {
            lemma_view_children(node);
            assert(node@.children =~= Seq::<NodeView>::empty());
            assert(node@.children_ids =~= Seq::<i32>::empty());
        }
        Ok(node)
    }
}

impl nGRP {
    /// The group node that the chunk describes, without its children.
    pub fn to_node(&self) -> (r: Result<Node, DecodeError>)
        ensures
            match ngrp_node(self@) {
                Ok(n) => r matches Ok(x) && x@ == n && x.children@.len() == 0,
                Err(e) => r matches Err(x) && x == e,
            },
    {
        let attributes = match attributes_from(&self.node_attributes) {
            Ok(a) => a,
            Err(e) => { return Err(e); },
        };
        let node = Node::new(NodeType::Group, attributes);
        proof {
            lemma_view_children(node);
            assert(node@.children =~= Seq::<NodeView>::empty());
            assert(node@.children_ids =~= Seq::<i32>::empty());
        }
        Ok(node)
    }
}

impl nSHP {
    /// The shape node that the chunk describes.
    pub fn to_node(&self) -> (r: Result<Node, DecodeError>)
        ensures
            match nshp_node(self@) {
                Ok(n) => r matches Ok(x) && x@ == n && x.children@.len() == 0,
                Err(e) => r matches Err(x) && x == e,
            },
    {
        let attributes = match attributes_from(&self.node_attributes) {
            Ok(a) => a,
            Err(e) => { return Err(e); },
        };
        let node = Node::new(NodeType::Shape(self.model_id), attributes);
        proof {
            lemma_view_children(node);
            assert(node@.children =~= Seq::<NodeView>::empty());
            assert(node@.children_ids =~= Seq::<i32>::empty());
        }
        Ok(node)
    }
}

/// Reads the node chunk at the cursor and moves the cursor past it.
fn next_chunk_node(cursor: &mut i32, contents: &Vec<u8>) -> (r: Result<
    Option<(Node, i32)>,
    DecodeError,
>)
    ensures
        match node_chunk_at(contents@, *old(cursor) as int) {
            Ok(Some((node, slots, next))) => {
                &&& r matches Ok(Some(got))
                &&& got.0@ == node
                &&& got.1 == slots
                &&& *final(cursor) == next
            },
            Ok(None) => r matches Ok(None) && *final(cursor) == *old(cursor),
            Err(e) => r matches Err(x) && x == e,
        },
{
    proof {
        reveal(node_chunk_at);
        lemma_names();
    }
    let name = match chunk_name(contents, cursor) {
        Ok(s) => s,
        Err(e) => { return Err(e); },
    };
    if text_eq(name.as_str(), "nTRN") {
        let chunk = match nTRN::read(contents, cursor) {
            Ok(c) => c,
            Err(e) => { return Err(e); },
        };
        match chunk.to_node() {
            Ok(n) => Ok(Some((n, 1))),
            Err(e) => Err(e),
        }
    } else if text_eq(name.as_str(), "nSHP") {
        let chunk = match nSHP::read(contents, cursor) {
            Ok(c) => c,
            Err(e) => { return Err(e); },
        };
        match chunk.to_node() {
            Ok(n) => Ok(Some((n, 0))),
            Err(e) => Err(e),
        }
    } else if text_eq(name.as_str(), "nGRP") {
        let chunk = match nGRP::read(contents, cursor) {
            Ok(c) => c,
            Err(e) => { return Err(e); },
        };
        let num_children = chunk.num_of_children_nodes;
        match chunk.to_node() {
            Ok(n) => Ok(Some((n, num_children))),
            Err(e) => Err(e),
        }
    } else {
        Ok(None)
    }
}

/// Reads the tree that fills one child slot at the cursor and moves the
/// cursor past its chunks.
fn next_node(cursor: &mut i32, contents: &Vec<u8>) -> (r: Result<Option<Node>, DecodeError>)
    ensures
        match slot_at(contents@, *old(cursor) as int) {
            Ok((first, used)) => {
                &&& r matches Ok(got)
                &&& match first {
                    Some(n) => got matches Some(x) && x@ == n,
                    None => got is None,
                }
                &&& *final(cursor) == *old(cursor) + used
            },
            Err(e) => r matches Err(x) && x == e,
        },
    decreases remaining(contents@, *old(cursor) as int), 0int,
{
    let ghost buf = contents@;
    let ghost pos = *cursor as int;
    proof {
        if node_chunk_at(buf, pos) matches Ok(Some(_)) {
            lemma_node_chunk_at(buf, pos);
        }
    }
    match next_chunk_node(cursor, contents) {
        Err(e) => Err(e),
        Ok(None) => Ok(None),
        Ok(Some((node, slots))) => {
            let mut new_node = node;
            let ghost bare = new_node@;
            let ghost p1 = *cursor as int;
            match add_node_children(&mut new_node, slots, cursor, contents) {
                Ok(()) => {},
                Err(e) => { return Err(e); },
            }
            proof {
                let (kids, below) = children_at(buf, p1, slots as int)->Ok_0;
                assert(bare.children + kids =~= kids);
            }
            Ok(Some(new_node))
        },
    }
}

/// The slots are filled one after the other.
pub proof fn lemma_children_at_unfold(buf: Seq<u8>, pos: int, count: int)
    requires
        count > 0,
    ensures
        children_at(buf, pos, count) == (match slot_at(buf, pos) {
            Err(e) => Err::<(Seq<NodeView>, nat), DecodeError>(e),
            Ok((first, used)) => match children_at(buf, pos + used, count - 1) {
                Err(e) => Err(e),
                Ok((rest, after)) => Ok(
                    (
                        match first {
                            Some(n) => seq![n] + rest,
                            None => rest,
                        },
                        used + after,
                    ),
                ),
            },
        }),
{
}

/// Reading the slots one by one: what was read so far, then the rest.
proof fn lemma_children_at_step(buf: Seq<u8>, pos: int, count: int, acc: Seq<NodeView>, done: int)
    requires
        count > 0,
        0 <= done,
    ensures
        match slot_at(buf, pos) {
            Err(e) => (match children_at(buf, pos, count) {
                Ok((rest, used)) => Ok::<(Seq<NodeView>, nat), DecodeError>(
                    (acc + rest, (done + used) as nat),
                ),
                Err(e) => Err(e),
            }) == Err::<(Seq<NodeView>, nat), DecodeError>(e),
            Ok((first, used)) => (match children_at(buf, pos, count) {
                Ok((rest, used)) => Ok::<(Seq<NodeView>, nat), DecodeError>(
                    (acc + rest, (done + used) as nat),
                ),
                Err(e) => Err(e),
            }) == (match children_at(buf, pos + used, count - 1) {
                Ok((rest, after)) => Ok::<(Seq<NodeView>, nat), DecodeError>(
                    (
                        (match first {
                            Some(n) => acc.push(n),
                            None => acc,
                        }) + rest,
                        (done + used + after) as nat,
                    ),
                ),
                Err(e) => Err(e),
            }),
        },
{
    lemma_children_at_unfold(buf, pos, count);
    match slot_at(buf, pos) {
        Err(e) => {
            assert(children_at(buf, pos, count) is Err);
        },
        Ok((first, used)) => {
            match children_at(buf, pos + used, count - 1) {
                Ok((rest, after)) => {
                    match first {
                        Some(n) => {
                            assert(children_at(buf, pos, count) == Ok::<
                                (Seq<NodeView>, nat),
                                DecodeError,
                            >((seq![n] + rest, used + after)));
                            assert(acc + (seq![n] + rest) =~= acc.push(n) + rest);
                        },
                        None => {
                            assert(children_at(buf, pos, count) == Ok::<
                                (Seq<NodeView>, nat),
                                DecodeError,
                            >((rest, used + after)));
                        },
                    }
                },
                Err(e) => {
                    assert(children_at(buf, pos, count) is Err);
                },
            }
        },
    }
}

/// Fills `num_of_children` child slots of `node` from the chunks at the
/// cursor and moves the cursor past them.
pub fn add_node_children(
    node: &mut Node,
    num_of_children: i32,
    cursor: &mut i32,
    contents: &Vec<u8>,
) -> (r: Result<(), DecodeError>)
    ensures
        match children_at(contents@, *old(cursor) as int, num_of_children as int) {
            Ok((kids, used)) => {
                &&& r is Ok
                &&& final(node)@ == with_children(old(node)@, old(node)@.children + kids)
                &&& *final(cursor) == *old(cursor) + used
            },
            Err(e) => r == Err::<(), DecodeError>(e),
        },
    decreases remaining(contents@, *old(cursor) as int), num_of_children,
{
    let ghost buf = contents@;
    let ghost start = *cursor as int;
    let ghost mut acc: Seq<NodeView> = Seq::empty();
    let mut i: i32 = 0;
    proof {
        lemma_view_children(*node);
        assert(node@.children + acc =~= node@.children);
        match children_at(buf, start, num_of_children as int) {
            Ok((rest, used)) => {
                assert(acc + rest =~= rest);
            },
            Err(e) => {},
        }
    }
    while i < num_of_children
        invariant
            0 <= i,
            num_of_children > 0 ==> i <= num_of_children,
            buf == contents@,
            start == *old(cursor),
            start <= *cursor,
            node.node_type == old(node).node_type,
            node.id == old(node).id,
            node.children_ids == old(node).children_ids,
            node.attributes == old(node).attributes,
            node@.children == old(node)@.children + acc,
            children_at(buf, start, num_of_children as int) == (match children_at(
                buf,
                *cursor as int,
                num_of_children - i,
            ) {
                Ok((rest, used)) => Ok::<(Seq<NodeView>, nat), DecodeError>(
                    (acc + rest, (*cursor - start + used) as nat),
                ),
                Err(e) => Err(e),
            }),
        decreases num_of_children - i,
    {
        proof {
            lemma_children_at_step(buf, *cursor as int, num_of_children - i, acc, *cursor - start);
        }
        match next_node(cursor, contents) {
            Err(e) => { return Err(e); },
            Ok(None) => {},
            Ok(Some(new_node)) => {
                proof {
                    assert(old(node)@.children + acc.push(new_node@) =~= (old(node)@.children
                        + acc).push(new_node@));
                    acc = acc.push(new_node@);
                }
                node.add_child(new_node);
            },
        }
        i = i + 1;
    }
    proof {
        lemma_view_children(*node);
        assert(acc + Seq::<NodeView>::empty() =~= acc);
    }
    Ok(())
}

/// The scene tree of a file.
pub fn nodes_from_chunks(input: &Vec<u8>) -> (r: Result<Node, DecodeError>)
    ensures
        match tree_at(input@) {
            Ok(t) => r matches Ok(n) && n@ == t,
            Err(e) => r matches Err(x) && x == e,
        },
{
    proof {
        lemma_tags();
        lemma_occurrences_bound(input@, 8, tag_ntrn());
    }
    let start = match find_chunk(input, "nTRN".to_owned(), 1) {
        Ok(p) => p,
        Err(e) => { return Err(e); },
    };
    assert(start == occurrences(input@, tag_ntrn())[0]);
    let mut cursor: i32 = start as i32;
    let chunk = match nTRN::read(input, &mut cursor) {
        Ok(c) => c,
        Err(e) => { return Err(e); },
    };
    let mut root_node = match chunk.to_node() {
        Ok(n) => n,
        Err(e) => { return Err(e); },
    };
    let ghost bare = root_node@;
    let ghost p1 = cursor as int;
    match add_node_children(&mut root_node, 1, &mut cursor, input) {
        Ok(()) => {},
        Err(e) => { return Err(e); },
    }
    proof {
        let (kids, below) = children_at(input@, p1, 1)->Ok_0;
        assert(bare.children + kids =~= kids);
    }
    Ok(root_node)
}

} // verus!
