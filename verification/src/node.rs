//! The scene graph: a tree of transform, group and shape nodes.
//!
//! A node's id and the list of its children's ids are derived values: they
//! are recomputed by a pre-order numbering whenever the tree is written.
use crate::decimal::decimal_string;
use crate::decimal::decimal_text;
use crate::decimal::lemma_decimal_text;
use crate::decimal::lemma_triple_text;
use crate::decimal::triple_string;
use crate::decimal::triple_text;
use crate::riff::dict::dict_size;
use crate::riff::dict::pairs_size;
use crate::riff::dict::pairs_view;
use crate::riff::dict::text_size;
use crate::riff::dict::Dict;
use crate::riff::dict::Pairs;
use crate::riff::dict::VoxString;
use crate::riff::records::lemma_dict_bytes_len;
use crate::riff::records::lemma_ngrp_len;
use crate::riff::records::lemma_nshp_len;
use crate::riff::records::lemma_ntrn_len;
use crate::riff::records::nGRP;
use crate::riff::records::nSHP;
use crate::riff::records::nTRN;
use crate::riff::records::ngrp_bytes;
use crate::riff::records::nshp_bytes;
use crate::riff::records::ntrn_bytes;
use crate::riff::records::NgrpView;
use crate::riff::records::NshpView;
use crate::riff::records::NtrnView;
use crate::text::byte_len;
use vstd::prelude::*;
use vstd::utf8::encode_utf8;
use vstd::utf8::is_ascii_chars_encode_utf8;

verus! {

/// The key `_name` under which a node or a layer carries its name.
pub open spec fn key_name() -> Seq<char> {
    seq!['_', 'n', 'a', 'm', 'e']
}

/// The key `_hidden` under which a node or a layer carries its visibility.
pub open spec fn key_hidden() -> Seq<char> {
    seq!['_', 'h', 'i', 'd', 'd', 'e', 'n']
}

/// The key `_r` under which a frame carries its rotation.
pub open spec fn key_rotation() -> Seq<char> {
    seq!['_', 'r']
}

/// The key `_t` under which a frame carries its translation.
pub open spec fn key_translation() -> Seq<char> {
    seq!['_', 't']
}

/// The text of a boolean: `1` for true, `0` for false.
pub open spec fn bool_text(value: bool) -> Seq<char> {
    if value {
        seq!['1']
    } else {
        seq!['0']
    }
}

/// The keys and the boolean texts are ASCII, so each character is a byte.
pub proof fn lemma_keys()
    ensures
        "_name"@ == key_name(),
        "_hidden"@ == key_hidden(),
        "_r"@ == key_rotation(),
        "_t"@ == key_translation(),
        "1"@ == bool_text(true),
        "0"@ == bool_text(false),
        text_size(key_name()) == 9,
        text_size(key_hidden()) == 11,
        text_size(key_rotation()) == 6,
        text_size(key_translation()) == 6,
        text_size(bool_text(true)) == 5,
        text_size(bool_text(false)) == 5,
        encode_utf8(bool_text(true)) == seq![49u8],
        encode_utf8(bool_text(false)) == seq![48u8],
{
    reveal_strlit("_name");
    reveal_strlit("_hidden");
    reveal_strlit("_r");
    reveal_strlit("_t");
    reveal_strlit("1");
    reveal_strlit("0");
    assert("_name"@ =~= key_name());
    assert("_hidden"@ =~= key_hidden());
    assert("_r"@ =~= key_rotation());
    assert("_t"@ =~= key_translation());
    assert("1"@ =~= bool_text(true));
    assert("0"@ =~= bool_text(false));
    is_ascii_chars_encode_utf8(key_name());
    is_ascii_chars_encode_utf8(key_hidden());
    is_ascii_chars_encode_utf8(key_rotation());
    is_ascii_chars_encode_utf8(key_translation());
    is_ascii_chars_encode_utf8(bool_text(true));
    is_ascii_chars_encode_utf8(bool_text(false));
    assert(encode_utf8(bool_text(true)) =~= seq![49u8]);
    assert(encode_utf8(bool_text(false)) =~= seq![48u8]);
}

/// Appending a pair adds the size of its key and its value.
pub proof fn lemma_pairs_size_push(d: Pairs, key: Seq<char>, value: Seq<char>)
    ensures
        pairs_size(d.push((key, value))) == pairs_size(d) + text_size(key) + text_size(value),
{
    assert(d.push((key, value)).drop_last() =~= d);
}

/// The pairs of a vector after a push.
pub proof fn lemma_pairs_view_push(v: Seq<(VoxString, VoxString)>, key: VoxString, value: VoxString)
    ensures
        pairs_view(v.push((key, value))) == pairs_view(v).push((key@, value@)),
{
    assert(pairs_view(v.push((key, value))) =~= pairs_view(v).push((key@, value@)));
}

/// The placement that a transform node gives to what lies below it.
#[derive(Debug, PartialEq, Clone, Copy)]
pub struct Transform {
    /// The layer, or -1 for none.
    pub layer: i32,
    /// The rotation code.
    pub rotation: Option<i32>,
    pub translation: Option<(i32, i32, i32)>,
}

/// The dictionary of a frame: the rotation under `_r`, then the translation
/// under `_t`, each where it is set.
pub open spec fn frame_pairs(t: Transform) -> Pairs {
    let first: Pairs = match t.rotation {
        Some(r) => Seq::<(Seq<char>, Seq<char>)>::empty().push(
            (key_rotation(), decimal_text(r as int)),
        ),
        None => Seq::empty(),
    };
    match t.translation {
        Some((x, y, z)) => first.push(
            (key_translation(), triple_text(x as int, y as int, z as int)),
        ),
        None => first,
    }
}

/// A frame dictionary takes 70 bytes at most.
pub proof fn lemma_frame_pairs_size(t: Transform)
    ensures
        4 <= dict_size(frame_pairs(t)) <= 70,
{
    lemma_keys();
    let e = Seq::<(Seq<char>, Seq<char>)>::empty();
    assert(pairs_size(e) == 0);
    let first: Pairs = match t.rotation {
        Some(r) => e.push((key_rotation(), decimal_text(r as int))),
        None => e,
    };
    match t.rotation {
        Some(r) => {
            lemma_decimal_text(r);
            lemma_pairs_size_push(e, key_rotation(), decimal_text(r as int));
        },
        None => {},
    }
    match t.translation {
        Some((x, y, z)) => {
            lemma_triple_text(x, y, z);
            lemma_pairs_size_push(
                first,
                key_translation(),
                triple_text(x as int, y as int, z as int),
            );
        },
        None => {},
    }
}

impl Transform {
    /// The frame dictionary of this transform.
    pub fn to_dict(&self) -> (d: Dict)
        ensures
            d@ == frame_pairs(*self),
            d.wf(),
    {
        let pairs = self.get_pairs();
        proof {
            lemma_frame_pairs_size(*self);
        }
        Dict { num_of_pairs: self.num_of_pairs(), pairs }
    }

    /// The number of pairs in the frame dictionary.
    pub fn num_of_pairs(&self) -> (n: i32)
        ensures
            n == frame_pairs(*self).len(),
    {
        if self.rotation.is_some() && self.translation.is_some() {
            2
        } else if self.rotation.is_some() || self.translation.is_some() {
            1
        } else {
            0
        }
    }

    /// The pairs of the frame dictionary.
    pub fn get_pairs(&self) -> (pairs: Vec<(VoxString, VoxString)>)
        ensures
            pairs_view(pairs@) == frame_pairs(*self),
            forall|i: int|
                0 <= i < pairs@.len() ==> (#[trigger] pairs@[i]).0.wf() && pairs@[i].1.wf(),
    {
        let mut pairs: Vec<(VoxString, VoxString)> = Vec::new();
        proof {
            lemma_keys();
            assert(pairs_view(pairs@) =~= Seq::<(Seq<char>, Seq<char>)>::empty());
        }
        match self.rotation {
            Some(rot) => {
                let text = decimal_string(rot);
                proof {
                    lemma_decimal_text(rot);
                }
                let key = VoxString::new(2, "_r".to_owned());
                let value = VoxString::new(byte_len(text.as_str()) as i32, text);
                proof {
                    lemma_pairs_view_push(pairs@, key, value);
                }
                pairs.push((key, value));
            },
            None => {},
        }
        match self.translation {
            Some((x, y, z)) => {
                let text = self.translation_to_string();
                proof {
                    lemma_triple_text(x, y, z);
                }
                let key = VoxString::new(2, "_t".to_owned());
                let value = VoxString::new(byte_len(text.as_str()) as i32, text);
                proof {
                    lemma_pairs_view_push(pairs@, key, value);
                }
                pairs.push((key, value));
            },
            None => {},
        }
        pairs
    }

    /// The translation as three decimal numbers separated by spaces.
    pub fn translation_to_string(&self) -> (s: String)
        requires
            self.translation is Some,
        ensures
            s@ == triple_text(
                self.translation->Some_0.0 as int,
                self.translation->Some_0.1 as int,
                self.translation->Some_0.2 as int,
            ),
    {
        match self.translation {
            Some((x, y, z)) => triple_string(x, y, z),
            None => String::new(),
        }
    }

    /// The transform that places nothing: no layer, no rotation, no
    /// translation.
    pub fn default() -> (t: Transform)
        ensures
            t.layer == -1,
            t.rotation is None,
            t.translation is None,
    {
        Transform { layer: -1, rotation: None, translation: None }
    }
}

/// `1` for true and `0` for false.
pub fn bool_to_string(value: bool) -> (s: String)
    ensures
        s@ == bool_text(value),
{
    proof {
        lemma_keys();
    }
    if value {
        "1".to_owned()
    } else {
        "0".to_owned()
    }
}

/// The name and the visibility of a node.
#[derive(Debug, PartialEq)]
pub struct NodeAttributes {
    pub name: Option<String>,
    pub hidden: Option<bool>,
}

/// The attributes of a node as a mathematical value.
pub struct AttributesView {
    pub name: Option<Seq<char>>,
    pub hidden: Option<bool>,
}

impl View for NodeAttributes {
    type V = AttributesView;

    open spec fn view(&self) -> AttributesView {
        AttributesView {
            name: match self.name {
                Some(n) => Some(n@),
                None => None,
            },
            hidden: self.hidden,
        }
    }
}

/// The dictionary of a node's attributes: the name under `_name`, then the
/// visibility under `_hidden`, each where it is set.
pub open spec fn attrs_pairs(a: AttributesView) -> Pairs {
    let first: Pairs = match a.name {
        Some(n) => Seq::<(Seq<char>, Seq<char>)>::empty().push((key_name(), n)),
        None => Seq::empty(),
    };
    match a.hidden {
        Some(h) => first.push((key_hidden(), bool_text(h))),
        None => first,
    }
}

/// The size of an attribute dictionary: 4 bytes, 9 and the name's string
/// where a name is set, and 16 where the visibility is set.
pub proof fn lemma_attrs_pairs_size(a: AttributesView)
    ensures
        dict_size(attrs_pairs(a)) == 4 + (match a.name {
            Some(n) => 9 + text_size(n),
            None => 0,
        }) + (match a.hidden {
            Some(h) => 16int,
            None => 0,
        }),
{
    lemma_keys();
    let e = Seq::<(Seq<char>, Seq<char>)>::empty();
    assert(pairs_size(e) == 0);
    let first: Pairs = match a.name {
        Some(n) => e.push((key_name(), n)),
        None => e,
    };
    match a.name {
        Some(n) => {
            lemma_pairs_size_push(e, key_name(), n);
        },
        None => {},
    }
    match a.hidden {
        Some(h) => {
            lemma_pairs_size_push(first, key_hidden(), bool_text(h));
        },
        None => {},
    }
}

impl Clone for NodeAttributes {
    fn clone(&self) -> (r: NodeAttributes)
        ensures
            r == *self,
    {
        let name = match &self.name {
            Some(n) => Some(n.clone()),
            None => None,
        };
        NodeAttributes { name, hidden: self.hidden }
    }
}

impl NodeAttributes {
    /// The attribute dictionary fits a 32-bit size.
    pub open spec fn wf(&self) -> bool {
        dict_size(attrs_pairs(self@)) <= i32::MAX
    }

    /// Attributes with nothing set.
    pub fn new() -> (a: NodeAttributes)
        ensures
            a.name is None,
            a.hidden is None,
    {
        NodeAttributes { name: None, hidden: None }
    }

    /// The attribute dictionary.
    pub fn to_dict(&self) -> (d: Dict)
        requires
            self.wf(),
        ensures
            d@ == attrs_pairs(self@),
            d.wf(),
    {
        let pairs = self.to_pairs();
        Dict { num_of_pairs: self.num_of_pairs(), pairs }
    }

    /// The number of pairs in the attribute dictionary.
    pub fn num_of_pairs(&self) -> (n: i32)
        ensures
            n == attrs_pairs(self@).len(),
    {
        if self.name.is_some() && self.hidden.is_some() {
            2
        } else if self.name.is_some() || self.hidden.is_some() {
            1
        } else {
            0
        }
    }

    /// The pairs of the attribute dictionary.
    pub fn to_pairs(&self) -> (pairs: Vec<(VoxString, VoxString)>)
        requires
            self.wf(),
        ensures
            pairs_view(pairs@) == attrs_pairs(self@),
            forall|i: int|
                0 <= i < pairs@.len() ==> (#[trigger] pairs@[i]).0.wf() && pairs@[i].1.wf(),
    {
        let mut pairs: Vec<(VoxString, VoxString)> = Vec::new();
        proof {
            lemma_keys();
            lemma_attrs_pairs_size(self@);
            assert(pairs_view(pairs@) =~= Seq::<(Seq<char>, Seq<char>)>::empty());
        }
        match &self.name {
            Some(name) => {
                let key = VoxString::new(5, "_name".to_owned());
                let value = VoxString::new(byte_len(name.as_str()) as i32, name.clone());
                proof {
                    lemma_pairs_view_push(pairs@, key, value);
                }
                pairs.push((key, value));
            },
            None => {},
        }
        match self.hidden {
            Some(hidden) => {
                let key = VoxString::new(7, "_hidden".to_owned());
                let value = VoxString::new(1, bool_to_string(hidden));
                proof {
                    lemma_pairs_view_push(pairs@, key, value);
                }
                pairs.push((key, value));
            },
            None => {},
        }
        pairs
    }
}

/// What a node is: a placement, a group, or a reference to a model by its
/// id.
#[derive(Debug, PartialEq, Clone, Copy)]
pub enum NodeType {
    Transform(Transform),
    Group,
    Shape(i32),
}

/// A node of the scene graph with the nodes below it.
#[derive(Debug, PartialEq)]
pub struct Node {
    pub node_type: NodeType,
    /// The node's number in the last pre-order numbering.
    pub id: i32,
    /// The ids of the node's children as of the last numbering.
    pub children_ids: Vec<i32>,
    pub attributes: NodeAttributes,
    pub children: Vec<Node>,
}

/// A node with the nodes below it as a mathematical value.
pub struct NodeView {
    pub node_type: NodeType,
    pub id: i32,
    pub children_ids: Seq<i32>,
    pub attributes: AttributesView,
    pub children: Seq<NodeView>,
}

impl View for Node {
    type V = NodeView;

    open spec fn view(&self) -> NodeView
        decreases self,
    {
        NodeView {
            node_type: self.node_type,
            id: self.id,
            children_ids: self.children_ids@,
            attributes: self.attributes@,
            children: views(self.children@),
        }
    }
}

/// The children of a node's view are the views of its children.
pub proof fn lemma_view_children(n: Node)
    ensures
        n@.children == views(n.children@),
        n@.children.len() == n.children@.len(),
        forall|i: int|
            #![trigger n@.children[i]]
            #![trigger n.children@[i]]
            0 <= i < n.children@.len() ==> n@.children[i] == n.children@[i]@,
        n@.node_type == n.node_type,
        n@.id == n.id,
        n@.children_ids == n.children_ids@,
        n@.attributes == n.attributes@,
{
    lemma_views(n.children@);
}

/// The views of a sequence of nodes, one by one.
pub proof fn lemma_views(s: Seq<Node>)
    ensures
        views(s).len() == s.len(),
        forall|i: int|
            #![trigger views(s)[i]]
            #![trigger s[i]]
            0 <= i < s.len() ==> views(s)[i] == s[i]@,
    decreases s.len(),
{
    if s.len() > 0 {
        lemma_views(s.drop_last());
        assert(views(s) == views(s.drop_last()).push(s.last()@));
        assert forall|i: int| 0 <= i < s.len() implies views(s)[i] == s[i]@ by {
            if i < s.len() - 1 {
                assert(s.drop_last()[i] == s[i]);
            }
        }
    }
}

/// The views of a sequence of nodes.
pub open spec fn views(s: Seq<Node>) -> Seq<NodeView>
    decreases s,
{
    if s.len() == 0 {
        Seq::empty()
    } else {
        views(s.drop_last()).push(s.last()@)
    }
}

/// The trees `s` numbered in pre-order, one after the other, from `start`.
pub open spec fn numbered_all(s: Seq<NodeView>, start: int) -> Seq<NodeView>
    decreases s,
{
    if s.len() == 0 {
        Seq::empty()
    } else {
        numbered_all(s.drop_last(), start).push(
            s.last().numbered(start + count_all(s.drop_last())),
        )
    }
}

/// The trees `s`, each with the ids of children listed in every node.
pub open spec fn linked_all(s: Seq<NodeView>) -> Seq<NodeView>
    decreases s,
{
    if s.len() == 0 {
        Seq::empty()
    } else {
        linked_all(s.drop_last()).push(s.last().linked())
    }
}

/// The ids of the roots of the trees `s`.
pub open spec fn ids_of(s: Seq<NodeView>) -> Seq<i32> {
    Seq::new(s.len(), |i: int| s[i].id)
}

/// The number of nodes in the trees `s`.
pub open spec fn count_all(s: Seq<NodeView>) -> nat
    decreases s,
{
    if s.len() == 0 {
        0
    } else {
        count_all(s.drop_last()) + s.last().count()
    }
}

/// The sum of the content sizes of all nodes in the trees `s`.
pub open spec fn total_size_all(s: Seq<NodeView>) -> int
    decreases s,
{
    if s.len() == 0 {
        0
    } else {
        total_size_all(s.drop_last()) + s.last().total_size()
    }
}

/// The chunks of all nodes in the trees `s`, each tree in pre-order.
pub open spec fn subtree_bytes_all(s: Seq<NodeView>) -> Seq<u8>
    decreases s,
{
    if s.len() == 0 {
        Seq::empty()
    } else {
        subtree_bytes_all(s.drop_last()) + s.last().subtree_bytes()
    }
}

impl NodeView {
    /// The number of nodes in the tree.
    pub open spec fn count(self) -> nat
        decreases self,
    {
        1 + count_all(self.children)
    }

    /// The transform node chunk of a transform node.
    pub open spec fn as_ntrn(self, t: Transform) -> NtrnView {
        NtrnView {
            node_id: self.id,
            node_attributes: attrs_pairs(self.attributes),
            child_node_id: self.children_ids[0],
            reserved_id: -1i32,
            layer_id: t.layer,
            num_of_frames: 1,
            frame_attributes: frame_pairs(t),
        }
    }

    /// The group node chunk of a group node.
    pub open spec fn as_ngrp(self) -> NgrpView {
        NgrpView {
            node_id: self.id,
            node_attributes: attrs_pairs(self.attributes),
            child_id: self.children_ids,
        }
    }

    /// The shape node chunk of a shape node.
    pub open spec fn as_nshp(self, model_id: i32) -> NshpView {
        NshpView {
            node_id: self.id,
            node_attributes: attrs_pairs(self.attributes),
            num_of_models: 1,
            model_id,
            model_attributes: Seq::empty(),
        }
    }

    /// The size of the content of the node's own chunk. A transform node
    /// holds five integers and two dictionaries, a group node two integers,
    /// a dictionary and one integer for each child, a shape node three
    /// integers, a dictionary and an empty dictionary.
    pub open spec fn size(self) -> int {
        match self.node_type {
            NodeType::Transform(t) => 20 + dict_size(attrs_pairs(self.attributes)) + dict_size(
                frame_pairs(t),
            ),
            NodeType::Group => 8 + dict_size(attrs_pairs(self.attributes)) + 4
                * self.children.len(),
            NodeType::Shape(_) => 16 + dict_size(attrs_pairs(self.attributes)),
        }
    }

    /// The sum of the content sizes of the node and of every node below it.
    pub open spec fn total_size(self) -> int
        decreases self,
    {
        self.size() + total_size_all(self.children)
    }

    /// The node's own chunk on the wire.
    pub open spec fn bytes(self) -> Seq<u8> {
        match self.node_type {
            NodeType::Transform(t) => ntrn_bytes(self.as_ntrn(t)),
            NodeType::Group => ngrp_bytes(self.as_ngrp()),
            NodeType::Shape(m) => nshp_bytes(self.as_nshp(m)),
        }
    }

    /// The chunks of the node and of every node below it, in pre-order.
    pub open spec fn subtree_bytes(self) -> Seq<u8>
        decreases self,
    {
        self.bytes() + subtree_bytes_all(self.children)
    }

    /// Whether the node's own chunk can be written: its content fits a
    /// 32-bit size, it lists one id for each child, and a transform node has
    /// a child.
    pub open spec fn writable(self) -> bool {
        &&& self.size() <= i32::MAX
        &&& self.children_ids.len() == self.children.len()
        &&& self.node_type is Transform ==> self.children.len() >= 1
    }

    /// Whether the chunk of every node of the tree can be written.
    pub open spec fn all_writable(self) -> bool
        decreases self,
    {
        &&& self.writable()
        &&& forall|i: int|
            0 <= i < self.children.len() ==> (#[trigger] self.children[i]).all_writable()
    }

    /// Whether the tree can be written once it is numbered: the content of
    /// every node fits a 32-bit size, and every transform node has a child.
    pub open spec fn encodable(self) -> bool
        decreases self,
    {
        &&& self.size() <= i32::MAX
        &&& self.node_type is Transform ==> self.children.len() >= 1
        &&& forall|i: int|
            0 <= i < self.children.len() ==> (#[trigger] self.children[i]).encodable()
    }

    /// Whether every transform node of the tree has a child.
    pub open spec fn shaped(self) -> bool
        decreases self,
    {
        &&& self.node_type is Transform ==> self.children.len() >= 1
        &&& forall|i: int| 0 <= i < self.children.len() ==> (#[trigger] self.children[i]).shaped()
    }

    /// The tree numbered in pre-order from `start`: the node gets `start`,
    /// and each child the number after the last one used before it.
    pub open spec fn numbered(self, start: int) -> NodeView
        decreases self,
    {
        NodeView {
            node_type: self.node_type,
            id: start as i32,
            children_ids: self.children_ids,
            attributes: self.attributes,
            children: numbered_all(self.children, start + 1),
        }
    }

    /// The tree in which every node lists the ids of its children.
    pub open spec fn linked(self) -> NodeView
        decreases self,
    {
        NodeView {
            node_type: self.node_type,
            id: self.id,
            children_ids: ids_of(self.children),
            attributes: self.attributes,
            children: linked_all(self.children),
        }
    }
}

/// The number of nodes in a prefix of a sequence of trees.
pub proof fn lemma_count_all_take(s: Seq<NodeView>, i: int)
    requires
        0 <= i < s.len(),
    ensures
        count_all(s.take(i + 1)) == count_all(s.take(i)) + s[i].count(),
        count_all(s.take(i + 1)) <= count_all(s),
        total_size_all(s.take(i + 1)) == total_size_all(s.take(i)) + s[i].total_size(),
        subtree_bytes_all(s.take(i + 1)) == subtree_bytes_all(s.take(i)) + s[i].subtree_bytes(),
    decreases s.len(),
{
    assert(s.take(i + 1).drop_last() =~= s.take(i));
    assert(s.take(i + 1).last() == s[i]);
    if i + 1 < s.len() {
        lemma_count_all_take(s.drop_last(), i);
        assert(s.drop_last().take(i + 1) =~= s.take(i + 1));
    } else {
        assert(s.take(i + 1) =~= s);
    }
}

/// The sizes of nodes and trees are not negative.
pub proof fn lemma_size_nonneg(n: NodeView)
    ensures
        n.size() >= 12,
        n.total_size() >= n.size(),
    decreases n,
{
    lemma_dict_bytes_len(attrs_pairs(n.attributes));
    match n.node_type {
        NodeType::Transform(t) => {
            lemma_frame_pairs_size(t);
        },
        _ => {},
    }
    lemma_total_size_all_nonneg(n.children);
}

/// The sizes of sequences of trees are not negative, and grow with the
/// sequence.
pub proof fn lemma_total_size_all_nonneg(s: Seq<NodeView>)
    ensures
        total_size_all(s) >= 0,
        forall|i: int| 0 <= i <= s.len() ==> 0 <= #[trigger] total_size_all(s.take(i)) <= total_size_all(s),
        forall|i: int| 0 <= i < s.len() ==> (#[trigger] s[i]).total_size() <= total_size_all(s),
    decreases s,
{
    if s.len() > 0 {
        let front = s.drop_last();
        lemma_total_size_all_nonneg(front);
        lemma_size_nonneg(s.last());
        assert forall|i: int| 0 <= i <= s.len() implies 0 <= #[trigger] total_size_all(s.take(i))
            <= total_size_all(s) by {
            if i < s.len() {
                assert(s.take(i) =~= front.take(i));
            } else {
                assert(s.take(i) =~= s);
            }
        }
        assert forall|i: int| 0 <= i < s.len() implies (#[trigger] s[i]).total_size()
            <= total_size_all(s) by {
            if i < s.len() - 1 {
                assert(front[i] == s[i]);
            }
        }
    } else {
        assert forall|i: int| 0 <= i <= s.len() implies 0 <= #[trigger] total_size_all(s.take(i))
            <= total_size_all(s) by {
            assert(s.take(i) =~= s);
        }
    }
}

/// The trees of a numbered sequence, one by one.
pub proof fn lemma_numbered_all(s: Seq<NodeView>, start: int)
    ensures
        numbered_all(s, start).len() == s.len(),
        forall|i: int|
            0 <= i < s.len() ==> #[trigger] numbered_all(s, start)[i] == s[i].numbered(
                start + count_all(s.take(i)),
            ),
    decreases s.len(),
{
    if s.len() > 0 {
        let front = s.drop_last();
        lemma_numbered_all(front, start);
        assert(numbered_all(s, start) == numbered_all(front, start).push(
            s.last().numbered(start + count_all(front)),
        ));
        assert forall|i: int| 0 <= i < s.len() implies #[trigger] numbered_all(s, start)[i]
            == s[i].numbered(start + count_all(s.take(i))) by {
            if i < s.len() - 1 {
                assert(front[i] == s[i]);
                assert(front.take(i) =~= s.take(i));
            } else {
                assert(s.take(i) =~= front);
            }
        }
    }
}

/// The trees of a linked sequence, one by one.
pub proof fn lemma_linked_all(s: Seq<NodeView>)
    ensures
        linked_all(s).len() == s.len(),
        forall|i: int| 0 <= i < s.len() ==> #[trigger] linked_all(s)[i] == s[i].linked(),
    decreases s.len(),
{
    if s.len() > 0 {
        let front = s.drop_last();
        lemma_linked_all(front);
        assert(linked_all(s) == linked_all(front).push(s.last().linked()));
        assert forall|i: int| 0 <= i < s.len() implies #[trigger] linked_all(s)[i]
            == s[i].linked() by {
            if i < s.len() - 1 {
                assert(front[i] == s[i]);
            }
        }
    }
}

/// Numbering changes the ids and nothing else: the tree keeps its shape,
/// its sizes and its number of nodes.
pub proof fn lemma_numbered(n: NodeView, start: int)
    ensures
        n.numbered(start).node_type == n.node_type,
        n.numbered(start).attributes == n.attributes,
        n.numbered(start).children_ids == n.children_ids,
        n.numbered(start).children.len() == n.children.len(),
        n.numbered(start).id == start as i32,
        n.numbered(start).size() == n.size(),
        n.numbered(start).count() == n.count(),
        n.numbered(start).total_size() == n.total_size(),
        n.numbered(start).encodable() == n.encodable(),
    decreases n, 1int,
{
    lemma_numbered_all(n.children, start + 1);
    lemma_numbered_seq(n.children, start + 1);
    let m = n.numbered(start);
    assert(m.children == numbered_all(n.children, start + 1));
    if n.encodable() {
        assert forall|i: int| 0 <= i < m.children.len() implies (#[trigger] m.children[i]).encodable() by {
            assert(n.children[i].encodable());
            lemma_numbered(n.children[i], start + 1 + count_all(n.children.take(i)));
        }
    }
    if m.encodable() {
        assert forall|i: int| 0 <= i < n.children.len() implies (#[trigger] n.children[i]).encodable() by {
            assert(m.children[i].encodable());
            lemma_numbered(n.children[i], start + 1 + count_all(n.children.take(i)));
        }
    }
}

/// Numbering a sequence of trees keeps its sizes and its number of nodes.
pub proof fn lemma_numbered_seq(s: Seq<NodeView>, start: int)
    ensures
        count_all(numbered_all(s, start)) == count_all(s),
        total_size_all(numbered_all(s, start)) == total_size_all(s),
    decreases s, 0int,
{
    if s.len() > 0 {
        let front = s.drop_last();
        lemma_numbered_seq(front, start);
        lemma_numbered(s.last(), start + count_all(front));
        let m = numbered_all(s, start);
        assert(m == numbered_all(front, start).push(s.last().numbered(start + count_all(front))));
        assert(m.drop_last() =~= numbered_all(front, start));
    }
}

/// Linking changes the lists of child ids and nothing else.
pub proof fn lemma_linked(n: NodeView)
    ensures
        n.linked().node_type == n.node_type,
        n.linked().attributes == n.attributes,
        n.linked().id == n.id,
        n.linked().children.len() == n.children.len(),
        n.linked().children_ids.len() == n.children.len(),
        n.linked().size() == n.size(),
        n.linked().count() == n.count(),
        n.linked().total_size() == n.total_size(),
        n.encodable() ==> n.linked().all_writable(),
    decreases n, 1int,
{
    lemma_linked_all(n.children);
    lemma_linked_seq(n.children);
    let m = n.linked();
    assert(m.children == linked_all(n.children));
    if n.encodable() {
        assert forall|i: int| 0 <= i < m.children.len() implies (#[trigger] m.children[i]).all_writable() by {
            assert(n.children[i].encodable());
            lemma_linked(n.children[i]);
        }
    }
}

/// Linking a sequence of trees keeps its sizes and its number of nodes.
pub proof fn lemma_linked_seq(s: Seq<NodeView>)
    ensures
        count_all(linked_all(s)) == count_all(s),
        total_size_all(linked_all(s)) == total_size_all(s),
    decreases s, 0int,
{
    if s.len() > 0 {
        let front = s.drop_last();
        lemma_linked_seq(front);
        lemma_linked(s.last());
        let m = linked_all(s);
        assert(m == linked_all(front).push(s.last().linked()));
        assert(m.drop_last() =~= linked_all(front));
    }
}

/// A tree whose transform nodes have children and whose sizes together fit
/// a 32-bit size can be written once numbered.
pub proof fn lemma_encodable(n: NodeView)
    requires
        n.shaped(),
        n.total_size() <= i32::MAX,
    ensures
        n.encodable(),
    decreases n,
{
    lemma_size_nonneg(n);
    lemma_total_size_all_nonneg(n.children);
    assert forall|i: int| 0 <= i < n.children.len() implies (#[trigger] n.children[i]).encodable() by {
        assert(n.children[i].shaped());
        lemma_encodable(n.children[i]);
    }
}

/// A tree that can be written once numbered can be written after it was
/// numbered and linked.
pub proof fn lemma_write_ready(n: NodeView, start: int)
    requires
        n.encodable(),
    ensures
        n.numbered(start).linked().all_writable(),
        n.numbered(start).linked().count() == n.count(),
        n.numbered(start).linked().total_size() == n.total_size(),
{
    lemma_numbered(n, start);
    lemma_linked(n.numbered(start));
}

/// The chunk of a node takes twelve bytes more than the size of its
/// content.
pub proof fn lemma_node_bytes_len(n: NodeView)
    requires
        n.children_ids.len() == n.children.len(),
    ensures
        n.bytes().len() == n.size() + 12,
{
    match n.node_type {
        NodeType::Transform(t) => {
            lemma_ntrn_len(n.as_ntrn(t));
        },
        NodeType::Group => {
            lemma_ngrp_len(n.as_ngrp());
        },
        NodeType::Shape(m) => {
            lemma_nshp_len(n.as_nshp(m));
            assert(pairs_size(Seq::<(Seq<char>, Seq<char>)>::empty()) == 0);
        },
    }
}

/// The chunks of a tree take, for each node, twelve bytes more than the size
/// of its content.
pub proof fn lemma_subtree_bytes_len(n: NodeView)
    requires
        n.all_writable(),
    ensures
        n.subtree_bytes().len() == n.total_size() + 12 * n.count(),
    decreases n, 1int,
{
    lemma_node_bytes_len(n);
    lemma_subtree_bytes_all_len(n.children);
}

/// The chunks of a sequence of trees take, for each node, twelve bytes more
/// than the size of its content.
pub proof fn lemma_subtree_bytes_all_len(s: Seq<NodeView>)
    requires
        forall|i: int| 0 <= i < s.len() ==> (#[trigger] s[i]).all_writable(),
    ensures
        subtree_bytes_all(s).len() == total_size_all(s) + 12 * count_all(s),
    decreases s, 0int,
{
    if s.len() > 0 {
        let front = s.drop_last();
        assert forall|i: int| 0 <= i < front.len() implies (#[trigger] front[i]).all_writable() by {
            assert(front[i] == s[i]);
        }
        lemma_subtree_bytes_all_len(front);
        lemma_subtree_bytes_len(s.last());
    }
}

impl Clone for Node {
    fn clone(&self) -> (r: Node)
        ensures
            r@ == self@,
        decreases self,
    {
        let mut children: Vec<Node> = Vec::new();
        let mut i: usize = 0;
        while i < self.children.len()
            invariant
                i <= self.children.len(),
                children@.len() == i,
                forall|j: int| 0 <= j < i ==> (#[trigger] children@[j])@ == self.children@[j]@,
            decreases self.children.len() - i,
        {
            children.push(self.children[i].clone());
            i = i + 1;
        }
        let r = Node {
            node_type: self.node_type,
            id: self.id,
            children_ids: self.children_ids.clone(),
            attributes: self.attributes.clone(),
            children,
        };
        proof {
            lemma_view_children(r);
            lemma_view_children(*self);
            assert(r@.children =~= self@.children);
        }
        r
    }
}

impl Node {
    /// Appends `node` to the children.
    pub fn add_child(&mut self, node: Node)
        ensures
            final(self).children@ == old(self).children@.push(node),
            final(self).node_type == old(self).node_type,
            final(self).id == old(self).id,
            final(self).children_ids == old(self).children_ids,
            final(self).attributes == old(self).attributes,
            final(self)@.children == old(self)@.children.push(node@),
    {
        self.children.push(node);
        proof {
            lemma_view_children(*self);
            lemma_view_children(*old(self));
            assert(self@.children =~= old(self)@.children.push(node@));
        }
    }

    /// A node without children and without a number.
    pub fn new(node_type: NodeType, attribs: NodeAttributes) -> (n: Node)
        ensures
            n.node_type == node_type,
            n.id == 0,
            n.children_ids@.len() == 0,
            n.attributes == attribs,
            n.children@.len() == 0,
    {
        Node { node_type, id: 0, children_ids: Vec::new(), attributes: attribs, children: Vec::new() }
    }

    /// Whether one of the children is a shape node.
    pub fn has_child_shape(&self) -> (r: bool)
        ensures
            r == exists|i: int|
                0 <= i < self.children@.len() && (#[trigger] self.children@[i]).node_type is Shape,
    {
        let mut i: usize = 0;
        while i < self.children.len()
            invariant
                i <= self.children.len(),
                forall|j: int| 0 <= j < i ==> !((#[trigger] self.children@[j]).node_type is Shape),
            decreases self.children.len() - i,
        {
            match self.children[i].node_type {
                NodeType::Shape(_) => {
                    return true;
                },
                _ => {},
            }
            i = i + 1;
        }
        false
    }
    /// Numbers the tree in pre-order from `start` and returns the last
    /// number used.
    pub fn number_nodes(&mut self, start: i32) -> (last: i32)
        requires
            start + old(self)@.count() - 1 <= i32::MAX,
        ensures
            final(self)@ == old(self)@.numbered(start as int),
            last == start + old(self)@.count() - 1,
        decreases *old(self),
    {
        let mut id: i32 = start;
        self.id = start;
        let n = self.children.len();
        let mut i: usize = 0;
        proof {
            lemma_view_children(*old(self));
            assert(old(self)@.children.take(0) =~= Seq::<NodeView>::empty());
        }
        while i < n
            invariant
                i <= n,
                n == self.children.len(),
                n == old(self).children.len(),
                self.id == start,
                self.node_type == old(self).node_type,
                self.children_ids == old(self).children_ids,
                self.attributes == old(self).attributes,
                old(self)@.children == views(old(self).children@),
                start + old(self)@.count() - 1 <= i32::MAX,
                id == start + count_all(old(self)@.children.take(i as int)),
                forall|j: int|
                    0 <= j < i ==> (#[trigger] self.children@[j])@ == old(self)@.children[j].numbered(
                        start + 1 + count_all(old(self)@.children.take(j)),
                    ),
                forall|j: int| i <= j < n ==> self.children@[j] == old(self).children@[j],
            decreases n - i,
        {
            proof {
                lemma_views(old(self).children@);
                lemma_count_all_take(old(self)@.children, i as int);
                assert(old(self)@.children.take(n as int) =~= old(self)@.children);
            }
            id = id + 1;
            id = self.children[i].number_nodes(id);
            i = i + 1;
        }
        proof {
            assert(old(self)@.children.take(n as int) =~= old(self)@.children);
            lemma_view_children(*self);
            lemma_numbered_all(old(self)@.children, start + 1);
            assert(self@.children =~= numbered_all(old(self)@.children, start + 1));
        }
        id
    }

    /// Lists in every node of the tree the ids of its children.
    pub fn number_children_ids(&mut self)
        ensures
            final(self)@ == old(self)@.linked(),
        decreases *old(self),
    {
        let mut ids: Vec<i32> = Vec::new();
        let n = self.children.len();
        let mut i: usize = 0;
        proof {
            lemma_view_children(*old(self));
        }
        while i < n
            invariant
                i <= n,
                n == self.children.len(),
                n == old(self).children.len(),
                self.id == old(self).id,
                self.node_type == old(self).node_type,
                self.attributes == old(self).attributes,
                old(self)@.children == views(old(self).children@),
                ids@.len() == i,
                forall|j: int| 0 <= j < i ==> ids@[j] == (#[trigger] old(self)@.children[j]).id,
                forall|j: int|
                    0 <= j < i ==> (#[trigger] self.children@[j])@ == old(self)@.children[j].linked(),
                forall|j: int| i <= j < n ==> self.children@[j] == old(self).children@[j],
            decreases n - i,
        {
            proof {
                lemma_views(old(self).children@);
                lemma_view_children(self.children@[i as int]);
            }
            ids.push(self.children[i].id);
            self.children[i].number_children_ids();
            i = i + 1;
        }
        self.children_ids = ids;
        proof {
            lemma_view_children(*self);
            lemma_linked_all(old(self)@.children);
            assert(self@.children =~= linked_all(old(self)@.children));
            assert(self@.children_ids =~= ids_of(old(self)@.children));
        }
    }

    /// The number of nodes below this node.
    pub fn num_children(&self) -> (n: i32)
        requires
            self@.count() - 1 <= i32::MAX,
        ensures
            n == self@.count() - 1,
        decreases self,
    {
        let mut num: i32 = 0;
        let mut i: usize = 0;
        proof {
            lemma_view_children(*self);
            assert(self@.children.take(0) =~= Seq::<NodeView>::empty());
        }
        while i < self.children.len()
            invariant
                i <= self.children.len(),
                self@.children == views(self.children@),
                self@.count() - 1 <= i32::MAX,
                num == count_all(self@.children.take(i as int)),
            decreases self.children.len() - i,
        {
            proof {
                lemma_views(self.children@);
                lemma_count_all_take(self@.children, i as int);
                assert(self@.children.take(self.children@.len() as int) =~= self@.children);
            }
            num = num + 1 + self.children[i].num_children();
            i = i + 1;
        }
        proof {
            assert(self@.children.take(self.children@.len() as int) =~= self@.children);
        }
        num
    }

    /// Appends the node's own chunk to `out`.
    pub fn write(&self, out: &mut Vec<u8>)
        requires
            self@.writable(),
        ensures
            final(out)@ == old(out)@ + self@.bytes(),
    {
        proof {
            lemma_view_children(*self);
            lemma_dict_bytes_len(attrs_pairs(self.attributes@));
        }
        match self.node_type {
            NodeType::Transform(trans) => {
                proof {
                    lemma_frame_pairs_size(trans);
                }
                let chunk = nTRN {
                    node_id: self.id,
                    node_attributes: self.attributes.to_dict(),
                    child_node_id: self.children_ids[0],
                    reserved_id: -1,
                    layer_id: trans.layer,
                    num_of_frames: 1,
                    frame_attributes: trans.to_dict(),
                };
                assert(chunk@ == self@.as_ntrn(trans));
                chunk.write(out);
            },
            NodeType::Group => {
                let chunk = nGRP {
                    node_id: self.id,
                    node_attributes: self.attributes.to_dict(),
                    num_of_children_nodes: self.children.len() as i32,
                    child_id: self.children_ids.clone(),
                };
                assert(chunk@ == self@.as_ngrp());
                chunk.write(out);
            },
            NodeType::Shape(model_id) => {
                let chunk = nSHP {
                    node_id: self.id,
                    node_attributes: self.attributes.to_dict(),
                    num_of_models: 1,
                    model_id,
                    model_attributes: Dict { num_of_pairs: 0, pairs: Vec::new() },
                };
                proof {
                    assert(chunk.model_attributes@ =~= Seq::<(Seq<char>, Seq<char>)>::empty());
                    assert(pairs_size(Seq::<(Seq<char>, Seq<char>)>::empty()) == 0);
                    assert(chunk@ == self@.as_nshp(model_id));
                }
                chunk.write(out);
            },
        }
    }

    /// Appends the chunks of all nodes below this node to `out`, in
    /// pre-order.
    pub fn write_children(&self, out: &mut Vec<u8>)
        requires
            forall|i: int|
                0 <= i < self@.children.len() ==> (#[trigger] self@.children[i]).all_writable(),
        ensures
            final(out)@ == old(out)@ + subtree_bytes_all(self@.children),
        decreases self,
    {
        let mut i: usize = 0;
        proof {
            lemma_view_children(*self);
            assert(self@.children.take(0) =~= Seq::<NodeView>::empty());
        }
        while i < self.children.len()
            invariant
                i <= self.children.len(),
                self@.children == views(self.children@),
                forall|i: int|
                    0 <= i < self@.children.len() ==> (#[trigger] self@.children[i]).all_writable(),
                out@ == old(out)@ + subtree_bytes_all(self@.children.take(i as int)),
            decreases self.children.len() - i,
        {
            proof {
                lemma_views(self.children@);
                lemma_count_all_take(self@.children, i as int);
                assert(self@.children[i as int].all_writable());
            }
            let child = &self.children[i];
            child.write(out);
            child.write_children(out);
            proof {
                assert(out@ =~= old(out)@ + subtree_bytes_all(self@.children.take(i as int + 1)));
            }
            i = i + 1;
        }
        proof {
            assert(self@.children.take(self.children@.len() as int) =~= self@.children);
        }
    }

    /// Numbers the tree from 0, lists the ids of children in every node,
    /// and appends the chunks of all nodes to `out`, in pre-order.
    pub fn write_all(&mut self, out: &mut Vec<u8>)
        requires
            old(self)@.encodable(),
            old(self)@.count() - 1 <= i32::MAX,
        ensures
            final(self)@ == old(self)@.numbered(0).linked(),
            final(out)@ == old(out)@ + final(self)@.subtree_bytes(),
    {
        proof {
            lemma_write_ready(old(self)@, 0);
        }
        self.number_nodes(0);
        self.number_children_ids();
        self.write(out);
        self.write_children(out);
        assert(out@ =~= old(out)@ + self@.subtree_bytes());
    }

    /// The size of the content of the node's own chunk.
    pub fn get_size(&self) -> (n: i32)
        requires
            self@.size() <= i32::MAX,
        ensures
            n == self@.size(),
    {
        proof {
            lemma_view_children(*self);
            lemma_dict_bytes_len(attrs_pairs(self.attributes@));
        }
        match self.node_type {
            NodeType::Transform(trans) => {
                proof {
                    lemma_frame_pairs_size(trans);
                }
                let chunk = nTRN {
                    node_id: 0,
                    node_attributes: self.attributes.to_dict(),
                    child_node_id: 0,
                    reserved_id: 0,
                    layer_id: -1,
                    num_of_frames: 1,
                    frame_attributes: trans.to_dict(),
                };
                chunk.get_size()
            },
            NodeType::Group => {
                let chunk = nGRP {
                    node_id: 0,
                    node_attributes: self.attributes.to_dict(),
                    num_of_children_nodes: self.children.len() as i32,
                    child_id: zeros(self.children.len()),
                };
                chunk.get_size()
            },
            NodeType::Shape(model_id) => {
                let chunk = nSHP {
                    node_id: 0,
                    node_attributes: self.attributes.to_dict(),
                    num_of_models: 1,
                    model_id,
                    model_attributes: Dict { num_of_pairs: 0, pairs: Vec::new() },
                };
                proof {
                    assert(chunk.model_attributes@ =~= Seq::<(Seq<char>, Seq<char>)>::empty());
                    assert(pairs_size(Seq::<(Seq<char>, Seq<char>)>::empty()) == 0);
                }
                chunk.get_size()
            },
        }
    }

    /// Adds to `size` the content sizes of all nodes below this node.
    pub fn get_children_size(&self, size: &mut i32)
        requires
            total_size_all(self@.children) <= i32::MAX,
            *old(size) + total_size_all(self@.children) <= i32::MAX,
        ensures
            *final(size) == *old(size) + total_size_all(self@.children),
        decreases self,
    {
        let mut i: usize = 0;
        proof {
            lemma_view_children(*self);
            assert(self@.children.take(0) =~= Seq::<NodeView>::empty());
            lemma_total_size_all_nonneg(self@.children);
        }
        while i < self.children.len()
            invariant
                i <= self.children.len(),
                self@.children == views(self.children@),
                total_size_all(self@.children) <= i32::MAX,
                *old(size) + total_size_all(self@.children) <= i32::MAX,
                *size == *old(size) + total_size_all(self@.children.take(i as int)),
                forall|i: int|
                    0 <= i <= self@.children.len() ==> 0 <= #[trigger] total_size_all(
                        self@.children.take(i),
                    ) <= total_size_all(self@.children),
                forall|i: int|
                    0 <= i < self@.children.len() ==> (#[trigger] self@.children[i]).total_size()
                        <= total_size_all(self@.children),
            decreases self.children.len() - i,
        {
            proof {
                lemma_views(self.children@);
                lemma_count_all_take(self@.children, i as int);
                lemma_size_nonneg(self@.children[i as int]);
                lemma_total_size_all_nonneg(self@.children[i as int].children);
                assert(total_size_all(self@.children.take(i as int + 1)) <= total_size_all(
                    self@.children,
                ));
            }
            let child = &self.children[i];
            *size = *size + child.get_size();
            child.get_children_size(size);
            i = i + 1;
        }
        proof {
            assert(self@.children.take(self.children@.len() as int) =~= self@.children);
        }
    }

    /// The sum of the content sizes of the node and of every node below it.
    pub fn get_all_size(&self) -> (n: i32)
        requires
            self@.total_size() <= i32::MAX,
        ensures
            n == self@.total_size(),
    {
        proof {
            lemma_size_nonneg(self@);
            lemma_total_size_all_nonneg(self@.children);
        }
        let mut size: i32 = self.get_size();
        self.get_children_size(&mut size);
        size
    }
}

/// A vector of `n` zeros.
fn zeros(n: usize) -> (v: Vec<i32>)
    ensures
        v@.len() == n,
{
    let mut v: Vec<i32> = Vec::new();
    let mut i: usize = 0;
    while i < n
        invariant
            i <= n,
            v@.len() == i,
        decreases n - i,
    {
        v.push(0);
        i = i + 1;
    }
    v
}

/// What is left of `budget` after `amount`, if that much is left.
pub fn spend(budget: i32, amount: usize) -> (r: Option<i32>)
    requires
        0 <= budget,
    ensures
        amount <= budget ==> r == Some((budget - amount) as i32),
        amount > budget ==> r is None,
{
    if amount > budget as usize {
        None
    } else {
        Some(budget - amount as i32)
    }
}

/// What is left of `budget` after four times `amount`, if that much is left.
pub fn spend4(budget: i32, amount: usize) -> (r: Option<i32>)
    requires
        0 <= budget,
    ensures
        4 * amount <= budget ==> r == Some((budget - 4 * amount) as i32),
        4 * amount > budget ==> r is None,
{
    if amount > (budget / 4) as usize {
        None
    } else {
        Some(budget - 4 * (amount as i32))
    }
}

impl NodeAttributes {
    /// What is left of `budget` after the size of the attribute dictionary,
    /// if that much is left.
    pub fn room_after(&self, budget: i32) -> (r: Option<i32>)
        requires
            0 <= budget,
        ensures
            dict_size(attrs_pairs(self@)) <= budget ==> r == Some(
                (budget - dict_size(attrs_pairs(self@))) as i32,
            ),
            dict_size(attrs_pairs(self@)) > budget ==> r is None,
    {
        proof {
            lemma_attrs_pairs_size(self@);
        }
        let fixed: usize = 4 + (if self.name.is_some() {
            13
        } else {
            0
        }) + (if self.hidden.is_some() {
            16
        } else {
            0
        });
        let left = match spend(budget, fixed) {
            Some(b) => b,
            None => { return None; },
        };
        match &self.name {
            Some(name) => spend(left, byte_len(name.as_str())),
            None => Some(left),
        }
    }
}

impl Node {
    /// What is left of `budget` after the chunks of the node and of every
    /// node below it, if that much is left.
    pub fn room_after(&self, budget: i32) -> (r: Option<i32>)
        requires
            0 <= budget,
        ensures
            self@.total_size() + 12 * self@.count() <= budget ==> r == Some(
                (budget - (self@.total_size() + 12 * self@.count())) as i32,
            ),
            self@.total_size() + 12 * self@.count() > budget ==> r is None,
        decreases self,
    {
        proof {
            lemma_view_children(*self);
            lemma_size_nonneg(self@);
            lemma_total_size_all_nonneg(self@.children);
            lemma_dict_bytes_len(attrs_pairs(self.attributes@));
            match self.node_type {
                NodeType::Transform(trans) => {
                    lemma_frame_pairs_size(trans);
                },
                _ => {},
            }
        }
        let own = match self.attributes.room_after(budget) {
            Some(b) => b,
            None => { return None; },
        };
        let mut left = match self.node_type {
            NodeType::Transform(trans) => {
                proof {
                    lemma_frame_pairs_size(trans);
                }
                match spend(own, 32 + trans.to_dict().get_size() as usize) {
                    Some(b) => b,
                    None => { return None; },
                }
            },
            NodeType::Group => {
                let b = match spend(own, 20) {
                    Some(b) => b,
                    None => { return None; },
                };
                match spend4(b, self.children.len()) {
                    Some(b) => b,
                    None => { return None; },
                }
            },
            NodeType::Shape(_) => {
                match spend(own, 28) {
                    Some(b) => b,
                    None => { return None; },
                }
            },
        };
        let mut i: usize = 0;
        proof {
            assert(self@.children.take(0) =~= Seq::<NodeView>::empty());
        }
        while i < self.children.len()
            invariant
                i <= self.children.len(),
                0 <= left,
                0 <= budget,
                self@.children == views(self.children@),
                self@.size() >= 12,
                left == budget - (self@.size() + 12) - (total_size_all(
                    self@.children.take(i as int),
                ) + 12 * count_all(self@.children.take(i as int))),
                forall|i: int|
                    0 <= i <= self@.children.len() ==> 0 <= #[trigger] total_size_all(
                        self@.children.take(i),
                    ) <= total_size_all(self@.children),
            decreases self.children.len() - i,
        {
            proof {
                lemma_views(self.children@);
                lemma_count_all_take(self@.children, i as int);
                lemma_size_nonneg(self@.children[i as int]);
                lemma_spent_grows(self@.children, i as int + 1);
            }
            left = match self.children[i].room_after(left) {
                Some(b) => b,
                None => { return None; },
            };
            i = i + 1;
        }
        proof {
            assert(self@.children.take(self.children@.len() as int) =~= self@.children);
        }
        Some(left)
    }
}

/// The chunks of a prefix of a sequence of trees take no more bytes than
/// those of the sequence.
pub proof fn lemma_spent_grows(s: Seq<NodeView>, i: int)
    requires
        0 <= i <= s.len(),
    ensures
        total_size_all(s.take(i)) + 12 * count_all(s.take(i)) <= total_size_all(s) + 12 * count_all(
            s,
        ),
        total_size_all(s.take(i)) >= 0,
    decreases s.len() - i,
{
    lemma_total_size_all_nonneg(s.take(i));
    if i < s.len() {
        lemma_spent_grows(s, i + 1);
        lemma_count_all_take(s, i);
        lemma_size_nonneg(s[i]);
    } else {
        assert(s.take(i) =~= s);
    }
}

} // verus!
