//! Reconciliation of the scene graph with the models and copies.
//!
//! Flattening walks the tree and hands each placement, a transform node
//! whose first child is a shape node, to the model it names: the first
//! placement of a model id is written onto the models with that id, every
//! later one becomes a copy. Rebuilding goes the other way and makes the
//! tree that is written: a root transform node above a group node, and below
//! the group one placement for each model and each copy.
use crate::copy::CopyView;
use crate::model::placement_node;
use crate::model::ModelView;
use crate::node::lemma_view_children;
use crate::node::lemma_views;
use crate::node::views;
use crate::node::AttributesView;
use crate::node::Node;
use crate::node::NodeAttributes;
use crate::node::NodeType;
use crate::node::NodeView;
use crate::node::Transform;
use crate::riff::tree::leaf;
use crate::riff::tree::with_children;
use crate::text::text_of;
use crate::voxfile::VoxFile;
use crate::voxfile::VoxFileView;
use vstd::prelude::*;

verus! {

/// Where the scene graph places a model.
pub struct Placement {
    pub model_id: i32,
    pub position: Option<(i32, i32, i32)>,
    pub layer: Option<i32>,
    pub rotation: Option<u8>,
    pub name: Option<Seq<char>>,
}

/// The models and copies of a scene, with the model ids that the walk has
/// met so far.
pub struct Scene {
    pub models: Seq<ModelView>,
    pub copies: Seq<CopyView>,
    pub used: Seq<i32>,
}

/// The low eight bits of `v`.
pub open spec fn low_byte(v: i32) -> u8 {
    (v as int % 256) as u8
}

/// The placement that a node gives: that of a transform node whose first
/// child is a shape node. The layer -1 stands for no layer, and the rotation
/// code is the low byte of the rotation.
pub open spec fn placement_of(n: NodeView) -> Option<Placement> {
    match n.node_type {
        NodeType::Transform(t) => if n.children.len() > 0 {
            match n.children[0].node_type {
                NodeType::Shape(model_id) => Some(
                    Placement {
                        model_id,
                        position: t.translation,
                        layer: if t.layer == -1 {
                            None
                        } else {
                            Some(t.layer)
                        },
                        rotation: match t.rotation {
                            Some(r) => Some(low_byte(r)),
                            None => None,
                        },
                        name: n.attributes.name,
                    },
                ),
                _ => None,
            }
        } else {
            None
        },
        _ => None,
    }
}

/// The model `m` with the placement `p`, if `p` names it.
pub open spec fn placed(m: ModelView, p: Placement) -> ModelView {
    if m.id == p.model_id {
        ModelView { position: p.position, layer: p.layer, rotation: p.rotation, name: p.name, ..m }
    } else {
        m
    }
}

/// The copy that carries the placement `p`.
pub open spec fn copy_of(p: Placement) -> CopyView {
    CopyView {
        model_id: p.model_id,
        position: p.position,
        rotation: p.rotation,
        layer: p.layer,
        name: p.name,
    }
}

/// The scene after the placement `p`: a copy more where the model id was
/// met before; else the models with that id placed, and the id met.
pub open spec fn place(sc: Scene, p: Placement) -> Scene {
    if sc.used.contains(p.model_id) {
        Scene { copies: sc.copies.push(copy_of(p)), ..sc }
    } else {
        Scene {
            models: Seq::new(sc.models.len(), |i: int| placed(sc.models[i], p)),
            used: sc.used.push(p.model_id),
            ..sc
        }
    }
}

/// The scene after the walk has visited the node `n` itself.
pub open spec fn visit(n: NodeView, sc: Scene) -> Scene {
    match placement_of(n) {
        Some(p) => place(sc, p),
        None => sc,
    }
}

/// The scene after the walk through the tree `n`: the node first, then its
/// children in their order, each with all that lies below it.
pub open spec fn flatten(n: NodeView, sc: Scene) -> Scene
    decreases n,
{
    flatten_all(n.children, visit(n, sc))
}

/// The scene after the walk through the trees `s`, one after the other.
pub open spec fn flatten_all(s: Seq<NodeView>, sc: Scene) -> Scene
    decreases s,
{
    if s.len() == 0 {
        sc
    } else {
        flatten(s.last(), flatten_all(s.drop_last(), sc))
    }
}

/// The placement of a model as a pair of nodes.
pub open spec fn model_node(m: ModelView) -> NodeView {
    placement_node(m.id, m.position, m.rotation, m.layer, m.name)
}

/// The placement of a copy as a pair of nodes.
pub open spec fn copy_node(c: CopyView) -> NodeView {
    placement_node(c.model_id, c.position, c.rotation, c.layer, c.name)
}

/// The placements of the models, then those of the copies.
pub open spec fn placement_nodes(models: Seq<ModelView>, copies: Seq<CopyView>) -> Seq<NodeView> {
    Seq::new(models.len(), |i: int| model_node(models[i])) + Seq::new(
        copies.len(),
        |i: int| copy_node(copies[i]),
    )
}

/// The tree that is written for the given models and copies.
pub open spec fn rebuilt(models: Seq<ModelView>, copies: Seq<CopyView>) -> NodeView {
    with_children(
        leaf(
            NodeType::Transform(Transform { layer: -1i32, rotation: None, translation: None }),
            AttributesView { name: None, hidden: None },
        ),
        seq![
            with_children(
                leaf(NodeType::Group, AttributesView { name: None, hidden: None }),
                placement_nodes(models, copies),
            ),
        ],
    )
}

/// The scene that a scene file and a list of ids stand for.
pub open spec fn scene_of(v: VoxFileView, used: Seq<i32>) -> Scene {
    Scene { models: v.models, copies: v.copies, used }
}

/// The low eight bits of `v`.
pub fn low_byte_of(v: i32) -> (b: u8)
    ensures
        b == low_byte(v),
{
    if v >= 0 {
        (v % 256) as u8
    } else {
        let m: i64 = (-(v as i64)) % 256;
        assert((v as int) % 256 == (if m == 0 {
            0
        } else {
            256 - m
        })) by {
            let q = (-(v as int)) / 256;
            assert(-(v as int) == 256 * q + m);
            if m == 0 {
                vstd::arithmetic::div_mod::lemma_fundamental_div_mod_converse(
                    v as int,
                    256,
                    -q,
                    0,
                );
            } else {
                vstd::arithmetic::div_mod::lemma_fundamental_div_mod_converse(
                    v as int,
                    256,
                    -q - 1,
                    256 - m,
                );
            }
        }
        if m == 0 {
            0
        } else {
            (256 - m) as u8
        }
    }
}

/// Whether `ids` holds `id`.
pub fn holds(ids: &Vec<i32>, id: i32) -> (r: bool)
    ensures
        r == ids@.contains(id),
{
    let mut i: usize = 0;
    while i < ids.len()
        invariant
            i <= ids.len(),
            forall|j: int| 0 <= j < i ==> ids@[j] != id,
        decreases ids.len() - i,
    {
        if ids[i] == id {
            return true;
        }
        i = i + 1;
    }
    false
}

impl VoxFile {
    /// The placement that a node gives: the model id, the position, the
    /// layer, the rotation code and the name.
    pub fn check_transform(transform_node: &Node) -> (r: Option<
        (i32, Option<(i32, i32, i32)>, Option<i32>, Option<u8>, Option<String>),
    >)
        ensures
            match placement_of(transform_node@) {
                Some(p) => {
                    &&& r matches Some(t)
                    &&& t.0 == p.model_id
                    &&& t.1 == p.position
                    &&& t.2 == p.layer
                    &&& t.3 == p.rotation
                    &&& match p.name {
                        Some(n) => t.4 matches Some(s) && s@ == n,
                        None => t.4 is None,
                    }
                },
                None => r is None,
            },
    {
        proof {
            lemma_view_children(*transform_node);
            if transform_node.children@.len() > 0 {
                lemma_view_children(transform_node.children@[0]);
            }
        }
        let pos: Option<(i32, i32, i32)>;
        let layer: Option<i32>;
        let rot: Option<u8>;
        match transform_node.node_type {
            NodeType::Transform(trans) => {
                pos = trans.translation;
                layer = if trans.layer == -1 {
                    None
                } else {
                    Some(trans.layer)
                };
                rot = match trans.rotation {
                    None => None,
                    Some(rot) => Some(low_byte_of(rot)),
                };
            },
            _ => {
                return None;
            },
        }
        let id: i32;
        if transform_node.has_child_shape() {
            match transform_node.children[0].node_type {
                NodeType::Shape(shape_id) => {
                    id = shape_id;
                },
                _ => {
                    return None;
                },
            }
        } else {
            return None;
        }
        let name = match &transform_node.attributes.name {
            Some(n) => Some(n.clone()),
            None => None,
        };
        Some((id, pos, layer, rot, name))
    }

    /// Writes the given placement onto every model with the id `id`.
    pub fn change_model_data(
        &mut self,
        id: i32,
        pos: Option<(i32, i32, i32)>,
        layer: Option<i32>,
        rot: Option<u8>,
        name: Option<String>,
    )
        ensures
            ({
                let p = Placement {
                    model_id: id,
                    position: pos,
                    layer,
                    rotation: rot,
                    name: text_of(name),
                };
                final(self)@ == (VoxFileView {
                    models: Seq::new(
                        old(self)@.models.len(),
                        |i: int| placed(old(self)@.models[i], p),
                    ),
                    ..old(self)@
                })
            }),
            final(self).palette == old(self).palette,
            final(self).root_node == old(self).root_node,
            final(self).layers == old(self).layers,
            final(self).copies == old(self).copies,
    {
        let ghost p = Placement {
            model_id: id,
            position: pos,
            layer,
            rotation: rot,
            name: text_of(name),
        };
        let n = self.models.len();
        let mut i: usize = 0;
        while i < n
            invariant
                i <= n,
                n == self.models@.len(),
                n == old(self).models@.len(),
                self.palette == old(self).palette,
                self.root_node == old(self).root_node,
                self.layers == old(self).layers,
                self.copies == old(self).copies,
                p.model_id == id,
                p.position == pos,
                p.layer == layer,
                p.rotation == rot,
                p.name == text_of(name),
                forall|j: int| 0 <= j < i ==> (#[trigger] self.models@[j])@ == placed(old(self).models@[j]@, p),
                forall|j: int| i <= j < n ==> self.models@[j] == old(self).models@[j],
            decreases n - i,
        {
            if self.models[i].id == id {
                let copy = match &name {
                    Some(n) => Some(n.clone()),
                    None => None,
                };
                self.models[i].position = pos;
                self.models[i].layer = layer;
                self.models[i].rotation = rot;
                self.models[i].name = copy;
            }
            i = i + 1;
        }
        assert(self@.models =~= Seq::new(
            old(self)@.models.len(),
            |i: int| placed(old(self)@.models[i], p),
        ));
    }

    /// Hands every placement of the scene graph to the models and copies.
    pub fn get_node_data(&mut self)
        ensures
            scene_of(final(self)@, flatten(old(self)@.root_node, scene_of(old(self)@, Seq::empty())).used)
                == flatten(old(self)@.root_node, scene_of(old(self)@, Seq::empty())),
            final(self)@.palette == old(self)@.palette,
            final(self)@.root_node == old(self)@.root_node,
            final(self)@.layers == old(self)@.layers,
    {
        let mut used_model_ids: Vec<i32> = Vec::new();
        let root = self.root_node.clone();
        root.get_child_data_to_models(self, &mut used_model_ids);
    }

    /// Replaces the scene graph by the tree that is written for the models
    /// and the copies.
    pub fn make_nodes(&mut self)
        ensures
            final(self)@ == (VoxFileView {
                root_node: rebuilt(old(self)@.models, old(self)@.copies),
                ..old(self)@
            }),
            final(self).models == old(self).models,
            final(self).palette == old(self).palette,
            final(self).layers == old(self).layers,
            final(self).copies == old(self).copies,
    {
        let mut root_node = Node::new(
            NodeType::Transform(Transform::default()),
            NodeAttributes::new(),
        );
        let mut group_node = Node::new(NodeType::Group, NodeAttributes::new());
        proof {
            lemma_view_children(root_node);
            lemma_view_children(group_node);
        }
        let ghost bare_root = root_node@;
        let ghost bare_group = group_node@;
        let mut i: usize = 0;
        while i < self.models.len()
            invariant
                i <= self.models.len(),
                *self == *old(self),
                group_node.node_type == bare_group.node_type,
                group_node.id == bare_group.id,
                group_node.children_ids@ == bare_group.children_ids,
                group_node.attributes@ == bare_group.attributes,
                group_node@.children.len() == i,
                forall|j: int|
                    0 <= j < i ==> #[trigger] group_node@.children[j] == model_node(
                        self.models@[j]@,
                    ),
            decreases self.models.len() - i,
        {
            let node = self.models[i].to_node();
            group_node.add_child(node);
            proof {
                lemma_view_children(group_node);
            }
            i = i + 1;
        }
        let mut k: usize = 0;
        let ghost n = self.models@.len() as int;
        while k < self.copies.len()
            invariant
                k <= self.copies.len(),
                n == self.models@.len(),
                *self == *old(self),
                group_node.node_type == bare_group.node_type,
                group_node.id == bare_group.id,
                group_node.children_ids@ == bare_group.children_ids,
                group_node.attributes@ == bare_group.attributes,
                group_node@.children.len() == n + k,
                forall|j: int|
                    0 <= j < n ==> #[trigger] group_node@.children[j] == model_node(
                        self.models@[j]@,
                    ),
                forall|j: int|
                    n <= j < n + k ==> #[trigger] group_node@.children[j] == copy_node(
                        self.copies@[j - n]@,
                    ),
            decreases self.copies.len() - k,
        {
            let node = self.copies[k].to_node();
            group_node.add_child(node);
            proof {
                lemma_view_children(group_node);
            }
            k = k + 1;
        }
        proof {
            lemma_view_children(group_node);
            assert(group_node@.children =~= placement_nodes(self@.models, self@.copies));
            assert(group_node@.children_ids =~= Seq::<i32>::empty());
            assert(group_node@ == with_children(
                leaf(NodeType::Group, AttributesView { name: None, hidden: None }),
                placement_nodes(self@.models, self@.copies),
            ));
        }
        root_node.add_child(group_node);
        proof {
            lemma_view_children(root_node);
            assert(root_node@.children =~= seq![group_node@]);
            assert(root_node@.children_ids =~= Seq::<i32>::empty());
        }
        self.root_node = root_node;
    }
}

impl Node {
    /// Hands the placements of the node and of all nodes below it to the
    /// models and copies of `voxfile`, in pre-order.
    pub fn get_child_data_to_models(&self, voxfile: &mut VoxFile, used_ids: &mut Vec<i32>)
        ensures
            scene_of(final(voxfile)@, final(used_ids)@) == flatten(
                self@,
                scene_of(old(voxfile)@, old(used_ids)@),
            ),
            final(voxfile).palette == old(voxfile).palette,
            final(voxfile).root_node == old(voxfile).root_node,
            final(voxfile).layers == old(voxfile).layers,
        decreases self,
    {
        self.make_model_data(voxfile, used_ids);
        let ghost first = scene_of(voxfile@, used_ids@);
        let mut i: usize = 0;
        proof {
            lemma_view_children(*self);
            assert(self@.children.take(0) =~= Seq::<NodeView>::empty());
        }
        while i < self.children.len()
            invariant
                i <= self.children.len(),
                self@.children == views(self.children@),
                voxfile.palette == old(voxfile).palette,
                voxfile.root_node == old(voxfile).root_node,
                voxfile.layers == old(voxfile).layers,
                scene_of(voxfile@, used_ids@) == flatten_all(self@.children.take(i as int), first),
            decreases self.children.len() - i,
        {
            proof {
                lemma_views(self.children@);
                let next = self@.children.take(i as int + 1);
                assert(next.drop_last() =~= self@.children.take(i as int));
                assert(next.last() == self@.children[i as int]);
            }
            self.children[i].get_child_data_to_models(voxfile, used_ids);
            i = i + 1;
        }
        proof {
            assert(self@.children.take(self.children@.len() as int) =~= self@.children);
        }
    }

    /// Hands the placement of the node itself, if it gives one, to the
    /// models and copies of `voxfile`.
    pub fn make_model_data(&self, voxfile: &mut VoxFile, used_ids: &mut Vec<i32>)
        ensures
            scene_of(final(voxfile)@, final(used_ids)@) == visit(
                self@,
                scene_of(old(voxfile)@, old(used_ids)@),
            ),
            final(voxfile).palette == old(voxfile).palette,
            final(voxfile).root_node == old(voxfile).root_node,
            final(voxfile).layers == old(voxfile).layers,
    {
        match VoxFile::check_transform(self) {
            None => {},
            Some((id, pos, layer, rot, name)) => {
                if holds(used_ids, id) {
                    voxfile.add_copy(id, pos, layer, rot, name);
                } else {
                    voxfile.change_model_data(id, pos, layer, rot, name);
                    used_ids.push(id);
                }
            },
        }
    }
}

} // verus!
