//! The scene file: models, palette, layers, copies and the scene graph.
pub mod palette;
pub mod read;
pub mod reconcile;
pub mod write;

use crate::color::Color;
use crate::copy::CopyView;
use crate::copy::ModelCopy;
use crate::error::DomainError;
use crate::layer::Layer;
use crate::layer::LayerView;
use crate::model::Model;
use crate::model::ModelView;
use crate::node::lemma_view_children;
use crate::node::AttributesView;
use crate::node::Node;
use crate::node::NodeAttributes;
use crate::node::NodeType;
use crate::node::NodeView;
use crate::riff::tree::leaf;
use crate::text::text_of;
use vstd::prelude::*;

verus! {

/// All that a scene file holds. The scene graph is rebuilt from the models
/// and the copies whenever the file is written.
pub struct VoxFile {
    pub models: Vec<Model>,
    /// The colour of palette index `i` stands in slot `i - 1`.
    pub palette: [Color; 256],
    pub root_node: Node,
    pub layers: Vec<Layer>,
    pub copies: Vec<ModelCopy>,
}

/// A scene file as a mathematical value.
pub struct VoxFileView {
    pub models: Seq<ModelView>,
    pub palette: Seq<Color>,
    pub root_node: NodeView,
    pub layers: Seq<LayerView>,
    pub copies: Seq<CopyView>,
}

/// The views of a sequence of models.
pub open spec fn model_views(s: Seq<Model>) -> Seq<ModelView> {
    Seq::new(s.len(), |i: int| s[i]@)
}

/// The views of a sequence of layers.
pub open spec fn layer_views(s: Seq<Layer>) -> Seq<LayerView> {
    Seq::new(s.len(), |i: int| s[i]@)
}

/// The views of a sequence of copies.
pub open spec fn copy_views(s: Seq<ModelCopy>) -> Seq<CopyView> {
    Seq::new(s.len(), |i: int| s[i]@)
}

impl View for VoxFile {
    type V = VoxFileView;

    open spec fn view(&self) -> VoxFileView {
        VoxFileView {
            models: model_views(self.models@),
            palette: self.palette@,
            root_node: self.root_node@,
            layers: layer_views(self.layers@),
            copies: copy_views(self.copies@),
        }
    }
}

/// The palette in which every slot holds gray.
pub open spec fn gray_palette() -> Seq<Color> {
    Seq::new(256, |i: int| Color::gray())
}

impl VoxFile {
    /// A scene file with one empty model of the given size, a gray palette,
    /// no layers and no copies. A size above 256 along an axis is refused.
    pub fn new(size_x: u16, size_y: u16, size_z: u16) -> (r: Result<VoxFile, DomainError>)
        ensures
            size_x <= 256 && size_y <= 256 && size_z <= 256 ==> {
                &&& r matches Ok(v)
                &&& v.models@.len() == 1
                &&& v.models@[0].size == (size_x, size_y, size_z)
                &&& v.models@[0].voxels@.len() == 0
                &&& v.models@[0].position is None
                &&& v.models@[0].rotation is None
                &&& v.models@[0].layer is None
                &&& v.models@[0].name is None
                &&& v.models@[0].id == 0
                &&& v.palette@ == gray_palette()
                &&& v.root_node@ == leaf(NodeType::Group, AttributesView { name: None, hidden: None })
                &&& v.layers@.len() == 0
                &&& v.copies@.len() == 0
            },
            size_x > 256 || size_y > 256 || size_z > 256 ==> (r matches Err(e) && e
                == DomainError::SizeTooLarge),
    {
        let model = match Model::new(size_x, size_y, size_z) {
            Ok(m) => m,
            Err(e) => { return Err(e); },
        };
        let mut models: Vec<Model> = Vec::new();
        models.push(model);
        let palette = [Color { r: 75, g: 75, b: 75, a: 255 };256];
        assert(palette@ =~= gray_palette());
        let root_node = Node::new(NodeType::Group, NodeAttributes::new());
        proof {
            lemma_view_children(root_node);
            assert(root_node@.children =~= Seq::<NodeView>::empty());
            assert(root_node@.children_ids =~= Seq::<i32>::empty());
        }
        Ok(VoxFile { models, palette, root_node, layers: Vec::new(), copies: Vec::new() })
    }

    /// Appends a copy with the given placement.
    pub fn add_copy(
        &mut self,
        id: i32,
        pos: Option<(i32, i32, i32)>,
        layer: Option<i32>,
        rot: Option<u8>,
        name: Option<String>,
    )
        ensures
            final(self)@ == (VoxFileView {
                copies: old(self)@.copies.push(
                    CopyView {
                        model_id: id,
                        position: pos,
                        rotation: rot,
                        layer,
                        name: text_of(name),
                    },
                ),
                ..old(self)@
            }),
            final(self).models == old(self).models,
            final(self).palette == old(self).palette,
            final(self).root_node == old(self).root_node,
            final(self).layers == old(self).layers,
    {
        self.copies.push(ModelCopy { model_id: id, position: pos, rotation: rot, layer, name });
        assert(self@.copies =~= old(self)@.copies.push(self.copies@.last()@));
    }

    /// Appends a copy of the model with the id `model_id` at the given
    /// position, without rotation, layer or name.
    pub fn add_model_copy(&mut self, model_id: i32, x: i32, y: i32, z: i32)
        ensures
            final(self)@ == (VoxFileView {
                copies: old(self)@.copies.push(
                    CopyView {
                        model_id,
                        position: Some((x, y, z)),
                        rotation: None,
                        layer: None,
                        name: None,
                    },
                ),
                ..old(self)@
            }),
    {
        self.add_copy(model_id, Some((x, y, z)), None, None, None);
    }

    /// Appends a layer with the given name and visibility, whose id is the
    /// number of layers before the call, and returns the number of layers
    /// after it.
    pub fn add_layer(&mut self, name: String, hidden: bool) -> (n: i32)
        requires
            old(self).layers@.len() < i32::MAX,
        ensures
            n == old(self).layers@.len() + 1,
            final(self)@ == (VoxFileView {
                layers: old(self)@.layers.push(
                    LayerView {
                        id: old(self).layers@.len() as i32,
                        name: Some(name@),
                        hidden: Some(hidden),
                    },
                ),
                ..old(self)@
            }),
    {
        let id = self.layers.len() as i32;
        self.layers.push(Layer::new(name, hidden, id));
        assert(self@.layers =~= old(self)@.layers.push(self.layers@.last()@));
        self.layers.len() as i32
    }
}

} // verus!
