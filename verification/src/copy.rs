//! Copies: further placements of a model that share its voxels.
use crate::model::placement_node;
use crate::model::placement_transform;
use crate::node::lemma_view_children;
use crate::node::Node;
use crate::node::NodeAttributes;
use crate::node::NodeType;
use crate::node::NodeView;
use crate::node::Transform;
use vstd::prelude::*;

verus! {

/// A placement of the model with the id `model_id`.
#[derive(Debug, PartialEq)]
pub struct ModelCopy {
    pub model_id: i32,
    pub position: Option<(i32, i32, i32)>,
    /// The rotation code.
    pub rotation: Option<u8>,
    pub layer: Option<i32>,
    pub name: Option<String>,
}

/// A copy as a mathematical value.
pub struct CopyView {
    pub model_id: i32,
    pub position: Option<(i32, i32, i32)>,
    pub rotation: Option<u8>,
    pub layer: Option<i32>,
    pub name: Option<Seq<char>>,
}

impl View for ModelCopy {
    type V = CopyView;

    open spec fn view(&self) -> CopyView {
        CopyView {
            model_id: self.model_id,
            position: self.position,
            rotation: self.rotation,
            layer: self.layer,
            name: match self.name {
                Some(n) => Some(n@),
                None => None,
            },
        }
    }
}

impl Clone for ModelCopy {
    fn clone(&self) -> (r: ModelCopy)
        ensures
            r@ == self@,
    {
        let name = match &self.name {
            Some(n) => Some(n.clone()),
            None => None,
        };
        ModelCopy {
            model_id: self.model_id,
            position: self.position,
            rotation: self.rotation,
            layer: self.layer,
            name,
        }
    }
}

impl ModelCopy {
    /// The pair of nodes that places the copy.
    pub fn to_node(&self) -> (n: Node)
        ensures
            n@ == placement_node(
                self@.model_id,
                self@.position,
                self@.rotation,
                self@.layer,
                self@.name,
            ),
    {
        let mut attributes = NodeAttributes::new();
        attributes.name = match &self.name {
            Some(n) => Some(n.clone()),
            None => None,
        };
        let mut transform_node = Node::new(NodeType::Transform(self.transform_data()), attributes);
        let shape_node = Node::new(NodeType::Shape(self.model_id), NodeAttributes::new());
        proof {
            lemma_view_children(shape_node);
            lemma_view_children(transform_node);
            assert(shape_node@.children =~= Seq::<NodeView>::empty());
            assert(shape_node@.children_ids =~= Seq::<i32>::empty());
            assert(transform_node@.children =~= Seq::<NodeView>::empty());
            assert(transform_node@.children_ids =~= Seq::<i32>::empty());
        }
        transform_node.add_child(shape_node);
        proof {
            lemma_view_children(transform_node);
            assert(transform_node@.children =~= seq![shape_node@]);
        }
        transform_node
    }

    /// The transform that carries the copy's placement.
    pub fn transform_data(&self) -> (t: Transform)
        ensures
            t == placement_transform(self.position, self.rotation, self.layer),
    {
        Transform {
            layer: match self.layer {
                Some(l) => l,
                None => -1,
            },
            rotation: match self.rotation {
                None => None,
                Some(rot) => Some(rot as i32),
            },
            translation: self.position,
        }
    }
}

} // verus!
