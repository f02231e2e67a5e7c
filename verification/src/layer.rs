//! Layers: named, possibly hidden groups that models refer to by id.
use crate::error::DecodeError;
use crate::node::attrs_pairs;
use crate::node::key_name;
use crate::node::lemma_keys;
use crate::node::AttributesView;
use crate::node::NodeAttributes;
use crate::riff::dict::lookup;
use crate::riff::dict::Dict;
use crate::riff::records::layr_bytes;
use crate::riff::records::layr_size;
use crate::riff::records::LayrView;
use crate::riff::records::LAYR;
use crate::riff::tree::hidden_of;
use crate::riff::tree::parse_flag;
use vstd::prelude::*;

verus! {

/// A layer.
#[derive(Debug, PartialEq)]
pub struct Layer {
    pub id: i32,
    pub name: Option<String>,
    pub hidden: Option<bool>,
}

/// A layer as a mathematical value.
pub struct LayerView {
    pub id: i32,
    pub name: Option<Seq<char>>,
    pub hidden: Option<bool>,
}

impl View for Layer {
    type V = LayerView;

    open spec fn view(&self) -> LayerView {
        LayerView {
            id: self.id,
            name: match self.name {
                Some(n) => Some(n@),
                None => None,
            },
            hidden: self.hidden,
        }
    }
}

impl Clone for Layer {
    fn clone(&self) -> (r: Layer)
        ensures
            r@ == self@,
    {
        let name = match &self.name {
            Some(n) => Some(n.clone()),
            None => None,
        };
        Layer { id: self.id, name, hidden: self.hidden }
    }
}

/// The attributes of a layer: its name and its visibility.
pub open spec fn layer_attributes(l: LayerView) -> AttributesView {
    AttributesView { name: l.name, hidden: l.hidden }
}

/// The chunk of a layer: its id, its attributes as a dictionary, and the
/// reserved id -1.
pub open spec fn layer_chunk(l: LayerView) -> LayrView {
    LayrView {
        layer_id: l.id,
        layer_attributes: attrs_pairs(layer_attributes(l)),
        reserved_id: -1i32,
    }
}

/// The layer that a layer chunk describes.
pub open spec fn layer_of(c: LayrView) -> Result<LayerView, DecodeError> {
    match hidden_of(c.layer_attributes) {
        Err(e) => Err(e),
        Ok(hidden) => Ok(
            LayerView { id: c.layer_id, name: lookup(c.layer_attributes, key_name()), hidden },
        ),
    }
}

impl Layer {
    /// The chunk of the layer fits a 32-bit size.
    pub open spec fn wf(&self) -> bool {
        layr_size(layer_chunk(self@)) <= i32::MAX
    }

    /// A layer with the given name, visibility and id.
    pub fn new(name: String, hidden: bool, id: i32) -> (l: Layer)
        ensures
            l.id == id,
            l.name == Some(name),
            l.hidden == Some(hidden),
    {
        Layer { id, name: Some(name), hidden: Some(hidden) }
    }

    /// The layer that a layer chunk describes.
    pub fn from_chunk(chunk: LAYR) -> (r: Result<Layer, DecodeError>)
        ensures
            match layer_of(chunk@) {
                Ok(l) => r matches Ok(x) && x@ == l,
                Err(e) => r matches Err(x) && x == e,
            },
    {
        let hidden = match Layer::is_hidden(&chunk) {
            Ok(h) => h,
            Err(e) => { return Err(e); },
        };
        Ok(Layer { id: chunk.layer_id, name: Layer::has_name(&chunk), hidden })
    }

    /// The visibility that the chunk carries under `_hidden`: hidden where
    /// the value is the number 1.
    pub fn is_hidden(chunk: &LAYR) -> (r: Result<Option<bool>, DecodeError>)
        ensures
            r == hidden_of(chunk@.layer_attributes),
    {
        proof {
            lemma_keys();
        }
        match chunk.layer_attributes.get("_hidden") {
            None => Ok(None),
            Some(text) => match parse_flag(text) {
                Ok(b) => Ok(Some(b)),
                Err(e) => Err(e),
            },
        }
    }

    /// The name that the chunk carries under `_name`.
    pub fn has_name(chunk: &LAYR) -> (r: Option<String>)
        ensures
            match lookup(chunk@.layer_attributes, key_name()) {
                Some(t) => r matches Some(s) && s@ == t,
                None => r is None,
            },
    {
        proof {
            lemma_keys();
        }
        match chunk.layer_attributes.get("_name") {
            None => None,
            Some(text) => Some(text.content.clone()),
        }
    }

    /// The chunk of the layer.
    pub fn to_chunk(&self) -> (chunk: LAYR)
        requires
            self.wf(),
        ensures
            chunk@ == layer_chunk(self@),
            chunk.wf(),
    {
        LAYR { layer_id: self.id, layer_attributes: self.to_dict(), reserved_id: -1 }
    }

    /// The attributes of the layer as a dictionary.
    pub fn to_dict(&self) -> (d: Dict)
        requires
            self.wf(),
        ensures
            d@ == attrs_pairs(layer_attributes(self@)),
            d.wf(),
    {
        let attributes = NodeAttributes {
            name: match &self.name {
                Some(n) => Some(n.clone()),
                None => None,
            },
            hidden: self.hidden,
        };
        attributes.to_dict()
    }

    /// Appends the chunk of the layer to `out`.
    pub fn write(&self, out: &mut Vec<u8>)
        requires
            self.wf(),
        ensures
            final(out)@ == old(out)@ + layr_bytes(layer_chunk(self@)),
    {
        self.to_chunk().write(out);
    }

    /// The size of the content of the layer's chunk.
    pub fn get_size(&self) -> (n: i32)
        requires
            self.wf(),
        ensures
            n == layr_size(layer_chunk(self@)),
    {
        self.to_chunk().get_size()
    }
}

} // verus!
