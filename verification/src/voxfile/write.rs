//! Writing a scene file.
//!
//! A file is the magic, a version field, and the header of the outer
//! container, whose children size is the length of all that follows: the
//! two chunks of each model, the node chunks of the scene graph in
//! pre-order, the layer chunks, and the palette chunk. All sizes are known
//! before the first byte is written.
use crate::color::Color;
use crate::convert::write_slice;
use crate::convert::write_string_literal;
use crate::copy::CopyView;
use crate::error::EncodeError;
use crate::layer::layer_attributes;
use crate::layer::layer_chunk;
use crate::layer::Layer;
use crate::layer::LayerView;
use crate::model::model_bytes;
use crate::model::Model;
use crate::model::ModelView;
use crate::node::attrs_pairs;
use crate::node::lemma_attrs_pairs_size;
use crate::node::lemma_encodable;
use crate::node::lemma_size_nonneg;
use crate::node::lemma_write_ready;
use crate::node::spend;
use crate::node::spend4;
use crate::node::NodeView;
use crate::riff::chunk::chunk_header;
use crate::riff::chunk::lemma_tags;
use crate::riff::chunk::magic;
use crate::riff::chunk::tag_main;
use crate::riff::chunk::tag_rgba;
use crate::riff::chunk::write_chunk;
use crate::riff::records::layr_bytes;
use crate::riff::records::layr_size;
use crate::riff::records::lemma_dict_bytes_len;
use crate::text::byte_len;
use crate::voxfile::reconcile::rebuilt;
use crate::voxfile::layer_views;
use crate::voxfile::model_views;
use crate::voxfile::VoxFile;
use crate::voxfile::VoxFileView;
use vstd::prelude::*;

verus! {

/// The chunks of the models `s` on the wire.
pub open spec fn models_bytes(s: Seq<ModelView>) -> Seq<u8>
    decreases s.len(),
{
    if s.len() == 0 {
        Seq::empty()
    } else {
        models_bytes(s.drop_last()) + model_bytes(s.last())
    }
}

/// The number of bytes that the chunks of the models `s` take: for each
/// model two headers, twelve bytes of dimensions, the number of voxels and
/// four bytes for each voxel.
pub open spec fn models_size(s: Seq<ModelView>) -> int
    decreases s.len(),
{
    if s.len() == 0 {
        0
    } else {
        models_size(s.drop_last()) + 40 + 4 * s.last().voxels.len()
    }
}

/// The chunks of the layers `s` on the wire.
pub open spec fn layers_bytes(s: Seq<LayerView>) -> Seq<u8>
    decreases s.len(),
{
    if s.len() == 0 {
        Seq::empty()
    } else {
        layers_bytes(s.drop_last()) + layr_bytes(layer_chunk(s.last()))
    }
}

/// The number of bytes that the chunks of the layers `s` take: for each
/// layer a header and the content of its chunk.
pub open spec fn layers_size(s: Seq<LayerView>) -> int
    decreases s.len(),
{
    if s.len() == 0 {
        0
    } else {
        layers_size(s.drop_last()) + 12 + layr_size(layer_chunk(s.last()))
    }
}

/// The colours `p` on the wire, four bytes for each.
pub open spec fn palette_bytes(p: Seq<Color>) -> Seq<u8>
    decreases p.len(),
{
    if p.len() == 0 {
        Seq::empty()
    } else {
        palette_bytes(p.drop_last()) + p.last().bytes()
    }
}

/// The number of bytes that the node chunks of the tree `n` take: for each
/// node a header and the content of its chunk.
pub open spec fn nodes_size(n: NodeView) -> int {
    n.total_size() + 12 * n.count()
}

/// The children size that the outer container declares: the length of all
/// chunks that follow its header.
pub open spec fn children_size(v: VoxFileView) -> int {
    models_size(v.models) + nodes_size(v.root_node) + layers_size(v.layers) + 1036
}

/// The length of the file.
pub open spec fn file_size(v: VoxFileView) -> int {
    20 + children_size(v)
}

/// The first twenty bytes of a file: the magic, a version field of zeros,
/// and the header of the outer container, which has no content of its own
/// and declares `children` as the size of its children.
pub open spec fn file_head(children: u32) -> Seq<u8> {
    magic() + seq![0u8, 0u8, 0u8, 0u8] + chunk_header(tag_main(), 0, children)
}

/// The palette chunk on the wire.
pub open spec fn palette_chunk(p: Seq<Color>) -> Seq<u8> {
    chunk_header(tag_rgba(), 1024, 0) + palette_bytes(p)
}

/// What follows the first twenty bytes of a file: the chunks of the models,
/// of the scene graph, of the layers and of the palette.
pub open spec fn file_body(v: VoxFileView) -> Seq<u8> {
    models_bytes(v.models) + v.root_node.subtree_bytes() + layers_bytes(v.layers) + palette_chunk(
        v.palette,
    )
}

/// The file on the wire.
pub open spec fn file_bytes(v: VoxFileView) -> Seq<u8> {
    file_head(children_size(v) as u32) + file_body(v)
}

/// The scene file as it stands after it was written: the scene graph is the
/// tree rebuilt from the models and the copies, numbered from 0, with the
/// ids of children listed in every node.
pub open spec fn written(v: VoxFileView) -> VoxFileView {
    VoxFileView { root_node: rebuilt(v.models, v.copies).numbered(0).linked(), ..v }
}

/// The sizes of models and layers are not negative and grow with the
/// sequence.
pub proof fn lemma_models_size(s: Seq<ModelView>, i: int)
    requires
        0 <= i <= s.len(),
    ensures
        0 <= models_size(s.take(i)) <= models_size(s),
        i < s.len() ==> models_size(s.take(i + 1)) == models_size(s.take(i)) + 40 + 4
            * s[i].voxels.len(),
        i < s.len() ==> models_bytes(s.take(i + 1)) == models_bytes(s.take(i)) + model_bytes(s[i]),
    decreases s.len(),
{
    if i < s.len() {
        assert(s.take(i + 1).drop_last() =~= s.take(i));
        assert(s.take(i + 1).last() == s[i]);
        lemma_models_size(s.drop_last(), i);
        assert(s.drop_last().take(i) =~= s.take(i));
    } else {
        assert(s.take(i) =~= s);
        if s.len() > 0 {
            lemma_models_size(s.drop_last(), i - 1);
            assert(s.drop_last().take(i - 1) =~= s.drop_last());
        }
    }
}

/// The sizes of layers are not negative and grow with the sequence.
pub proof fn lemma_layers_size(s: Seq<LayerView>, i: int)
    requires
        0 <= i <= s.len(),
    ensures
        0 <= layers_size(s.take(i)) <= layers_size(s),
        i < s.len() ==> layers_size(s.take(i + 1)) == layers_size(s.take(i)) + 12 + layr_size(
            layer_chunk(s[i]),
        ),
        i < s.len() ==> layers_bytes(s.take(i + 1)) == layers_bytes(s.take(i)) + layr_bytes(
            layer_chunk(s[i]),
        ),
        i < s.len() ==> layr_size(layer_chunk(s[i])) >= 12,
    decreases s.len(),
{
    if s.len() > 0 {
        lemma_dict_bytes_len(attrs_pairs(layer_attributes(s.last())));
    }
    if i < s.len() {
        lemma_dict_bytes_len(attrs_pairs(layer_attributes(s[i])));
        assert(s.take(i + 1).drop_last() =~= s.take(i));
        assert(s.take(i + 1).last() == s[i]);
        lemma_layers_size(s.drop_last(), i);
        assert(s.drop_last().take(i) =~= s.take(i));
    } else {
        assert(s.take(i) =~= s);
        if s.len() > 0 {
            lemma_layers_size(s.drop_last(), i - 1);
            assert(s.drop_last().take(i - 1) =~= s.drop_last());
        }
    }
}

/// In the tree that is written, every transform node has a child.
pub proof fn lemma_rebuilt_shaped(models: Seq<ModelView>, copies: Seq<CopyView>)
    ensures
        rebuilt(models, copies).shaped(),
{
    let root = rebuilt(models, copies);
    let group = root.children[0];
    assert forall|i: int| 0 <= i < group.children.len() implies (#[trigger] group.children[i]).shaped() by {
        let pair = group.children[i];
        assert(pair.children.len() == 1);
        assert(pair.children[0].children.len() == 0);
        assert(pair.children[0].shaped());
    }
    assert(group.shaped());
}

/// Writing changes the scene graph, but not the size of the file.
pub proof fn lemma_written_size(v: VoxFileView)
    ensures
        file_size(written(v)) == file_size(
            VoxFileView { root_node: rebuilt(v.models, v.copies), ..v },
        ),
        nodes_size(rebuilt(v.models, v.copies)) >= 0,
{
    let tree = rebuilt(v.models, v.copies);
    crate::node::lemma_numbered(tree, 0);
    crate::node::lemma_linked(tree.numbered(0));
    lemma_size_nonneg(tree);
}

/// Where the file fits a 32-bit size, the tree that is written can be
/// written once numbered.
pub proof fn lemma_ready(v: VoxFileView)
    requires
        file_size(VoxFileView { root_node: rebuilt(v.models, v.copies), ..v }) <= i32::MAX,
    ensures
        rebuilt(v.models, v.copies).encodable(),
{
    let tree = rebuilt(v.models, v.copies);
    lemma_rebuilt_shaped(v.models, v.copies);
    lemma_size_nonneg(tree);
    lemma_layers_size(v.layers, 0);
    lemma_models_size(v.models, 0);
    lemma_encodable(tree);
}

/// The number of bytes that the chunks of the models take.
fn models_total(models: &Vec<Model>) -> (n: i32)
    requires
        models_size(model_views(models@)) <= i32::MAX,
    ensures
        n == models_size(model_views(models@)),
{
    let ghost all = model_views(models@);
    let mut size: i32 = 0;
    let mut i: usize = 0;
    proof {
        assert(all.take(0) =~= Seq::<ModelView>::empty());
    }
    while i < models.len()
        invariant
            i <= models.len(),
            all == model_views(models@),
            models_size(all) <= i32::MAX,
            size == models_size(all.take(i as int)),
        decreases models.len() - i,
    {
        proof {
            lemma_models_size(all, i as int);
            lemma_models_size(all, i as int + 1);
        }
        size = size + 36 + models[i].get_size();
        i = i + 1;
    }
    proof {
        assert(all.take(i as int) =~= all);
    }
    size
}

/// The number of bytes that the chunks of the layers take.
fn layers_total(layers: &Vec<Layer>) -> (n: i32)
    requires
        layers_size(layer_views(layers@)) <= i32::MAX,
    ensures
        n == layers_size(layer_views(layers@)),
{
    let ghost all = layer_views(layers@);
    let mut size: i32 = 0;
    let mut k: usize = 0;
    proof {
        assert(all.take(0) =~= Seq::<LayerView>::empty());
    }
    while k < layers.len()
        invariant
            k <= layers.len(),
            all == layer_views(layers@),
            layers_size(all) <= i32::MAX,
            size == layers_size(all.take(k as int)),
        decreases layers.len() - k,
    {
        proof {
            lemma_layers_size(all, k as int);
            lemma_layers_size(all, k as int + 1);
        }
        size = size + 12 + layers[k].get_size();
        k = k + 1;
    }
    proof {
        assert(all.take(k as int) =~= all);
    }
    size
}

/// Appends the chunks of the models to `out`.
fn write_models(models: &Vec<Model>, out: &mut Vec<u8>)
    requires
        models_size(model_views(models@)) <= i32::MAX,
    ensures
        final(out)@ == old(out)@ + models_bytes(model_views(models@)),
{
    let ghost all = model_views(models@);
    let mut i: usize = 0;
    proof {
        assert(all.take(0) =~= Seq::<ModelView>::empty());
        assert(old(out)@ + models_bytes(all.take(0)) =~= old(out)@);
    }
    while i < models.len()
        invariant
            i <= models.len(),
            all == model_views(models@),
            models_size(all) <= i32::MAX,
            out@ == old(out)@ + models_bytes(all.take(i as int)),
        decreases models.len() - i,
    {
        proof {
            lemma_models_size(all, i as int);
            lemma_models_size(all, i as int + 1);
        }
        models[i].write(out);
        proof {
            assert(out@ =~= old(out)@ + models_bytes(all.take(i as int + 1)));
        }
        i = i + 1;
    }
    proof {
        assert(all.take(i as int) =~= all);
    }
}

/// Appends the chunks of the layers to `out`.
fn write_layers(layers: &Vec<Layer>, out: &mut Vec<u8>)
    requires
        layers_size(layer_views(layers@)) <= i32::MAX,
    ensures
        final(out)@ == old(out)@ + layers_bytes(layer_views(layers@)),
{
    let ghost all = layer_views(layers@);
    let mut k: usize = 0;
    proof {
        assert(all.take(0) =~= Seq::<LayerView>::empty());
        assert(old(out)@ + layers_bytes(all.take(0)) =~= old(out)@);
    }
    while k < layers.len()
        invariant
            k <= layers.len(),
            all == layer_views(layers@),
            layers_size(all) <= i32::MAX,
            out@ == old(out)@ + layers_bytes(all.take(k as int)),
        decreases layers.len() - k,
    {
        proof {
            lemma_layers_size(all, k as int);
            lemma_layers_size(all, k as int + 1);
        }
        layers[k].write(out);
        proof {
            assert(out@ =~= old(out)@ + layers_bytes(all.take(k as int + 1)));
        }
        k = k + 1;
    }
    proof {
        assert(all.take(k as int) =~= all);
    }
}

/// Appends the colours of the palette to `out`.
fn write_palette(palette: &[Color; 256], out: &mut Vec<u8>)
    ensures
        final(out)@ == old(out)@ + palette_bytes(palette@),
{
    let mut c: usize = 0;
    proof {
        assert(palette@.take(0) =~= Seq::<Color>::empty());
        assert(old(out)@ + palette_bytes(palette@.take(0)) =~= old(out)@);
    }
    while c < 256
        invariant
            c <= 256,
            out@ == old(out)@ + palette_bytes(palette@.take(c as int)),
        decreases 256 - c,
    {
        let color = palette[c];
        let bytes: [u8; 4] = [color.r, color.g, color.b, color.a];
        write_slice(out, &bytes);
        proof {
            let next = palette@.take(c as int + 1);
            assert(next.drop_last() =~= palette@.take(c as int));
            assert(next.last() == color);
            assert(bytes@ =~= color.bytes());
            assert(out@ =~= old(out)@ + palette_bytes(next));
        }
        c = c + 1;
    }
    proof {
        assert(palette@.take(256) =~= palette@);
    }
}

impl Layer {
    /// What is left of `budget` after the layer's chunk, if that much is
    /// left.
    pub fn room_after(&self, budget: i32) -> (r: Option<i32>)
        requires
            0 <= budget,
        ensures
            12 + layr_size(layer_chunk(self@)) <= budget ==> r == Some(
                (budget - (12 + layr_size(layer_chunk(self@)))) as i32,
            ),
            12 + layr_size(layer_chunk(self@)) > budget ==> r is None,
    {
        proof {
            lemma_attrs_pairs_size(layer_attributes(self@));
        }
        let fixed: usize = 24 + (if self.name.is_some() {
            13
        } else {
            0
        }) + (if self.hidden.is_some() {
            16
        } else {
            0
        });
        let left = match spend(budget, fixed) {
            Some(b) => b,
            None => { return None; },
        };
        match &self.name {
            Some(name) => spend(left, byte_len(name.as_str())),
            None => Some(left),
        }
    }
}

impl VoxFile {
    /// The children size that the outer container declares, unless the file
    /// would be longer than a 32-bit size can say.
    pub fn measure(&self) -> (r: Option<i32>)
        ensures
            file_size(self@) <= i32::MAX ==> r == Some(children_size(self@) as i32),
            file_size(self@) > i32::MAX ==> r is None,
    {
        let start: i32 = i32::MAX - 20 - 1036;
        let mut left: i32 = start;
        let mut i: usize = 0;
        proof {
            assert(self@.models.take(0) =~= Seq::<ModelView>::empty());
            lemma_size_nonneg(self@.root_node);
            lemma_layers_size(self@.layers, 0);
            lemma_models_size(self@.models, 0);
        }
        while i < self.models.len()
            invariant
                i <= self.models.len(),
                0 <= left,
                start == i32::MAX - 1056,
                left == start - models_size(self@.models.take(i as int)),
                nodes_size(self@.root_node) >= 0,
                layers_size(self@.layers) >= 0,
            decreases self.models.len() - i,
        {
            proof {
                lemma_models_size(self@.models, i as int);
                lemma_models_size(self@.models, i as int + 1);
            }
            left = match spend(left, 40) {
                Some(b) => b,
                None => { return None; },
            };
            left = match spend4(left, self.models[i].voxels.len()) {
                Some(b) => b,
                None => { return None; },
            };
            i = i + 1;
        }
        proof {
            assert(self@.models.take(i as int) =~= self@.models);
        }
        left = match self.root_node.room_after(left) {
            Some(b) => b,
            None => { return None; },
        };
        let mut k: usize = 0;
        proof {
            assert(self@.layers.take(0) =~= Seq::<LayerView>::empty());
        }
        while k < self.layers.len()
            invariant
                k <= self.layers.len(),
                0 <= left,
                start == i32::MAX - 1056,
                left == start - models_size(self@.models) - nodes_size(self@.root_node)
                    - layers_size(self@.layers.take(k as int)),
            decreases self.layers.len() - k,
        {
            proof {
                lemma_layers_size(self@.layers, k as int);
                lemma_layers_size(self@.layers, k as int + 1);
            }
            left = match self.layers[k].room_after(left) {
                Some(b) => b,
                None => { return None; },
            };
            k = k + 1;
        }
        proof {
            assert(self@.layers.take(k as int) =~= self@.layers);
        }
        Some(i32::MAX - 20 - left)
    }

    /// The children size that the outer container declares.
    pub fn get_size(&self) -> (n: i32)
        requires
            file_size(self@) <= i32::MAX,
        ensures
            n == children_size(self@),
    {
        proof {
            lemma_size_nonneg(self@.root_node);
            lemma_layers_size(self@.layers, 0);
            lemma_models_size(self@.models, 0);
        }
        let mut size: i32 = 1036;
        size = size + models_total(&self.models);
        size = size + layers_total(&self.layers);
        size = size + self.root_node.get_all_size();
        size = size + 12 * (self.root_node.num_children() + 1);
        size
    }

    /// Numbers the scene graph and appends the file to `out`.
    #[verifier::rlimit(60)]
    fn emit(&mut self, size: i32, out: &mut Vec<u8>)
        requires
            old(self)@.root_node.encodable(),
            file_size(old(self)@) <= i32::MAX,
            size == children_size(old(self)@),
        ensures
            final(self)@ == (VoxFileView {
                root_node: old(self)@.root_node.numbered(0).linked(),
                ..old(self)@
            }),
            final(out)@ == old(out)@ + file_bytes(final(self)@),
    {
        proof {
            lemma_tags();
            lemma_size_nonneg(self@.root_node);
            lemma_layers_size(self@.layers, 0);
            lemma_models_size(self@.models, 0);
            lemma_write_ready(self@.root_node, 0);
        }
        write_string_literal(out, "VOX ");
        write_slice(out, &[0, 0, 0, 0]);
        write_chunk("MAIN", 0, size as u32, out);
        write_models(&self.models, out);
        self.root_node.write_all(out);
        write_layers(&self.layers, out);
        write_chunk("RGBA", 1024, 0, out);
        write_palette(&self.palette, out);
        proof {
            assert(children_size(self@) == size);
            assert(out@ =~= old(out)@ + file_bytes(self@));
        }
    }

    /// Rebuilds the scene graph from the models and the copies, numbers it,
    /// and appends the file to `out`. Where the file would be longer than a
    /// 32-bit size can say, nothing is appended.
    pub fn write(&mut self, out: &mut Vec<u8>) -> (r: Result<(), EncodeError>)
        ensures
            file_size(written(old(self)@)) <= i32::MAX ==> {
                &&& r is Ok
                &&& final(self)@ == written(old(self)@)
                &&& final(out)@ == old(out)@ + file_bytes(written(old(self)@))
            },
            file_size(written(old(self)@)) > i32::MAX ==> {
                &&& r == Err::<(), EncodeError>(EncodeError::TooLarge)
                &&& final(out)@ == old(out)@
                &&& final(self)@ == (VoxFileView {
                    root_node: rebuilt(old(self)@.models, old(self)@.copies),
                    ..old(self)@
                })
            },
    {
        self.make_nodes();
        proof {
            lemma_written_size(old(self)@);
        }
        let size = match self.measure() {
            Some(s) => s,
            None => {
                return Err(EncodeError::TooLarge);
            },
        };
        proof {
            lemma_ready(old(self)@);
            lemma_models_size(self@.models, 0);
            lemma_layers_size(self@.layers, 0);
            assert(self@ == (VoxFileView {
                root_node: rebuilt(old(self)@.models, old(self)@.copies),
                ..old(self)@
            }));
        }
        self.emit(size, out);
        Ok(())
    }

    /// The file as bytes. The scene graph is rebuilt and numbered on the
    /// way.
    pub fn save(&mut self) -> (r: Result<Vec<u8>, EncodeError>)
        ensures
            file_size(written(old(self)@)) <= i32::MAX ==> {
                &&& r matches Ok(bytes)
                &&& bytes@ == file_bytes(written(old(self)@))
                &&& final(self)@ == written(old(self)@)
            },
            file_size(written(old(self)@)) > i32::MAX ==> {
                &&& r matches Err(e)
                &&& e == EncodeError::TooLarge
                &&& final(self)@ == (VoxFileView {
                    root_node: rebuilt(old(self)@.models, old(self)@.copies),
                    ..old(self)@
                })
            },
    {
        let mut out: Vec<u8> = Vec::new();
        match self.write(&mut out) {
            Ok(()) => {
                assert(out@ =~= file_bytes(self@));
                Ok(out)
            },
            Err(e) => Err(e),
        }
    }
}

} // verus!
