//! What holds of the codec as a whole: the sizes that headers declare are
//! the sizes of what is written, and the walk through the tree that is
//! written gives back the models and copies it was made from.
use crate::color::Color;
use crate::convert::lemma_u32_round_trip;
use crate::convert::u32_at;
use crate::copy::CopyView;
use crate::layer::layer_chunk;
use crate::layer::LayerView;
use crate::error::DecodeError;
use crate::model::all_colored;
use crate::model::model_bytes;
use crate::model::voxels_bytes;
use crate::model::ModelView;
use crate::node::lemma_node_bytes_len;
use crate::node::lemma_subtree_bytes_len;
use crate::node::NodeView;
use crate::riff::chunk::chunk_header;
use crate::riff::chunk::occurrences;
use crate::riff::chunk::occurrences_from;
use crate::riff::chunk::tag_layr;
use crate::riff::chunk::tag_main;
use crate::riff::chunk::tag_ntrn;
use crate::riff::chunk::tag_size;
use crate::riff::chunk::tag_rgba;
use crate::riff::records::layr_bytes;
use crate::riff::records::layr_size;
use crate::riff::span::lemma_span_chunk;
use crate::riff::span::lemma_span_join;
use crate::riff::span::lemma_span_then;
use crate::riff::span::occ_in;
use crate::riff::tree::tree_at;
use crate::roundtrip::bare;
use crate::roundtrip::bare_model;
use crate::roundtrip::layer_starts;
use crate::roundtrip::lemma_colors_round_trip;
use crate::roundtrip::lemma_layers_region;
use crate::roundtrip::lemma_layers_slice;
use crate::roundtrip::lemma_model_round_trip;
use crate::roundtrip::lemma_models_region;
use crate::roundtrip::lemma_models_slice;
use crate::roundtrip::lemma_root;
use crate::roundtrip::lemma_tags_differ;
use crate::roundtrip::lemma_tree_region;
use crate::roundtrip::model_starts;
use crate::roundtrip::strict;
use crate::riff::records::lemma_layr_len;
use crate::seqs::lemma_inner;
use crate::voxel::Voxel;
use crate::voxfile::reconcile::copy_node;
use crate::voxfile::reconcile::copy_of;
use crate::voxfile::reconcile::flatten;
use crate::voxfile::reconcile::flatten_all;
use crate::voxfile::reconcile::model_node;
use crate::voxfile::reconcile::place;
use crate::voxfile::reconcile::placed;
use crate::voxfile::reconcile::placement_nodes;
use crate::voxfile::reconcile::placement_of;
use crate::voxfile::reconcile::rebuilt;
use crate::voxfile::reconcile::visit;
use crate::voxfile::reconcile::Placement;
use crate::voxfile::reconcile::Scene;
use crate::voxfile::read::file_at;
use crate::voxfile::read::layer_at;
use crate::voxfile::read::layers_at;
use crate::voxfile::read::models_at;
use crate::voxfile::read::palette_at;
use crate::voxfile::write::children_size;
use crate::voxfile::write::nodes_size;
use crate::voxfile::write::written;
use crate::voxfile::write::file_body;
use crate::voxfile::write::file_bytes;
use crate::voxfile::write::file_head;
use crate::voxfile::write::palette_chunk;
use crate::voxfile::write::file_size;
use crate::voxfile::write::layers_bytes;
use crate::voxfile::write::layers_size;
use crate::voxfile::write::models_bytes;
use crate::voxfile::write::models_size;
use crate::voxfile::write::palette_bytes;
use crate::voxfile::VoxFileView;
use vstd::prelude::*;

verus! {

/// The voxels take four bytes each.
pub proof fn lemma_voxels_bytes_len(s: Seq<Voxel>)
    ensures
        voxels_bytes(s).len() == 4 * s.len(),
    decreases s.len(),
{
    if s.len() > 0 {
        lemma_voxels_bytes_len(s.drop_last());
    }
}

/// The two chunks of a model take 40 bytes and four for each voxel.
pub proof fn lemma_model_bytes_len(m: ModelView)
    ensures
        model_bytes(m).len() == 40 + 4 * m.voxels.len(),
{
    lemma_voxels_bytes_len(m.voxels);
}

/// The chunks of models take as many bytes as their size says.
pub proof fn lemma_models_bytes_len(s: Seq<ModelView>)
    ensures
        models_bytes(s).len() == models_size(s),
    decreases s.len(),
{
    if s.len() > 0 {
        lemma_models_bytes_len(s.drop_last());
        lemma_model_bytes_len(s.last());
    }
}

/// The chunks of layers take as many bytes as their size says.
pub proof fn lemma_layers_bytes_len(s: Seq<LayerView>)
    ensures
        layers_bytes(s).len() == layers_size(s),
    decreases s.len(),
{
    if s.len() > 0 {
        lemma_layers_bytes_len(s.drop_last());
        lemma_layr_len(layer_chunk(s.last()));
    }
}

/// The colours take four bytes each.
pub proof fn lemma_palette_bytes_len(p: Seq<Color>)
    ensures
        palette_bytes(p).len() == 4 * p.len(),
    decreases p.len(),
{
    if p.len() > 0 {
        lemma_palette_bytes_len(p.drop_last());
    }
}

/// Every node chunk is twelve bytes longer than the size that its header
/// declares for its content, and so the chunks of a tree are longer than the
/// sum of the declared sizes by twelve bytes for each node.
pub proof fn theorem_node_sizes(n: NodeView)
    requires
        n.all_writable(),
    ensures
        n.bytes().len() == n.size() + 12,
        n.subtree_bytes().len() == n.total_size() + 12 * n.count(),
{
    lemma_node_bytes_len(n);
    lemma_subtree_bytes_len(n);
}

/// The first twenty bytes of a file are twenty bytes, and the integer at
/// offset 16 is the children size that they declare.
pub proof fn lemma_file_head(children: u32, body: Seq<u8>)
    ensures
        file_head(children).len() == 20,
        u32_at(file_head(children) + body, 16) == children,
{
    let f = file_head(children) + body;
    assert(f.subrange(16, 20) =~= crate::convert::u32_le(children));
    lemma_u32_round_trip(f, 16, children);
}

/// What follows the first twenty bytes of a file takes as many bytes as the
/// children size says.
pub proof fn lemma_file_body_len(v: VoxFileView)
    requires
        v.root_node.all_writable(),
        v.palette.len() == 256,
    ensures
        file_body(v).len() == children_size(v),
        children_size(v) >= 1036,
{
    lemma_models_bytes_len(v.models);
    lemma_layers_bytes_len(v.layers);
    lemma_palette_bytes_len(v.palette);
    lemma_subtree_bytes_len(v.root_node);
    crate::node::lemma_size_nonneg(v.root_node);
    crate::voxfile::write::lemma_models_size(v.models, 0);
    crate::voxfile::write::lemma_layers_size(v.layers, 0);
    assert(palette_chunk(v.palette).len() == 1036);
}

/// The children size that the outer container declares is the length of
/// all that follows its header: the sum, over all chunks, of the declared
/// content size and the twelve bytes of the header.
pub proof fn theorem_container_size(v: VoxFileView)
    requires
        v.root_node.all_writable(),
        v.palette.len() == 256,
        file_size(v) <= i32::MAX,
    ensures
        file_bytes(v).len() == 20 + children_size(v),
        file_bytes(v).len() == file_size(v),
        u32_at(file_bytes(v), 16) == children_size(v),
{
    lemma_file_body_len(v);
    lemma_file_head(children_size(v) as u32, file_body(v));
}

/// Whether no two of the models share an id.
pub open spec fn distinct_ids(models: Seq<ModelView>) -> bool {
    forall|i: int, j: int|
        0 <= i < models.len() && 0 <= j < models.len() && i != j ==> (#[trigger] models[i]).id != (
        #[trigger] models[j]).id
}

/// Whether every copy names the id of one of the models.
pub open spec fn copies_refer(models: Seq<ModelView>, copies: Seq<CopyView>) -> bool {
    forall|k: int|
        0 <= k < copies.len() ==> exists|i: int|
            0 <= i < models.len() && (#[trigger] models[i]).id == (#[trigger] copies[k]).model_id
}

/// Whether no model and no copy is assigned the layer -1, which on the wire
/// stands for no layer.
pub open spec fn layers_expressible(models: Seq<ModelView>, copies: Seq<CopyView>) -> bool {
    &&& forall|i: int| 0 <= i < models.len() ==> (#[trigger] models[i]).layer != Some(-1i32)
    &&& forall|k: int| 0 <= k < copies.len() ==> (#[trigger] copies[k]).layer != Some(-1i32)
}

/// The ids of the models, in their order.
pub open spec fn model_ids(models: Seq<ModelView>) -> Seq<i32> {
    Seq::new(models.len(), |i: int| models[i].id)
}

/// The placement that the pair of nodes of a model gives is the model's own.
proof fn lemma_model_placement(m: ModelView)
    requires
        m.layer != Some(-1i32),
    ensures
        placement_of(model_node(m)) == Some(
            Placement {
                model_id: m.id,
                position: m.position,
                layer: m.layer,
                rotation: m.rotation,
                name: m.name,
            },
        ),
        placement_of(model_node(m).children[0]) is None,
        model_node(m).children.len() == 1,
        model_node(m).children[0].children.len() == 0,
{
    match m.rotation {
        Some(r) => {
            assert((r as i32) as int % 256 == r as int);
        },
        None => {},
    }
}

/// The placement that the pair of nodes of a copy gives is the copy's own.
proof fn lemma_copy_placement(c: CopyView)
    requires
        c.layer != Some(-1i32),
    ensures
        placement_of(copy_node(c)) == Some(
            Placement {
                model_id: c.model_id,
                position: c.position,
                layer: c.layer,
                rotation: c.rotation,
                name: c.name,
            },
        ),
        placement_of(copy_node(c).children[0]) is None,
        copy_node(c).children.len() == 1,
        copy_node(c).children[0].children.len() == 0,
{
    match c.rotation {
        Some(r) => {
            assert((r as i32) as int % 256 == r as int);
        },
        None => {},
    }
}

/// The walk through a pair of placement nodes is one placement.
proof fn lemma_flatten_pair(n: NodeView, p: Placement, sc: Scene)
    requires
        placement_of(n) == Some(p),
        n.children.len() == 1,
        placement_of(n.children[0]) is None,
        n.children[0].children.len() == 0,
    ensures
        flatten(n, sc) == place(sc, p),
{
    let after = visit(n, sc);
    let kids = n.children;
    assert(kids.drop_last() =~= Seq::<NodeView>::empty());
    assert(kids.last() == kids[0]);
    reveal_with_fuel(flatten_all, 3);
    reveal_with_fuel(flatten, 3);
    assert(flatten_all(kids.drop_last(), after) == after);
    assert(flatten(kids[0], after) == flatten_all(kids[0].children, visit(kids[0], after)));
    assert(visit(kids[0], after) == after);
    assert(flatten_all(kids[0].children, after) == after);
}

/// Whether the models `base` are the models `models` up to their
/// placement: of the same number, each with the same id, size and voxels.
pub open spec fn same_geometry(base: Seq<ModelView>, models: Seq<ModelView>) -> bool {
    &&& base.len() == models.len()
    &&& forall|i: int|
        0 <= i < models.len() ==> {
            &&& (#[trigger] base[i]).id == models[i].id
            &&& base[i].size == models[i].size
            &&& base[i].voxels == models[i].voxels
        }
}

/// The first `j` of `models`, then `base` from index `j` on.
pub open spec fn mixed(models: Seq<ModelView>, base: Seq<ModelView>, j: int) -> Seq<ModelView> {
    Seq::new(
        models.len(),
        |i: int|
            if i < j {
                models[i]
            } else {
                base[i]
            },
    )
}

/// The scene after the walk through the placements of the first `j` models
/// and the first `k` copies: the first `j` models placed, the first `k`
/// copies, and the ids of the first `j` models.
proof fn lemma_flatten_placements(
    models: Seq<ModelView>,
    base: Seq<ModelView>,
    copies: Seq<CopyView>,
    initial: Seq<CopyView>,
    j: int,
    k: int,
)
    requires
        distinct_ids(models),
        same_geometry(base, models),
        copies_refer(models, copies),
        layers_expressible(models, copies),
        0 <= j <= models.len(),
        0 <= k <= copies.len(),
        k > 0 ==> j == models.len(),
    ensures
        flatten_all(
            placement_nodes(models, copies).take(j + k),
            Scene { models: base, copies: initial, used: Seq::empty() },
        ) == (Scene {
            models: mixed(models, base, j),
            copies: initial + copies.take(k),
            used: model_ids(models).take(j),
        }),
    decreases j + k,
{
    let nodes = placement_nodes(models, copies);
    if j + k == 0 {
        assert(nodes.take(0) =~= Seq::<NodeView>::empty());
        assert(initial + copies.take(0) =~= initial);
        assert(model_ids(models).take(0) =~= Seq::<i32>::empty());
        assert(mixed(models, base, 0) =~= base);
    } else if k == 0 {
        lemma_flatten_placements(models, base, copies, initial, j - 1, 0);
        let before = Scene {
            models: mixed(models, base, j - 1),
            copies: initial + copies.take(0),
            used: model_ids(models).take(j - 1),
        };
        let prefix = nodes.take(j);
        assert(prefix.drop_last() =~= nodes.take(j - 1));
        assert(prefix.last() == model_node(models[j - 1]));
        let m = models[j - 1];
        let p = Placement {
            model_id: m.id,
            position: m.position,
            layer: m.layer,
            rotation: m.rotation,
            name: m.name,
        };
        lemma_model_placement(m);
        lemma_flatten_pair(model_node(m), p, before);
        assert(!before.used.contains(m.id)) by {
            if before.used.contains(m.id) {
                let i = choose|i: int| 0 <= i < before.used.len() && before.used[i] == m.id;
                assert(models[i].id == models[j - 1].id);
            }
        }
        let after = place(before, p);
        assert(after.models =~= mixed(models, base, j)) by {
            assert forall|i: int| 0 <= i < models.len() implies placed(before.models[i], p)
                == mixed(models, base, j)[i] by {
                if i != j - 1 {
                    assert(models[i].id != models[j - 1].id);
                    assert(base[i].id == models[i].id);
                } else {
                    assert(base[i].id == models[i].id);
                }
            }
        }
        assert(after.used =~= model_ids(models).take(j));
        assert(initial + copies.take(0) =~= initial + copies.take(k));
    } else {
        lemma_flatten_placements(models, base, copies, initial, j, k - 1);
        let before = Scene {
            models: mixed(models, base, j),
            copies: initial + copies.take(k - 1),
            used: model_ids(models).take(j),
        };
        let prefix = nodes.take(j + k);
        assert(prefix.drop_last() =~= nodes.take(j + k - 1));
        assert(prefix.last() == copy_node(copies[k - 1]));
        let c = copies[k - 1];
        let p = Placement {
            model_id: c.model_id,
            position: c.position,
            layer: c.layer,
            rotation: c.rotation,
            name: c.name,
        };
        lemma_copy_placement(c);
        lemma_flatten_pair(copy_node(c), p, before);
        assert(before.used.contains(c.model_id)) by {
            let i = choose|i: int| 0 <= i < models.len() && models[i].id == copies[k - 1].model_id;
            assert(model_ids(models).take(j)[i] == c.model_id);
        }
        assert(copy_of(p) == c);
        assert((initial + copies.take(k - 1)).push(c) =~= initial + copies.take(k));
    }
}

/// The walk through the tree that is written for some models and copies,
/// over a scene that holds the models without their placement, gives the
/// models with their placement and the copies in their order.
pub proof fn lemma_flatten_rebuilt(
    models: Seq<ModelView>,
    base: Seq<ModelView>,
    copies: Seq<CopyView>,
    initial: Seq<CopyView>,
)
    requires
        distinct_ids(models),
        same_geometry(base, models),
        copies_refer(models, copies),
        layers_expressible(models, copies),
    ensures
        flatten(
            rebuilt(models, copies),
            Scene { models: base, copies: initial, used: Seq::empty() },
        ) == (Scene { models, copies: initial + copies, used: model_ids(models) }),
{
    let root = rebuilt(models, copies);
    let group = root.children[0];
    let start = Scene { models: base, copies: initial, used: Seq::<i32>::empty() };
    let nodes = placement_nodes(models, copies);
    lemma_flatten_placements(
        models,
        base,
        copies,
        initial,
        models.len() as int,
        copies.len() as int,
    );
    assert(nodes.take((models.len() + copies.len()) as int) =~= nodes);
    assert(copies.take(copies.len() as int) =~= copies);
    assert(model_ids(models).take(models.len() as int) =~= model_ids(models));
    assert(mixed(models, base, models.len() as int) =~= models);
    assert(visit(group, start) == start);
    assert(flatten(group, start) == flatten_all(nodes, start));
    assert(visit(root, start) == start);
    assert(root.children.drop_last() =~= Seq::<NodeView>::empty());
    assert(root.children.last() == group);
    reveal_with_fuel(flatten_all, 2);
    assert(flatten_all(root.children, start) == flatten(group, start));
}

/// The walk through the tree that is written for some models and copies
/// gives back those models and copies: each model keeps its placement, and
/// the copies come out in their order. This holds where no two models share
/// an id, every copy names a model, and no layer is -1. The copies that the
/// scene held before the walk stay in front.
pub proof fn theorem_flatten_rebuilt(
    models: Seq<ModelView>,
    copies: Seq<CopyView>,
    initial: Seq<CopyView>,
)
    requires
        distinct_ids(models),
        copies_refer(models, copies),
        layers_expressible(models, copies),
    ensures
        flatten(
            rebuilt(models, copies),
            Scene { models, copies: initial, used: Seq::empty() },
        ) == (Scene { models, copies: initial + copies, used: model_ids(models) }),
{
    lemma_flatten_rebuilt(models, models, copies, initial);
}

/// The scene files that load as they were saved: the models are numbered by
/// their place, every copy names a model, no layer is -1, no voxel has the
/// colour index 0, the palette has its 256 slots, and the file fits a
/// 32-bit size.
pub open spec fn loads_as_saved(v: VoxFileView) -> bool {
    &&& forall|i: int| 0 <= i < v.models.len() ==> (#[trigger] v.models[i]).id == i
    &&& copies_refer(v.models, v.copies)
    &&& layers_expressible(v.models, v.copies)
    &&& forall|i: int| 0 <= i < v.models.len() ==> all_colored((#[trigger] v.models[i]).voxels)
    &&& v.palette.len() == 256
    &&& file_size(written(v)) <= i32::MAX
}

/// Where the parts of a file stand: the chunks of the models from offset 20
/// to `models_end`, the node chunks up to `nodes_end`, the layer chunks up
/// to `layers_end`, and the palette chunk up to the end of the file.
pub struct Layout {
    pub models_end: int,
    pub nodes_end: int,
    pub layers_end: int,
    pub end: int,
}

/// The layout of the file that is written for `v`.
pub open spec fn layout_of(v: VoxFileView) -> Layout {
    let t = written(v);
    let models_end = 20 + models_size(t.models);
    let nodes_end = models_end + nodes_size(t.root_node);
    let layers_end = nodes_end + layers_size(t.layers);
    Layout { models_end, nodes_end, layers_end, end: layers_end + 1036 }
}

/// Whether the parts of the file that is written for `v` stand in `buf`
/// where the layout says.
pub open spec fn laid_out(buf: Seq<u8>, v: VoxFileView) -> bool {
    let t = written(v);
    let l = layout_of(v);
    &&& 20 <= l.models_end <= l.nodes_end <= l.layers_end
    &&& l.end == buf.len()
    &&& l.end <= i32::MAX
    &&& buf.subrange(8, 20) == chunk_header(tag_main(), 0, children_size(t) as u32)
    &&& buf.subrange(20, l.models_end) == models_bytes(t.models)
    &&& buf.subrange(l.models_end, l.nodes_end) == t.root_node.subtree_bytes()
    &&& buf.subrange(l.nodes_end, l.layers_end) == layers_bytes(t.layers)
    &&& buf.subrange(l.layers_end, l.layers_end + 12) == chunk_header(tag_rgba(), 1024, 0)
    &&& buf.subrange(l.layers_end + 12, l.end) == palette_bytes(t.palette)
    &&& t.root_node.all_writable()
    &&& rebuilt(v.models, v.copies).encodable()
    &&& t.root_node.subtree_bytes().len() == nodes_size(t.root_node)
}

/// The file is its first twenty bytes and then its parts.
proof fn lemma_file_parts(t: VoxFileView)
    ensures
        file_bytes(t) == file_head(children_size(t) as u32) + (models_bytes(t.models) + (
        t.root_node.subtree_bytes() + (layers_bytes(t.layers) + (chunk_header(tag_rgba(), 1024, 0)
            + palette_bytes(t.palette))))),
        file_head(children_size(t) as u32).len() == 20,
        file_head(children_size(t) as u32).subrange(8, 20) == chunk_header(
            tag_main(),
            0,
            children_size(t) as u32,
        ),
        chunk_header(tag_rgba(), 1024, 0).len() == 12,
{
    let head = file_head(children_size(t) as u32);
    assert(file_bytes(t) =~= head + (models_bytes(t.models) + (t.root_node.subtree_bytes() + (
    layers_bytes(t.layers) + (chunk_header(tag_rgba(), 1024, 0) + palette_bytes(t.palette))))));
    assert(head.subrange(8, 20) =~= chunk_header(tag_main(), 0, children_size(t) as u32));
}

/// The sizes of the parts of the file that is written.
proof fn lemma_part_sizes(v: VoxFileView)
    requires
        loads_as_saved(v),
    ensures
        ({
            let t = written(v);
            &&& t.root_node.all_writable()
            &&& rebuilt(v.models, v.copies).encodable()
            &&& models_bytes(t.models).len() == models_size(t.models)
            &&& t.root_node.subtree_bytes().len() == nodes_size(t.root_node)
            &&& layers_bytes(t.layers).len() == layers_size(t.layers)
            &&& palette_bytes(t.palette).len() == 1024
            &&& models_size(t.models) >= 0
            &&& nodes_size(t.root_node) >= 0
            &&& layers_size(t.layers) >= 0
        }),
{
    let t = written(v);
    crate::voxfile::write::lemma_written_size(v);
    crate::voxfile::write::lemma_ready(v);
    crate::node::lemma_write_ready(rebuilt(v.models, v.copies), 0);
    lemma_models_bytes_len(t.models);
    lemma_layers_bytes_len(t.layers);
    lemma_palette_bytes_len(t.palette);
    lemma_subtree_bytes_len(t.root_node);
    crate::node::lemma_size_nonneg(t.root_node);
    crate::voxfile::write::lemma_models_size(t.models, 0);
    crate::voxfile::write::lemma_layers_size(t.layers, 0);
}

/// The parts of a file stand where its layout says.
pub proof fn lemma_laid_out(v: VoxFileView)
    requires
        loads_as_saved(v),
    ensures
        laid_out(file_bytes(written(v)), v),
{
    let t = written(v);
    let l = layout_of(v);
    let buf = file_bytes(t);
    lemma_part_sizes(v);
    lemma_file_parts(t);
    let head = file_head(children_size(t) as u32);
    crate::seqs::lemma_six_parts(
        buf,
        head,
        models_bytes(t.models),
        t.root_node.subtree_bytes(),
        layers_bytes(t.layers),
        chunk_header(tag_rgba(), 1024, 0),
        palette_bytes(t.palette),
    );
    lemma_inner(buf, 0, head, 8, 20);
}

/// What the search finds in a file: under a tag other than that of the
/// outer container, what it finds among the models, the nodes, the layers
/// and in the palette chunk.
pub proof fn lemma_search(buf: Seq<u8>, v: VoxFileView, tag: Seq<u8>)
    requires
        laid_out(buf, v),
        tag.len() == 4,
        tag != tag_main(),
    ensures
        ({
            let l = layout_of(v);
            occurrences(buf, tag) == occ_in(buf, 20, l.models_end, tag) + occ_in(
                buf,
                l.models_end,
                l.nodes_end,
                tag,
            ) + occ_in(buf, l.nodes_end, l.layers_end, tag) + (if tag == tag_rgba() {
                seq![l.layers_end]
            } else {
                Seq::<int>::empty()
            })
        }),
{
    let t = written(v);
    let l = layout_of(v);
    lemma_span_chunk(buf, 8, tag_main(), 0, children_size(t) as u32, tag);
    lemma_models_region(buf, 20, t.models, tag);
    lemma_tree_region(buf, l.models_end, t.root_node, tag);
    lemma_layers_region(buf, l.nodes_end, t.layers, tag);
    lemma_span_chunk(buf, l.layers_end, tag_rgba(), 1024, 0, tag);
    lemma_span_join(buf, 8, 20, l.models_end, tag);
    lemma_span_join(buf, 8, l.models_end, l.nodes_end, tag);
    lemma_span_join(buf, 8, l.nodes_end, l.layers_end, tag);
    lemma_span_join(buf, 8, l.layers_end, l.end, tag);
    lemma_span_then(buf, 8, l.end, tag);
    let a = occ_in(buf, 20, l.models_end, tag);
    let b = occ_in(buf, l.models_end, l.nodes_end, tag);
    let c = occ_in(buf, l.nodes_end, l.layers_end, tag);
    let d = occ_in(buf, l.layers_end, l.end, tag);
    assert(occ_in(buf, 8, 20, tag) =~= Seq::<int>::empty());
    assert(occurrences_from(buf, l.end, tag) =~= Seq::<int>::empty());
    assert(occurrences(buf, tag) =~= a + b + c + d);
}

/// What the search finds in a file under the tags that the reader looks
/// for: the models, the layers, the palette chunk, and first among the
/// transform nodes the root of the scene graph.
pub proof fn lemma_found(buf: Seq<u8>, v: VoxFileView)
    requires
        laid_out(buf, v),
    ensures
        occurrences(buf, tag_size()) == model_starts(v.models, 20),
        occurrences(buf, tag_layr()) == layer_starts(v.layers, layout_of(v).nodes_end),
        occurrences(buf, tag_rgba()) == seq![layout_of(v).layers_end],
        occurrences(buf, tag_ntrn()).len() >= 1,
        occurrences(buf, tag_ntrn())[0] == layout_of(v).models_end,
{
    let t = written(v);
    let l = layout_of(v);
    lemma_tags_differ();
    lemma_search(buf, v, tag_size());
    lemma_search(buf, v, tag_layr());
    lemma_search(buf, v, tag_rgba());
    lemma_search(buf, v, tag_ntrn());
    lemma_models_region(buf, 20, t.models, tag_size());
    lemma_models_region(buf, 20, t.models, tag_layr());
    lemma_models_region(buf, 20, t.models, tag_rgba());
    lemma_models_region(buf, 20, t.models, tag_ntrn());
    lemma_tree_region(buf, l.models_end, t.root_node, tag_size());
    lemma_tree_region(buf, l.models_end, t.root_node, tag_layr());
    lemma_tree_region(buf, l.models_end, t.root_node, tag_rgba());
    lemma_tree_region(buf, l.models_end, t.root_node, tag_ntrn());
    lemma_layers_region(buf, l.nodes_end, t.layers, tag_size());
    lemma_layers_region(buf, l.nodes_end, t.layers, tag_layr());
    lemma_layers_region(buf, l.nodes_end, t.layers, tag_rgba());
    lemma_layers_region(buf, l.nodes_end, t.layers, tag_ntrn());
    crate::node::lemma_numbered(rebuilt(v.models, v.copies), 0);
    crate::node::lemma_linked(rebuilt(v.models, v.copies).numbered(0));
    assert(t.root_node.node_type is Transform);
    let e = Seq::<int>::empty();
    assert(model_starts(v.models, 20) + e + e + e =~= model_starts(v.models, 20));
    assert(e + e + layer_starts(v.layers, l.nodes_end) + e =~= layer_starts(
        v.layers,
        l.nodes_end,
    ));
    assert(e + e + e + seq![l.layers_end] =~= seq![l.layers_end]);
    let found = occ_in(buf, l.models_end, l.nodes_end, tag_ntrn());
    assert((e + found + e + e)[0] == found[0]);
}

/// The models as they read back before the scene graph places them.
pub open spec fn bare_models(models: Seq<ModelView>, upto: int) -> Seq<ModelView> {
    Seq::new(upto as nat, |i: int| bare_model(models[i], i as i32))
}

/// The first `upto` of the models whose chunks stand from `p` on read back
/// with their size and their voxels.
pub proof fn lemma_models_at(buf: Seq<u8>, p: int, ms: Seq<ModelView>, upto: int)
    requires
        0 <= p,
        p + models_size(ms) <= buf.len(),
        p + models_size(ms) <= i32::MAX,
        buf.subrange(p, p + models_size(ms)) == models_bytes(ms),
        occurrences(buf, tag_size()) == model_starts(ms, p),
        forall|i: int| 0 <= i < ms.len() ==> all_colored((#[trigger] ms[i]).voxels),
        0 <= upto <= ms.len(),
    ensures
        models_at(buf, upto) == Ok::<Seq<ModelView>, DecodeError>(bare_models(ms, upto)),
    decreases upto,
{
    if upto == 0 {
        assert(bare_models(ms, 0) =~= Seq::<ModelView>::empty());
    } else {
        let i = upto - 1;
        lemma_models_at(buf, p, ms, i);
        lemma_models_slice(ms, i);
        let a = models_size(ms.take(i));
        let b = a + 40 + 4 * ms[i].voxels.len();
        lemma_inner(buf, p, models_bytes(ms), a, b);
        assert(occurrences(buf, tag_size())[i] == p + a);
        lemma_model_round_trip(buf, p + a, ms[i], i as i32);
        assert(bare_models(ms, i).push(bare_model(ms[i], i as i32)) =~= bare_models(ms, upto));
    }
}

/// The layer whose chunk stands at `pos` reads back as it was.
proof fn lemma_layer_at(buf: Seq<u8>, pos: int, layer: LayerView, width: int)
    requires
        0 <= pos,
        width == 12 + layr_size(layer_chunk(layer)),
        pos + width <= buf.len(),
        pos + width <= i32::MAX,
        buf.subrange(pos, pos + width) == layr_bytes(layer_chunk(layer)),
    ensures
        layer_at(buf, pos) == Ok::<LayerView, DecodeError>(layer),
{
    reveal(layer_at);
    crate::riff::records::lemma_layr_round_trip(buf, pos, layer_chunk(layer));
    crate::roundtrip::lemma_layer_round_trip(layer);
}

/// The layer at index `i` of the layers whose chunks stand from `p` on
/// reads back as it was.
proof fn lemma_layer_place(buf: Seq<u8>, p: int, ls: Seq<LayerView>, i: int)
    requires
        0 <= p,
        p + layers_size(ls) <= buf.len(),
        p + layers_size(ls) <= i32::MAX,
        buf.subrange(p, p + layers_size(ls)) == layers_bytes(ls),
        0 <= i < ls.len(),
    ensures
        layer_at(buf, p + layers_size(ls.take(i))) == Ok::<LayerView, DecodeError>(ls[i]),
{
    lemma_layers_slice(ls, i);
    lemma_layr_len(layer_chunk(ls[i]));
    let a = layers_size(ls.take(i));
    let width = 12 + layr_size(layer_chunk(ls[i]));
    lemma_inner(buf, p, layers_bytes(ls), a, a + width);
    lemma_layer_at(buf, p + a, ls[i], width);
}

/// The first `upto` of the layers whose chunks stand from `p` on read back
/// as they were.
pub proof fn lemma_layers_at(buf: Seq<u8>, p: int, ls: Seq<LayerView>, upto: int)
    requires
        0 <= p,
        p + layers_size(ls) <= buf.len(),
        p + layers_size(ls) <= i32::MAX,
        buf.subrange(p, p + layers_size(ls)) == layers_bytes(ls),
        occurrences(buf, tag_layr()) == layer_starts(ls, p),
        0 <= upto <= ls.len(),
    ensures
        layers_at(buf, upto) == Ok::<Seq<LayerView>, DecodeError>(ls.take(upto)),
    decreases upto,
{
    if upto == 0 {
        assert(ls.take(0) =~= Seq::<LayerView>::empty());
    } else {
        let i = upto - 1;
        lemma_layers_at(buf, p, ls, i);
        lemma_layer_place(buf, p, ls, i);
        assert(occurrences(buf, tag_layr())[i] == p + layers_size(ls.take(i)));
        assert(ls.take(i).push(ls[i]) =~= ls.take(upto));
    }
}

/// The tree that is written is bare, and its transform nodes have one child
/// each and its shape nodes none.
pub proof fn lemma_rebuilt_bare(models: Seq<ModelView>, copies: Seq<CopyView>)
    ensures
        bare(rebuilt(models, copies)),
        strict(rebuilt(models, copies)),
        rebuilt(models, copies).node_type is Transform,
{
    let root = rebuilt(models, copies);
    let group = root.children[0];
    assert forall|i: int| 0 <= i < group.children.len() implies bare(#[trigger] group.children[i])
        && strict(group.children[i]) by {
        let pair = group.children[i];
        assert(pair.children.len() == 1);
        assert(pair.children[0].children.len() == 0);
        assert(bare(pair.children[0]));
        assert(strict(pair.children[0]));
    }
    assert(bare(group));
    assert(strict(group));
}

/// The models of the file that is written read back with their size and
/// their voxels.
proof fn lemma_saved_models(buf: Seq<u8>, v: VoxFileView)
    requires
        loads_as_saved(v),
        laid_out(buf, v),
        occurrences(buf, tag_size()) == model_starts(v.models, 20),
    ensures
        models_at(buf, occurrences(buf, tag_size()).len() as int) == Ok::<
            Seq<ModelView>,
            DecodeError,
        >(bare_models(v.models, v.models.len() as int)),
{
    lemma_models_at(buf, 20, v.models, v.models.len() as int);
    assert(model_starts(v.models, 20).len() == v.models.len());
}

/// The layers of the file that is written read back as they were.
proof fn lemma_saved_layers(buf: Seq<u8>, v: VoxFileView)
    requires
        loads_as_saved(v),
        laid_out(buf, v),
        occurrences(buf, tag_layr()) == layer_starts(v.layers, layout_of(v).nodes_end),
    ensures
        layers_at(buf, occurrences(buf, tag_layr()).len() as int) == Ok::<
            Seq<LayerView>,
            DecodeError,
        >(v.layers),
{
    let l = layout_of(v);
    lemma_layers_at(buf, l.nodes_end, v.layers, v.layers.len() as int);
    assert(v.layers.take(v.layers.len() as int) =~= v.layers);
    assert(layer_starts(v.layers, l.nodes_end).len() == v.layers.len());
}

/// The palette of the file that is written reads back as it was.
proof fn lemma_saved_palette(buf: Seq<u8>, v: VoxFileView)
    requires
        loads_as_saved(v),
        laid_out(buf, v),
        occurrences(buf, tag_rgba()) == seq![layout_of(v).layers_end],
    ensures
        palette_at(buf) == Ok::<Seq<Color>, DecodeError>(v.palette),
{
    let l = layout_of(v);
    lemma_colors_round_trip(buf, l.layers_end + 12, v.palette);
}

/// The scene graph of the file that is written reads back as the tree that
/// was written, before it was numbered.
proof fn lemma_saved_tree(buf: Seq<u8>, v: VoxFileView)
    requires
        loads_as_saved(v),
        laid_out(buf, v),
        occurrences(buf, tag_ntrn()).len() >= 1,
        occurrences(buf, tag_ntrn())[0] == layout_of(v).models_end,
    ensures
        tree_at(buf) == Ok::<NodeView, DecodeError>(rebuilt(v.models, v.copies)),
{
    let l = layout_of(v);
    let tree = rebuilt(v.models, v.copies);
    lemma_rebuilt_bare(v.models, v.copies);
    lemma_root(buf, l.models_end, tree, 0);
}

/// The walk through the tree that was written places the models that were
/// read as the models were placed, and gives the copies.
proof fn lemma_saved_scene(v: VoxFileView)
    requires
        loads_as_saved(v),
    ensures
        flatten(
            rebuilt(v.models, v.copies),
            Scene {
                models: bare_models(v.models, v.models.len() as int),
                copies: Seq::empty(),
                used: Seq::empty(),
            },
        ) == (Scene { models: v.models, copies: v.copies, used: model_ids(v.models) }),
{
    let base = bare_models(v.models, v.models.len() as int);
    lemma_flatten_rebuilt(v.models, base, v.copies, Seq::empty());
    assert(Seq::<CopyView>::empty() + v.copies =~= v.copies);
}

/// A scene file that is saved and then loaded is the scene file that was
/// saved: the same models with their voxels, sizes and placements, the same
/// copies, layers and palette. The scene graph that comes back is the tree
/// that was written, before it was numbered.
pub proof fn theorem_load_saved(v: VoxFileView)
    requires
        loads_as_saved(v),
    ensures
        file_at(file_bytes(written(v))) == Ok::<VoxFileView, DecodeError>(
            VoxFileView { root_node: rebuilt(v.models, v.copies), ..v },
        ),
{
    let buf = file_bytes(written(v));
    lemma_laid_out(v);
    lemma_found(buf, v);
    lemma_saved_models(buf, v);
    lemma_saved_layers(buf, v);
    lemma_saved_palette(buf, v);
    lemma_saved_tree(buf, v);
    lemma_saved_scene(v);
}

} // verus!
