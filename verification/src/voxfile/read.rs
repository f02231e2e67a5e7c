//! Reading a scene file.
//!
//! The models are the chunks tagged `SIZE`, numbered from 0 in file order;
//! the palette is the first chunk tagged `RGBA`; the layers are the chunks
//! tagged `LAYR`; the scene graph starts at the first chunk tagged `nTRN`.
//! The placements of the scene graph are then handed to the models, and
//! those that name a model again become copies.
use crate::color::Color;
use crate::convert::readable;
use crate::error::DecodeError;
use crate::layer::layer_of;
use crate::layer::Layer;
use crate::layer::LayerView;
use crate::model::model_at;
use crate::model::Model;
use crate::model::ModelView;
use crate::riff::chunk::find_chunk;
use crate::riff::chunk::lemma_occurrences_bound;
use crate::riff::chunk::lemma_tags;
use crate::riff::chunk::num_of_chunks;
use crate::riff::chunk::occurrences;
use crate::riff::chunk::tag_layr;
use crate::riff::chunk::tag_rgba;
use crate::riff::chunk::tag_size;
use crate::riff::records::layr_at;
use crate::riff::records::LAYR;
use crate::riff::tree::nodes_from_chunks;
use crate::riff::tree::tree_at;
use crate::voxfile::layer_views;
use crate::voxfile::model_views;
use crate::voxfile::reconcile::flatten;
use crate::voxfile::reconcile::Scene;
use crate::voxfile::VoxFile;
use crate::voxfile::VoxFileView;
use vstd::prelude::*;

verus! {

/// The first `upto` models of a file, each with its number as id.
pub open spec fn models_at(buf: Seq<u8>, upto: int) -> Result<Seq<ModelView>, DecodeError>
    decreases upto,
{
    if upto <= 0 {
        Ok(Seq::empty())
    } else {
        match models_at(buf, upto - 1) {
            Err(e) => Err(e),
            Ok(front) => match model_at(
                buf,
                occurrences(buf, tag_size())[upto - 1],
                (upto - 1) as i32,
            ) {
                Err(e) => Err(e),
                Ok((m, next)) => Ok(front.push(m)),
            },
        }
    }
}

/// The 256 colours that stand from `pos` on, four bytes for each.
pub open spec fn colors_at(buf: Seq<u8>, pos: int) -> Seq<Color> {
    Seq::new(
        256,
        |i: int|
            Color {
                r: buf[pos + 4 * i],
                g: buf[pos + 4 * i + 1],
                b: buf[pos + 4 * i + 2],
                a: buf[pos + 4 * i + 3],
            },
    )
}

/// The palette of a file: the content of the first chunk tagged `RGBA`.
pub open spec fn palette_at(buf: Seq<u8>) -> Result<Seq<Color>, DecodeError> {
    let found = occurrences(buf, tag_rgba());
    if found.len() == 0 {
        Err(DecodeError::ChunkNotFound)
    } else if !readable(buf, found[0] + 12, 1024) {
        Err(DecodeError::Truncated)
    } else {
        Ok(colors_at(buf, found[0] + 12))
    }
}

/// The layer that the layer chunk at `pos` describes.
#[verifier::opaque]
pub open spec fn layer_at(buf: Seq<u8>, pos: int) -> Result<LayerView, DecodeError> {
    match layr_at(buf, pos) {
        Err(e) => Err(e),
        Ok((chunk, next)) => layer_of(chunk),
    }
}

/// The first `upto` layers of a file.
pub open spec fn layers_at(buf: Seq<u8>, upto: int) -> Result<Seq<LayerView>, DecodeError>
    decreases upto,
{
    if upto <= 0 {
        Ok(Seq::empty())
    } else {
        match layers_at(buf, upto - 1) {
            Err(e) => Err(e),
            Ok(front) => match layer_at(buf, occurrences(buf, tag_layr())[upto - 1]) {
                Err(e) => Err(e),
                Ok(l) => Ok(front.push(l)),
            },
        }
    }
}

/// The scene file that a buffer holds. The first part that cannot be read
/// decides the error: the models, then the palette, the layers, and the
/// scene graph.
pub open spec fn file_at(buf: Seq<u8>) -> Result<VoxFileView, DecodeError> {
    match models_at(buf, occurrences(buf, tag_size()).len() as int) {
        Err(e) => Err(e),
        Ok(models) => match palette_at(buf) {
            Err(e) => Err(e),
            Ok(palette) => match layers_at(buf, occurrences(buf, tag_layr()).len() as int) {
                Err(e) => Err(e),
                Ok(layers) => match tree_at(buf) {
                    Err(e) => Err(e),
                    Ok(tree) => {
                        let scene = flatten(
                            tree,
                            Scene { models, copies: Seq::empty(), used: Seq::empty() },
                        );
                        Ok(
                            VoxFileView {
                                models: scene.models,
                                palette,
                                root_node: tree,
                                layers,
                                copies: scene.copies,
                            },
                        )
                    },
                },
            },
        },
    }
}

/// The models of a file.
fn read_models(contents: &Vec<u8>) -> (r: Result<Vec<Model>, DecodeError>)
    ensures
        match models_at(contents@, occurrences(contents@, tag_size()).len() as int) {
            Ok(m) => r matches Ok(x) && model_views(x@) == m,
            Err(e) => r matches Err(x) && x == e,
        },
{
    proof {
        lemma_tags();
        lemma_occurrences_bound(contents@, 8, tag_size());
    }
    let num_of_models = num_of_chunks(contents, "SIZE".to_owned());
    let mut models: Vec<Model> = Vec::new();
    let mut i: i32 = 1;
    proof {
        assert(model_views(models@) =~= Seq::<ModelView>::empty());
    }
    while i < num_of_models + 1
        invariant
            1 <= i <= num_of_models + 1,
            num_of_models == occurrences(contents@, tag_size()).len(),
            num_of_models < i32::MAX,
            vstd::utf8::encode_utf8("SIZE"@) == tag_size(),
            forall|j: int|
                0 <= j < num_of_models ==> readable(
                    contents@,
                    #[trigger] occurrences(contents@, tag_size())[j],
                    8,
                ),
            models_at(contents@, i - 1) == Ok::<Seq<ModelView>, DecodeError>(model_views(models@)),
        decreases num_of_models + 1 - i,
    {
        let found = match find_chunk(contents, "SIZE".to_owned(), i) {
            Ok(p) => p,
            Err(e) => { return Err(e); },
        };
        assert(readable(contents@, occurrences(contents@, tag_size())[i - 1], 8));
        let mut chunk_pos: i32 = found as i32;
        let model = match Model::read(contents, &mut chunk_pos, i - 1) {
            Ok(m) => m,
            Err(e) => {
                proof {
                    lemma_models_at_error(contents@, i as int, num_of_models as int);
                }
                return Err(e);
            },
        };
        let ghost front = model_views(models@);
        models.push(model);
        proof {
            assert(model_views(models@) =~= front.push(model@));
            assert(models_at(contents@, i as int) == Ok::<Seq<ModelView>, DecodeError>(
                front.push(model@),
            ));
        }
        i = i + 1;
    }
    Ok(models)
}

/// Where a model cannot be read, neither can the models up to any later
/// one.
pub proof fn lemma_models_at_error(buf: Seq<u8>, at: int, upto: int)
    requires
        1 <= at <= upto,
        models_at(buf, at) is Err,
    ensures
        models_at(buf, upto) == models_at(buf, at),
    decreases upto - at,
{
    if at < upto {
        lemma_models_at_error(buf, at, upto - 1);
    }
}

/// Where a layer cannot be read, neither can the layers up to any later
/// one.
pub proof fn lemma_layers_at_error(buf: Seq<u8>, at: int, upto: int)
    requires
        1 <= at <= upto,
        layers_at(buf, at) is Err,
    ensures
        layers_at(buf, upto) == layers_at(buf, at),
    decreases upto - at,
{
    if at < upto {
        lemma_layers_at_error(buf, at, upto - 1);
    }
}

/// The palette of a file.
fn read_palette(contents: &Vec<u8>) -> (r: Result<[Color; 256], DecodeError>)
    ensures
        match palette_at(contents@) {
            Ok(p) => r matches Ok(x) && x@ == p,
            Err(e) => r matches Err(x) && x == e,
        },
{
    proof {
        lemma_tags();
        lemma_occurrences_bound(contents@, 8, tag_rgba());
    }
    let found = match find_chunk(contents, "RGBA".to_owned(), 1) {
        Ok(p) => p,
        Err(e) => { return Err(e); },
    };
    assert(found == occurrences(contents@, tag_rgba())[0]);
    if found > 0x7fff_ffff - 1036 || contents.len() < 1036 || found > contents.len() - 1036 {
        return Err(DecodeError::Truncated);
    }
    let current_pos: usize = found + 12;
    let mut palette: [Color; 256] = [Color { r: 0, g: 0, b: 0, a: 0 };256];
    let mut i: usize = 0;
    while i < 256
        invariant
            i <= 256,
            current_pos + 1024 <= contents@.len(),
            contents@.len() <= usize::MAX,
            forall|j: int|
                0 <= j < i ==> palette@[j] == colors_at(contents@, current_pos as int)[j],
        decreases 256 - i,
    {
        let r: u8 = contents[current_pos + (i * 4)];
        let g: u8 = contents[current_pos + (i * 4) + 1];
        let b: u8 = contents[current_pos + (i * 4) + 2];
        let a: u8 = contents[current_pos + (i * 4) + 3];
        palette[i] = Color::new(r, g, b, a);
        i = i + 1;
    }
    assert(palette@ =~= colors_at(contents@, current_pos as int));
    Ok(palette)
}

/// The layers of a file.
fn read_layers(contents: &Vec<u8>) -> (r: Result<Vec<Layer>, DecodeError>)
    ensures
        match layers_at(contents@, occurrences(contents@, tag_layr()).len() as int) {
            Ok(l) => r matches Ok(x) && layer_views(x@) == l,
            Err(e) => r matches Err(x) && x == e,
        },
{
    proof {
        lemma_tags();
        lemma_occurrences_bound(contents@, 8, tag_layr());
    }
    let num_of_layers = num_of_chunks(contents, "LAYR".to_owned());
    let mut layers: Vec<Layer> = Vec::new();
    let mut i: i32 = 1;
    proof {
        assert(layer_views(layers@) =~= Seq::<LayerView>::empty());
    }
    while i < num_of_layers + 1
        invariant
            1 <= i <= num_of_layers + 1,
            num_of_layers == occurrences(contents@, tag_layr()).len(),
            num_of_layers < i32::MAX,
            vstd::utf8::encode_utf8("LAYR"@) == tag_layr(),
            forall|j: int|
                0 <= j < num_of_layers ==> readable(
                    contents@,
                    #[trigger] occurrences(contents@, tag_layr())[j],
                    8,
                ),
            layers_at(contents@, i - 1) == Ok::<Seq<LayerView>, DecodeError>(layer_views(layers@)),
        decreases num_of_layers + 1 - i,
    {
        let found = match find_chunk(contents, "LAYR".to_owned(), i) {
            Ok(p) => p,
            Err(e) => { return Err(e); },
        };
        assert(readable(contents@, occurrences(contents@, tag_layr())[i - 1], 8));
        proof {
            reveal(layer_at);
        }
        let mut chunk_pos: i32 = found as i32;
        let chunk = match LAYR::read(contents, &mut chunk_pos) {
            Ok(c) => c,
            Err(e) => {
                proof {
                    lemma_layers_at_error(contents@, i as int, num_of_layers as int);
                }
                return Err(e);
            },
        };
        let layer = match Layer::from_chunk(chunk) {
            Ok(l) => l,
            Err(e) => {
                proof {
                    lemma_layers_at_error(contents@, i as int, num_of_layers as int);
                }
                return Err(e);
            },
        };
        let ghost front = layer_views(layers@);
        layers.push(layer);
        proof {
            assert(layer_views(layers@) =~= front.push(layer@));
            assert(layers_at(contents@, i as int) == Ok::<Seq<LayerView>, DecodeError>(
                front.push(layer@),
            ));
        }
        i = i + 1;
    }
    Ok(layers)
}

impl VoxFile {
    /// The scene file that `contents` holds.
    pub fn load(contents: &Vec<u8>) -> (r: Result<VoxFile, DecodeError>)
        ensures
            match file_at(contents@) {
                Ok(v) => r matches Ok(x) && x@ == v,
                Err(e) => r matches Err(x) && x == e,
            },
    {
        let models = match read_models(contents) {
            Ok(m) => m,
            Err(e) => { return Err(e); },
        };
        let palette = match read_palette(contents) {
            Ok(p) => p,
            Err(e) => { return Err(e); },
        };
        let layers = match read_layers(contents) {
            Ok(l) => l,
            Err(e) => { return Err(e); },
        };
        let root_node = match nodes_from_chunks(contents) {
            Ok(n) => n,
            Err(e) => { return Err(e); },
        };
        let mut voxfile = VoxFile { models, palette, root_node, layers, copies: Vec::new() };
        proof {
            assert(voxfile@.copies =~= Seq::<crate::copy::CopyView>::empty());
        }
        voxfile.get_node_data();
        Ok(voxfile)
    }
}

} // verus!
