//! The loader for files that hold one model: the model's two chunks stand
//! right behind the header of the outer container, at offset 20, and the
//! palette is searched among the chunks that follow the voxels.
use crate::color::Color;
use crate::convert::readable;
use crate::error::DecodeError;
use crate::model::inside;
use crate::model::model_at;
use crate::model::Model;
use crate::model::ModelView;
use crate::riff::chunk::find_chunk_from;
use crate::riff::chunk::lemma_occurrences_bound;
use crate::riff::chunk::lemma_tags;
use crate::riff::chunk::occurrences_from;
use crate::riff::chunk::tag_rgba;
use crate::voxel::Voxel;
use crate::voxfile::read::colors_at;
use crate::voxobject::Voxobject;
use vstd::prelude::*;

verus! {

/// A container as a mathematical value: its one model and its palette.
pub struct VoxobjectView {
    pub model: ModelView,
    pub palette: Seq<Color>,
}

/// Whether every voxel of `s` lies inside a model of the given size.
pub open spec fn all_inside(s: Seq<Voxel>, size: (u16, u16, u16)) -> bool {
    forall|i: int| 0 <= i < s.len() ==> inside(#[trigger] s[i], size)
}

/// The container that a buffer holds: the model at offset 20, whose voxels
/// must lie inside it, and the first palette chunk behind the voxels.
pub open spec fn voxobject_at(buf: Seq<u8>) -> Result<VoxobjectView, DecodeError> {
    match model_at(buf, 20, 0) {
        Err(e) => Err(e),
        Ok((model, next)) => {
            let found = occurrences_from(buf, 60 + 4 * model.voxels.len() as int, tag_rgba());
            if found.len() == 0 {
                Err(DecodeError::ChunkNotFound)
            } else if !readable(buf, found[0] + 12, 1024) {
                Err(DecodeError::Truncated)
            } else if !all_inside(model.voxels, model.size) {
                Err(DecodeError::VoxelOutOfBounds)
            } else {
                Ok(VoxobjectView { model, palette: colors_at(buf, found[0] + 12) })
            }
        },
    }
}

/// The voxel that four bytes spell: x, y, z and the palette index.
pub fn array_to_voxel(array: [u8; 4]) -> (r: Result<Voxel, DecodeError>)
    ensures
        array@[3] != 0 ==> r == Ok::<Voxel, DecodeError>(
            Voxel { position: (array@[0], array@[1], array@[2]), colorindex: array@[3] },
        ),
        array@[3] == 0 ==> r == Err::<Voxel, DecodeError>(DecodeError::InvalidColorIndex),
{
    Voxel::from_bytes(array)
}

/// Whether every voxel of the model lies inside it.
fn voxels_inside(model: &Model) -> (r: bool)
    ensures
        r == all_inside(model.voxels@, model.size),
{
    let mut i: usize = 0;
    while i < model.voxels.len()
        invariant
            i <= model.voxels.len(),
            forall|j: int| 0 <= j < i ==> inside(#[trigger] model.voxels@[j], model.size),
        decreases model.voxels.len() - i,
    {
        let v = model.voxels[i];
        if v.position.0 as u16 >= model.size.0 || v.position.1 as u16 >= model.size.1
            || v.position.2 as u16 >= model.size.2 {
            return false;
        }
        i = i + 1;
    }
    true
}

/// The container that `contents` holds.
pub fn load_voxobject(contents: &Vec<u8>) -> (r: Result<Voxobject, DecodeError>)
    ensures
        match voxobject_at(contents@) {
            Ok(v) => {
                &&& r matches Ok(x)
                &&& x.size == v.model.size
                &&& x.models@.len() == 1
                &&& x.models@[0]@ == v.model
                &&& x.palette@ == v.palette
            },
            Err(e) => r matches Err(x) && x == e,
        },
{
    let mut cursor: i32 = 20;
    let model = match Model::read(contents, &mut cursor, 0) {
        Ok(m) => m,
        Err(e) => { return Err(e); },
    };
    proof {
        lemma_tags();
    }
    let end_of_voxels: u64 = 60 + (model.voxels.len() as u64) * 4;
    proof {
        lemma_occurrences_bound(contents@, end_of_voxels as int, tag_rgba());
    }
    let found = match find_chunk_from(contents, end_of_voxels, "RGBA".as_bytes(), 1) {
        Ok(p) => p,
        Err(e) => { return Err(e); },
    };
    if found > 0x7fff_ffff - 1036 || contents.len() < 1036 || found > contents.len() - 1036 {
        return Err(DecodeError::Truncated);
    }
    if !voxels_inside(&model) {
        return Err(DecodeError::VoxelOutOfBounds);
    }
    let current_pos: usize = found + 12;
    let mut palette: [Color; 256] = [Color { r: 0, g: 0, b: 0, a: 0 };256];
    let mut i: usize = 0;
    while i < 256
        invariant
            i <= 256,
            current_pos + 1024 <= contents@.len(),
            contents@.len() <= usize::MAX,
            forall|j: int|
                0 <= j < i ==> palette@[j] == colors_at(contents@, current_pos as int)[j],
        decreases 256 - i,
    {
        let r: u8 = contents[current_pos + (i * 4)];
        let g: u8 = contents[current_pos + (i * 4) + 1];
        let b: u8 = contents[current_pos + (i * 4) + 2];
        let a: u8 = contents[current_pos + (i * 4) + 3];
        palette[i] = Color::new(r, g, b, a);
        i = i + 1;
    }
    assert(palette@ =~= colors_at(contents@, current_pos as int));
    let size = model.size;
    let mut models: Vec<Model> = Vec::new();
    models.push(model);
    Ok(Voxobject { size, models, palette })
}

} // verus!
