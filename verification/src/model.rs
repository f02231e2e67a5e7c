//! Models: a size, voxels, and the placement that the scene graph gives.
use crate::convert::i32_at;
use crate::convert::readable;
use crate::convert::u16_at;
use crate::convert::u16_le;
use crate::convert::u16_to_array;
use crate::convert::u32_le;
use crate::convert::u32_to_array;
use crate::convert::write_slice;
use crate::error::DecodeError;
use crate::error::DomainError;
use crate::node::lemma_view_children;
use crate::node::AttributesView;
use crate::node::Node;
use crate::node::NodeAttributes;
use crate::node::NodeType;
use crate::node::NodeView;
use crate::node::Transform;
use crate::riff::chunk::chunk_header;
use crate::riff::chunk::lemma_tags;
use crate::riff::chunk::tag_size;
use crate::riff::chunk::tag_xyzi;
use crate::riff::chunk::write_chunk;
use crate::riff::records::skip_header;
use crate::riff::records::take_i32;
use crate::riff::tree::leaf;
use crate::riff::tree::with_children;
use crate::voxel::Voxel;
use vstd::prelude::*;

verus! {

/// The largest size of a model along one axis.
pub const MAX_AXIS: u16 = 256;

/// A model: its size along the three axes, its voxels, and where the scene
/// graph places it. The placement is unset until a scene is read.
#[derive(Debug, PartialEq)]
pub struct Model {
    pub size: (u16, u16, u16),
    pub voxels: Vec<Voxel>,
    pub position: Option<(i32, i32, i32)>,
    /// The rotation code.
    pub rotation: Option<u8>,
    pub layer: Option<i32>,
    pub name: Option<String>,
    pub id: i32,
}

/// A model as a mathematical value.
pub struct ModelView {
    pub size: (u16, u16, u16),
    pub voxels: Seq<Voxel>,
    pub position: Option<(i32, i32, i32)>,
    pub rotation: Option<u8>,
    pub layer: Option<i32>,
    pub name: Option<Seq<char>>,
    pub id: i32,
}

impl View for Model {
    type V = ModelView;

    open spec fn view(&self) -> ModelView {
        ModelView {
            size: self.size,
            voxels: self.voxels@,
            position: self.position,
            rotation: self.rotation,
            layer: self.layer,
            name: match self.name {
                Some(n) => Some(n@),
                None => None,
            },
            id: self.id,
        }
    }
}

impl Clone for Model {
    fn clone(&self) -> (r: Model)
        ensures
            r@ == self@,
    {
        let name = match &self.name {
            Some(n) => Some(n.clone()),
            None => None,
        };
        Model {
            size: self.size,
            voxels: self.voxels.clone(),
            position: self.position,
            rotation: self.rotation,
            layer: self.layer,
            name,
            id: self.id,
        }
    }
}

/// The transform that carries a placement: the layer, or -1 for none, the
/// rotation code as a number, and the position as the translation.
pub open spec fn placement_transform(
    position: Option<(i32, i32, i32)>,
    rotation: Option<u8>,
    layer: Option<i32>,
) -> Transform {
    Transform {
        layer: match layer {
            Some(l) => l,
            None => -1i32,
        },
        rotation: match rotation {
            Some(r) => Some(r as i32),
            None => None,
        },
        translation: position,
    }
}

/// The pair of nodes that places a model: a transform node, named as the
/// placement is, above a shape node that refers to the model.
pub open spec fn placement_node(
    model_id: i32,
    position: Option<(i32, i32, i32)>,
    rotation: Option<u8>,
    layer: Option<i32>,
    name: Option<Seq<char>>,
) -> NodeView {
    with_children(
        leaf(
            NodeType::Transform(placement_transform(position, rotation, layer)),
            AttributesView { name, hidden: None },
        ),
        seq![leaf(NodeType::Shape(model_id), AttributesView { name: None, hidden: None })],
    )
}

/// Whether a voxel lies inside a model of the given size.
pub open spec fn inside(v: Voxel, size: (u16, u16, u16)) -> bool {
    v.position.0 < size.0 && v.position.1 < size.1 && v.position.2 < size.2
}

/// The wire form of a list of voxels: four bytes for each.
pub open spec fn voxels_bytes(s: Seq<Voxel>) -> Seq<u8>
    decreases s.len(),
{
    if s.len() == 0 {
        Seq::empty()
    } else {
        voxels_bytes(s.drop_last()) + s.last().bytes()
    }
}

/// The content of the chunk that holds a model's dimensions: each
/// dimension in two bytes, padded to four.
pub open spec fn size_payload(size: (u16, u16, u16)) -> Seq<u8> {
    u16_le(size.0) + seq![0u8, 0u8] + u16_le(size.1) + seq![0u8, 0u8] + u16_le(size.2) + seq![
        0u8,
        0u8,
    ]
}

/// The two chunks of a model on the wire: its dimensions, then the number
/// of its voxels and the voxels.
pub open spec fn model_bytes(m: ModelView) -> Seq<u8> {
    chunk_header(tag_size(), 12, 0) + size_payload(m.size) + chunk_header(
        tag_xyzi(),
        (4 * m.voxels.len() + 4) as u32,
        0,
    ) + u32_le(m.voxels.len() as u32) + voxels_bytes(m.voxels)
}

/// The voxels that the `count` four-byte tuples from `pos` spell.
pub open spec fn voxels_at(buf: Seq<u8>, pos: int, count: int) -> Seq<Voxel> {
    Seq::new(
        count as nat,
        |i: int|
            Voxel {
                position: (buf[pos + 4 * i], buf[pos + 4 * i + 1], buf[pos + 4 * i + 2]),
                colorindex: buf[pos + 4 * i + 3],
            },
    )
}

/// Whether every voxel of `s` has a colour index other than 0.
pub open spec fn all_colored(s: Seq<Voxel>) -> bool {
    forall|i: int| 0 <= i < s.len() ==> (#[trigger] s[i]).colorindex != 0
}

/// The model whose two chunks start at `pos`, with the position behind the
/// number of its voxels. Each dimension is the low two bytes of its field.
/// The model takes the given id and is not placed.
pub open spec fn model_at(buf: Seq<u8>, pos: int, id: i32) -> Result<(ModelView, int), DecodeError> {
    if !readable(buf, pos + 12, 12) || !readable(buf, pos + 36, 4) {
        Err(DecodeError::Truncated)
    } else {
        let count = i32_at(buf, pos + 36) as int;
        if count < 0 || !readable(buf, pos + 40, 4 * count) {
            Err(DecodeError::Truncated)
        } else if !all_colored(voxels_at(buf, pos + 40, count)) {
            Err(DecodeError::InvalidColorIndex)
        } else {
            Ok(
                (
                    ModelView {
                        size: (
                            u16_at(buf, pos + 12),
                            u16_at(buf, pos + 16),
                            u16_at(buf, pos + 20),
                        ),
                        voxels: voxels_at(buf, pos + 40, count),
                        position: None,
                        rotation: None,
                        layer: None,
                        name: None,
                        id,
                    },
                    pos + 40,
                ),
            )
        }
    }
}

/// The lowest coordinates of the voxels `s` along each axis; 255 where
/// there is no voxel.
pub open spec fn lowest(s: Seq<Voxel>) -> (u8, u8, u8)
    decreases s.len(),
{
    if s.len() == 0 {
        (255u8, 255u8, 255u8)
    } else {
        let rest = lowest(s.drop_last());
        let p = s.last().position;
        (
            if p.0 < rest.0 {
                p.0
            } else {
                rest.0
            },
            if p.1 < rest.1 {
                p.1
            } else {
                rest.1
            },
            if p.2 < rest.2 {
                p.2
            } else {
                rest.2
            },
        )
    }
}

/// The highest coordinates of the voxels `s` along each axis; 0 where
/// there is no voxel.
pub open spec fn highest(s: Seq<Voxel>) -> (u8, u8, u8)
    decreases s.len(),
{
    if s.len() == 0 {
        (0u8, 0u8, 0u8)
    } else {
        let rest = highest(s.drop_last());
        let p = s.last().position;
        (
            if p.0 > rest.0 {
                p.0
            } else {
                rest.0
            },
            if p.1 > rest.1 {
                p.1
            } else {
                rest.1
            },
            if p.2 > rest.2 {
                p.2
            } else {
                rest.2
            },
        )
    }
}

/// The voxel `v` moved towards the origin by `by`.
pub open spec fn shifted(v: Voxel, by: (u8, u8, u8)) -> Voxel {
    Voxel {
        position: (
            (v.position.0 - by.0) as u8,
            (v.position.1 - by.1) as u8,
            (v.position.2 - by.2) as u8,
        ),
        colorindex: v.colorindex,
    }
}

/// The size that holds the voxels `s` once their lowest corner is the
/// origin; 1 along each axis where there is no voxel.
pub open spec fn fitted_size(s: Seq<Voxel>) -> (u16, u16, u16) {
    if s.len() == 0 {
        (1u16, 1u16, 1u16)
    } else {
        (
            (highest(s).0 - lowest(s).0 + 1) as u16,
            (highest(s).1 - lowest(s).1 + 1) as u16,
            (highest(s).2 - lowest(s).2 + 1) as u16,
        )
    }
}

/// No voxel lies below the lowest or above the highest coordinates.
pub proof fn lemma_lowest_highest(s: Seq<Voxel>)
    ensures
        forall|i: int|
            0 <= i < s.len() ==> {
                &&& lowest(s).0 <= (#[trigger] s[i]).position.0 <= highest(s).0
                &&& lowest(s).1 <= s[i].position.1 <= highest(s).1
                &&& lowest(s).2 <= s[i].position.2 <= highest(s).2
            },
    decreases s.len(),
{
    if s.len() > 0 {
        lemma_lowest_highest(s.drop_last());
        assert forall|i: int| 0 <= i < s.len() implies {
            &&& lowest(s).0 <= (#[trigger] s[i]).position.0 <= highest(s).0
            &&& lowest(s).1 <= s[i].position.1 <= highest(s).1
            &&& lowest(s).2 <= s[i].position.2 <= highest(s).2
        } by {
            if i < s.len() - 1 {
                assert(s.drop_last()[i] == s[i]);
            }
        }
    }
}

/// The voxels of a row: `x` and `y` fixed, `z` from `start_z` up to but not
/// including `end_z`.
pub open spec fn row_voxels(x: u8, y: u8, start_z: int, end_z: int, colorindex: u8) -> Seq<Voxel>
    decreases end_z - start_z,
{
    if start_z >= end_z {
        Seq::empty()
    } else {
        row_voxels(x, y, start_z, end_z - 1, colorindex).push(
            Voxel { position: (x, y, (end_z - 1) as u8), colorindex },
        )
    }
}

/// The voxels of a plane: `x` fixed, the rows from `start_y` up to but not
/// including `end_y`.
pub open spec fn plane_voxels(
    x: u8,
    start_y: int,
    end_y: int,
    start_z: int,
    end_z: int,
    colorindex: u8,
) -> Seq<Voxel>
    decreases end_y - start_y,
{
    if start_y >= end_y {
        Seq::empty()
    } else {
        plane_voxels(x, start_y, end_y - 1, start_z, end_z, colorindex) + row_voxels(
            x,
            (end_y - 1) as u8,
            start_z,
            end_z,
            colorindex,
        )
    }
}

/// The voxels of a cube, plane by plane: `x` outermost, `z` innermost, each
/// from its start up to but not including its end.
pub open spec fn cube_voxels(
    start_x: int,
    end_x: int,
    start_y: int,
    end_y: int,
    start_z: int,
    end_z: int,
    colorindex: u8,
) -> Seq<Voxel>
    decreases end_x - start_x,
{
    if start_x >= end_x {
        Seq::empty()
    } else {
        cube_voxels(start_x, end_x - 1, start_y, end_y, start_z, end_z, colorindex) + plane_voxels(
            (end_x - 1) as u8,
            start_y,
            end_y,
            start_z,
            end_z,
            colorindex,
        )
    }
}

impl Model {
    /// An empty model of the given size, not yet placed. A size above 256
    /// along an axis is refused.
    pub fn new(x: u16, y: u16, z: u16) -> (r: Result<Model, DomainError>)
        ensures
            x <= 256 && y <= 256 && z <= 256 ==> {
                &&& r matches Ok(m)
                &&& m.size == (x, y, z)
                &&& m.voxels@.len() == 0
                &&& m.position is None
                &&& m.rotation is None
                &&& m.layer is None
                &&& m.name is None
                &&& m.id == 0
            },
            x > 256 || y > 256 || z > 256 ==> (r matches Err(e) && e == DomainError::SizeTooLarge),
    {
        if x > MAX_AXIS || y > MAX_AXIS || z > MAX_AXIS {
            return Err(DomainError::SizeTooLarge);
        }
        Ok(
            Model {
                size: (x, y, z),
                voxels: Vec::new(),
                position: None,
                rotation: None,
                layer: None,
                name: None,
                id: 0,
            },
        )
    }

    /// Appends the four bytes of each voxel to `out`.
    pub fn write_voxels(&self, out: &mut Vec<u8>)
        ensures
            final(out)@ == old(out)@ + voxels_bytes(self.voxels@),
    {
        let mut i: usize = 0;
        assert(self.voxels@.take(0) =~= Seq::<Voxel>::empty());
        while i < self.voxels.len()
            invariant
                i <= self.voxels.len(),
                out@ == old(out)@ + voxels_bytes(self.voxels@.take(i as int)),
            decreases self.voxels.len() - i,
        {
            let v = self.voxels[i];
            out.push(v.position.0);
            out.push(v.position.1);
            out.push(v.position.2);
            out.push(v.colorindex);
            proof {
                let next = self.voxels@.take(i as int + 1);
                assert(next.drop_last() =~= self.voxels@.take(i as int));
                assert(next.last() == v);
                assert(out@ =~= old(out)@ + voxels_bytes(next));
            }
            i = i + 1;
        }
        assert(self.voxels@.take(i as int) =~= self.voxels@);
    }

    /// The number of voxels fits the size field of their chunk.
    pub open spec fn wf(&self) -> bool {
        4 * self.voxels@.len() + 4 <= i32::MAX
    }

    /// Appends the two chunks of the model to `out`.
    pub fn write(&self, out: &mut Vec<u8>)
        requires
            self.wf(),
        ensures
            final(out)@ == old(out)@ + model_bytes(self@),
    {
        proof {
            lemma_tags();
        }
        let x = u16_to_array(self.size.0);
        let y = u16_to_array(self.size.1);
        let z = u16_to_array(self.size.2);
        let size_slice: [u8; 12] = [x[0], x[1], 0, 0, y[0], y[1], 0, 0, z[0], z[1], 0, 0];
        assert(size_slice@ =~= size_payload(self.size));
        write_chunk("SIZE", 12, 0, out);
        write_slice(out, &size_slice);
        write_chunk("XYZI", (self.voxels.len() as u32) * 4 + 4, 0, out);
        write_slice(out, &u32_to_array(self.voxels.len() as u32));
        self.write_voxels(out);
        assert(out@ =~= old(out)@ + model_bytes(self@));
    }

    /// The size of the content of the chunk that holds the voxels.
    pub fn get_size(&self) -> (n: i32)
        requires
            self.wf(),
        ensures
            n == 4 * self.voxels@.len() + 4,
    {
        self.voxels.len() as i32 * 4 + 4
    }

    /// Reads the model whose two chunks start at the cursor, gives it the
    /// id `id`, and moves the cursor behind the number of voxels. On failure
    /// the cursor stays where it was.
    pub fn read(input: &Vec<u8>, cursor: &mut i32, id: i32) -> (r: Result<Model, DecodeError>)
        ensures
            match model_at(input@, *old(cursor) as int, id) {
                Ok((m, next)) => r matches Ok(x) && x@ == m && x.wf() && *final(cursor) == next,
                Err(e) => r matches Err(x) && x == e && *final(cursor) == *old(cursor),
            },
    {
        let start: i32 = match skip_header(*cursor) {
            Ok(p) => p,
            Err(e) => { return Err(e); },
        };
        if start < 0 || start > i32::MAX - 28 || input.len() < 28 || start as usize > input.len()
            - 28 {
            return Err(DecodeError::Truncated);
        }
        let p: usize = start as usize;
        let size_x: u16 = input[p] as u16 + 256 * (input[p + 1] as u16);
        let size_y: u16 = input[p + 4] as u16 + 256 * (input[p + 5] as u16);
        let size_z: u16 = input[p + 8] as u16 + 256 * (input[p + 9] as u16);
        let mut pos: i32 = start + 24;
        let num_of_voxels = match take_i32(input, &mut pos) {
            Ok(n) => n,
            Err(e) => { return Err(e); },
        };
        if num_of_voxels < 0 || num_of_voxels as i64 * 4 + pos as i64 > 0x7fff_ffff
            || num_of_voxels as i64 * 4 + pos as i64 > clamp_len(input) as i64 {
            return Err(DecodeError::Truncated);
        }
        let base: usize = pos as usize;
        let mut voxels: Vec<Voxel> = Vec::new();
        let mut i: usize = 0;
        let ghost all = voxels_at(input@, pos as int, num_of_voxels as int);
        while i < num_of_voxels as usize
            invariant
                0 <= num_of_voxels,
                i <= num_of_voxels,
                *cursor == *old(cursor),
                pos == *cursor + 40,
                readable(input@, *cursor + 12, 12),
                readable(input@, *cursor + 36, 4),
                num_of_voxels == i32_at(input@, *cursor + 36),
                base == pos,
                0 <= pos,
                pos + 4 * num_of_voxels <= input@.len(),
                pos + 4 * num_of_voxels <= i32::MAX,
                all == voxels_at(input@, pos as int, num_of_voxels as int),
                voxels@.len() == i,
                forall|j: int| 0 <= j < i ==> voxels@[j] == all[j],
                forall|j: int| 0 <= j < i ==> (#[trigger] all[j]).colorindex != 0,
            decreases num_of_voxels - i,
        {
            let at: usize = base + 4 * i;
            let bytes: [u8; 4] = [input[at], input[at + 1], input[at + 2], input[at + 3]];
            match Voxel::from_bytes(bytes) {
                Err(e) => {
                    assert(all[i as int].colorindex == 0);
                    return Err(e);
                },
                Ok(v) => {
                    voxels.push(v);
                },
            }
            i = i + 1;
        }
        assert(voxels@ =~= all);
        *cursor = pos;
        Ok(
            Model {
                size: (size_x, size_y, size_z),
                voxels,
                position: None,
                rotation: None,
                layer: None,
                name: None,
                id,
            },
        )
    }

    /// Moves the voxels so that their lowest corner is the origin, and sets
    /// the size to what then holds them.
    pub fn auto_size(&mut self)
        ensures
            final(self).voxels@.len() == old(self).voxels@.len(),
            forall|i: int|
                0 <= i < old(self).voxels@.len() ==> #[trigger] final(self).voxels@[i] == shifted(
                    old(self).voxels@[i],
                    lowest(old(self).voxels@),
                ),
            final(self).size == fitted_size(old(self).voxels@),
            final(self)@ == (ModelView {
                size: final(self).size,
                voxels: final(self).voxels@,
                ..old(self)@
            }),
    {
        let n = self.voxels.len();
        let mut low: (u8, u8, u8) = (255, 255, 255);
        let mut high: (u8, u8, u8) = (0, 0, 0);
        let mut i: usize = 0;
        assert(self.voxels@.take(0) =~= Seq::<Voxel>::empty());
        while i < n
            invariant
                i <= n,
                n == self.voxels@.len(),
                *self == *old(self),
                low == lowest(self.voxels@.take(i as int)),
                high == highest(self.voxels@.take(i as int)),
            decreases n - i,
        {
            let p = self.voxels[i].position;
            proof {
                let next = self.voxels@.take(i as int + 1);
                assert(next.drop_last() =~= self.voxels@.take(i as int));
                assert(next.last() == self.voxels@[i as int]);
            }
            if p.0 < low.0 {
                low.0 = p.0;
            }
            if p.1 < low.1 {
                low.1 = p.1;
            }
            if p.2 < low.2 {
                low.2 = p.2;
            }
            if p.0 > high.0 {
                high.0 = p.0;
            }
            if p.1 > high.1 {
                high.1 = p.1;
            }
            if p.2 > high.2 {
                high.2 = p.2;
            }
            i = i + 1;
        }
        proof {
            assert(self.voxels@.take(n as int) =~= self.voxels@);
            lemma_lowest_highest(self.voxels@);
        }
        let mut moved: Vec<Voxel> = Vec::new();
        let mut k: usize = 0;
        while k < n
            invariant
                k <= n,
                n == self.voxels@.len(),
                *self == *old(self),
                low == lowest(self.voxels@),
                moved@.len() == k,
                forall|j: int|
                    0 <= j < n ==> {
                        &&& low.0 <= (#[trigger] self.voxels@[j]).position.0
                        &&& low.1 <= self.voxels@[j].position.1
                        &&& low.2 <= self.voxels@[j].position.2
                    },
                forall|j: int| 0 <= j < k ==> #[trigger] moved@[j] == shifted(self.voxels@[j], low),
            decreases n - k,
        {
            let v = self.voxels[k];
            moved.push(
                Voxel {
                    position: (v.position.0 - low.0, v.position.1 - low.1, v.position.2 - low.2),
                    colorindex: v.colorindex,
                },
            );
            k = k + 1;
        }
        self.voxels = moved;
        if n == 0 {
            self.size = (1, 1, 1);
        } else {
            proof {
                assert(low.0 <= old(self).voxels@[0].position.0 <= high.0);
                assert(low.1 <= old(self).voxels@[0].position.1 <= high.1);
                assert(low.2 <= old(self).voxels@[0].position.2 <= high.2);
            }
            self.size = (
                (high.0 - low.0) as u16 + 1,
                (high.1 - low.1) as u16 + 1,
                (high.2 - low.2) as u16 + 1,
            );
        }
    }

    /// Appends the voxels of a cube, `x` outermost and `z` innermost, each
    /// coordinate from its start up to but not including its end. A cube
    /// that reaches beyond the model is refused, and so is colour index 0
    /// for a cube that holds a voxel.
    pub fn add_cube(
        &mut self,
        startx: u8,
        starty: u8,
        startz: u8,
        endx: u8,
        endy: u8,
        endz: u8,
        colorindex: u8,
    ) -> (r: Result<(), DomainError>)
        ensures
            ({
                let fits = endx <= old(self).size.0 && endy <= old(self).size.1 && endz <= old(
                    self,
                ).size.2;
                let cube = cube_voxels(
                    startx as int,
                    endx as int,
                    starty as int,
                    endy as int,
                    startz as int,
                    endz as int,
                    colorindex,
                );
                &&& !fits ==> r == Err::<(), DomainError>(DomainError::OutOfBounds) && *final(self)
                    == *old(self)
                &&& fits && colorindex == 0 && cube.len() > 0 ==> r == Err::<(), DomainError>(
                    DomainError::ZeroColorIndex,
                ) && *final(self) == *old(self)
                &&& fits && (colorindex != 0 || cube.len() == 0) ==> r is Ok && final(self)@
                    == (ModelView { voxels: old(self)@.voxels + cube, ..old(self)@ })
            }),
    {
        if endx as u16 > self.size.0 || endy as u16 > self.size.1 || endz as u16 > self.size.2 {
            return Err(DomainError::OutOfBounds);
        }
        let ghost cube = cube_voxels(
            startx as int,
            endx as int,
            starty as int,
            endy as int,
            startz as int,
            endz as int,
            colorindex,
        );
        if colorindex == 0 {
            if startx < endx && starty < endy && startz < endz {
                proof {
                    lemma_cube_nonempty(
                        startx as int,
                        endx as int,
                        starty as int,
                        endy as int,
                        startz as int,
                        endz as int,
                        colorindex,
                    );
                }
                return Err(DomainError::ZeroColorIndex);
            } else {
                proof {
                    lemma_cube_empty(
                        startx as int,
                        endx as int,
                        starty as int,
                        endy as int,
                        startz as int,
                        endz as int,
                        colorindex,
                    );
                    assert(self@.voxels + cube =~= self@.voxels);
                }
                return Ok(());
            }
        }
        let mut x: u8 = startx;
        proof {
            assert(self@.voxels + Seq::<Voxel>::empty() =~= self@.voxels);
        }
        while x < endx
            invariant
                startx <= x <= endx || (endx < startx && x == startx),
                self.size == old(self).size,
                self.position == old(self).position,
                self.rotation == old(self).rotation,
                self.layer == old(self).layer,
                self.name == old(self).name,
                self.id == old(self).id,
                self.voxels@ == old(self).voxels@ + cube_voxels(
                    startx as int,
                    x as int,
                    starty as int,
                    endy as int,
                    startz as int,
                    endz as int,
                    colorindex,
                ),
            decreases endx - x,
        {
            let ghost before_plane = self.voxels@;
            let mut y: u8 = starty;
            proof {
                assert(before_plane + Seq::<Voxel>::empty() =~= before_plane);
            }
            while y < endy
                invariant
                    startx <= x < endx,
                    starty <= y <= endy || (endy < starty && y == starty),
                    self.size == old(self).size,
                    self.position == old(self).position,
                    self.rotation == old(self).rotation,
                    self.layer == old(self).layer,
                    self.name == old(self).name,
                    self.id == old(self).id,
                    self.voxels@ == before_plane + plane_voxels(
                        x,
                        starty as int,
                        y as int,
                        startz as int,
                        endz as int,
                        colorindex,
                    ),
                decreases endy - y,
            {
                let ghost before_row = self.voxels@;
                let mut z: u8 = startz;
                proof {
                    assert(before_row + Seq::<Voxel>::empty() =~= before_row);
                }
                while z < endz
                    invariant
                        starty <= y < endy,
                        startz <= z <= endz || (endz < startz && z == startz),
                        self.size == old(self).size,
                        self.position == old(self).position,
                        self.rotation == old(self).rotation,
                        self.layer == old(self).layer,
                        self.name == old(self).name,
                        self.id == old(self).id,
                        self.voxels@ == before_row + row_voxels(
                            x,
                            y,
                            startz as int,
                            z as int,
                            colorindex,
                        ),
                    decreases endz - z,
                {
                    self.voxels.push(Voxel { position: (x, y, z), colorindex });
                    proof {
                        assert(self.voxels@ =~= before_row + row_voxels(
                            x,
                            y,
                            startz as int,
                            z as int + 1,
                            colorindex,
                        ));
                    }
                    z = z + 1;
                }
                proof {
                    lemma_row_range(x, y, startz as int, z as int, endz as int, colorindex);
                    assert(self.voxels@ =~= before_plane + plane_voxels(
                        x,
                        starty as int,
                        y as int + 1,
                        startz as int,
                        endz as int,
                        colorindex,
                    ));
                }
                y = y + 1;
            }
            proof {
                lemma_plane_range(
                    x,
                    starty as int,
                    y as int,
                    endy as int,
                    startz as int,
                    endz as int,
                    colorindex,
                );
                assert(self.voxels@ =~= old(self).voxels@ + cube_voxels(
                    startx as int,
                    x as int + 1,
                    starty as int,
                    endy as int,
                    startz as int,
                    endz as int,
                    colorindex,
                ));
            }
            x = x + 1;
        }
        proof {
            lemma_cube_range(
                startx as int,
                x as int,
                endx as int,
                starty as int,
                endy as int,
                startz as int,
                endz as int,
                colorindex,
            );
        }
        Ok(())
    }

    /// The transform that carries the model's placement.
    pub fn transform_data(&self) -> (t: Transform)
        ensures
            t == placement_transform(self.position, self.rotation, self.layer),
    {
        Transform {
            layer: match self.layer {
                Some(l) => l,
                None => -1,
            },
            rotation: match self.rotation {
                None => None,
                Some(rot) => Some(rot as i32),
            },
            translation: self.position,
        }
    }

    /// The pair of nodes that places the model.
    pub fn to_node(&self) -> (n: Node)
        ensures
            n@ == placement_node(
                self@.id,
                self@.position,
                self@.rotation,
                self@.layer,
                self@.name,
            ),
    {
        let mut attributes = NodeAttributes::new();
        attributes.name = match &self.name {
            Some(n) => Some(n.clone()),
            None => None,
        };
        let mut transform_node = Node::new(NodeType::Transform(self.transform_data()), attributes);
        let shape_node = Node::new(NodeType::Shape(self.id), NodeAttributes::new());
        proof {
            lemma_view_children(shape_node);
            lemma_view_children(transform_node);
            assert(shape_node@.children =~= Seq::<NodeView>::empty());
            assert(shape_node@.children_ids =~= Seq::<i32>::empty());
            assert(transform_node@.children =~= Seq::<NodeView>::empty());
            assert(transform_node@.children_ids =~= Seq::<i32>::empty());
        }
        transform_node.add_child(shape_node);
        proof {
            lemma_view_children(transform_node);
            assert(transform_node@.children =~= seq![shape_node@]);
        }
        transform_node
    }

    /// Appends a voxel. A voxel outside the model is refused, and so is
    /// one with colour index 0.
    pub fn add_voxel(&mut self, new_voxel: Voxel) -> (r: Result<(), DomainError>)
        ensures
            !inside(new_voxel, old(self).size) ==> r == Err::<(), DomainError>(
                DomainError::OutOfBounds,
            ) && *final(self) == *old(self),
            inside(new_voxel, old(self).size) && new_voxel.colorindex == 0 ==> r == Err::<
                (),
                DomainError,
            >(DomainError::ZeroColorIndex) && *final(self) == *old(self),
            inside(new_voxel, old(self).size) && new_voxel.colorindex != 0 ==> r is Ok
                && final(self)@ == (ModelView {
                voxels: old(self)@.voxels.push(new_voxel),
                ..old(self)@
            }),
    {
        if new_voxel.position.0 as u16 >= self.size.0 || new_voxel.position.1 as u16 >= self.size.1
            || new_voxel.position.2 as u16 >= self.size.2 {
            return Err(DomainError::OutOfBounds);
        }
        if new_voxel.colorindex == 0 {
            return Err(DomainError::ZeroColorIndex);
        }
        self.voxels.push(new_voxel);
        Ok(())
    }

    /// Removes all voxels.
    pub fn clear_voxels(&mut self)
        ensures
            final(self)@ == (ModelView { voxels: Seq::empty(), ..old(self)@ }),
    {
        self.voxels.clear();
    }

    /// Sets the size. A size above 256 along an axis is refused. Voxels
    /// stay where they are, inside the new size or not.
    pub fn set_size(&mut self, x: u16, y: u16, z: u16) -> (r: Result<(), DomainError>)
        ensures
            x <= 256 && y <= 256 && z <= 256 ==> r is Ok && final(self)@ == (ModelView {
                size: (x, y, z),
                ..old(self)@
            }),
            x > 256 || y > 256 || z > 256 ==> r == Err::<(), DomainError>(
                DomainError::SizeTooLarge,
            ) && *final(self) == *old(self),
    {
        if x > MAX_AXIS || y > MAX_AXIS || z > MAX_AXIS {
            return Err(DomainError::SizeTooLarge);
        }
        self.size = (x, y, z);
        Ok(())
    }

    /// Whether a voxel lies at the given position.
    pub fn is_voxel_at_pos(&self, x: u8, y: u8, z: u8) -> (r: bool)
        ensures
            r == exists|i: int|
                0 <= i < self.voxels@.len() && (#[trigger] self.voxels@[i]).position == (x, y, z),
    {
        let mut i: usize = 0;
        while i < self.voxels.len()
            invariant
                i <= self.voxels.len(),
                forall|j: int| 0 <= j < i ==> (#[trigger] self.voxels@[j]).position != (x, y, z),
            decreases self.voxels.len() - i,
        {
            let voxel = self.voxels[i];
            if voxel.position.0 == x && voxel.position.1 == y && voxel.position.2 == z {
                return true;
            }
            i = i + 1;
        }
        false
    }

    /// Removes the voxels that lie outside the model's size.
    pub fn check_voxels_pos(&mut self)
        ensures
            final(self)@ == (ModelView {
                voxels: old(self)@.voxels.filter(|v: Voxel| inside(v, old(self).size)),
                ..old(self)@
            }),
    {
        let size = self.size;
        let mut kept: Vec<Voxel> = Vec::new();
        let mut i: usize = 0;
        let ghost keep = |v: Voxel| inside(v, size);
        assert(self.voxels@.take(0) =~= Seq::<Voxel>::empty());
        proof {
            self.voxels@.take(0).lemma_filter_len(keep);
            assert(self.voxels@.take(0).filter(keep) =~= Seq::<Voxel>::empty());
        }
        while i < self.voxels.len()
            invariant
                i <= self.voxels.len(),
                *self == *old(self),
                size == self.size,
                keep == (|v: Voxel| inside(v, size)),
                kept@ == self.voxels@.take(i as int).filter(keep),
            decreases self.voxels.len() - i,
        {
            let voxel = self.voxels[i];
            proof {
                let next = self.voxels@.take(i as int + 1);
                assert(next.drop_last() =~= self.voxels@.take(i as int));
                assert(next.last() == voxel);
                reveal(Seq::filter);
            }
            if (voxel.position.0 as u16) < size.0 && (voxel.position.1 as u16) < size.1 && (
            voxel.position.2 as u16) < size.2 {
                kept.push(voxel);
            }
            i = i + 1;
        }
        assert(self.voxels@.take(i as int) =~= self.voxels@);
        self.voxels = kept;
    }

    /// Appends a voxel at the given position with the given colour index.
    /// A position outside the model is refused, and so is colour index 0.
    pub fn add_voxel_at_pos(&mut self, x: u8, y: u8, z: u8, voxel_index: u8) -> (r: Result<
        (),
        DomainError,
    >)
        ensures
            ({
                let v = Voxel { position: (x, y, z), colorindex: voxel_index };
                &&& !inside(v, old(self).size) ==> r == Err::<(), DomainError>(
                    DomainError::OutOfBounds,
                ) && *final(self) == *old(self)
                &&& inside(v, old(self).size) && voxel_index == 0 ==> r == Err::<(), DomainError>(
                    DomainError::ZeroColorIndex,
                ) && *final(self) == *old(self)
                &&& inside(v, old(self).size) && voxel_index != 0 ==> r is Ok && final(self)@
                    == (ModelView { voxels: old(self)@.voxels.push(v), ..old(self)@ })
            }),
    {
        if x as u16 >= self.size.0 || y as u16 >= self.size.1 || z as u16 >= self.size.2 {
            return Err(DomainError::OutOfBounds);
        }
        match Voxel::new(x, y, z, voxel_index) {
            Err(e) => Err(e),
            Ok(v) => {
                self.voxels.push(v);
                Ok(())
            },
        }
    }

    /// The number of voxels.
    pub fn num_of_voxels(&self) -> (n: i32)
        requires
            self.voxels@.len() <= i32::MAX,
        ensures
            n == self.voxels@.len(),
    {
        self.voxels.len() as i32
    }

    /// Keeps the voxels for which `closure` returns true, in their order.
    pub fn retain_voxels<T: Fn(&Voxel) -> bool>(&mut self, closure: T)
        requires
            forall|i: int|
                0 <= i < old(self).voxels@.len() ==> call_requires(
                    closure,
                    (&#[trigger] old(self).voxels@[i],),
                ),
        ensures
            exists|kept: Seq<bool>|
                {
                    &&& kept.len() == old(self).voxels@.len()
                    &&& forall|i: int|
                        0 <= i < kept.len() ==> call_ensures(
                            closure,
                            (&old(self).voxels@[i],),
                            #[trigger] kept[i],
                        )
                    &&& final(self).voxels@ == selected(old(self).voxels@, kept)
                },
            final(self)@ == (ModelView { voxels: final(self).voxels@, ..old(self)@ }),
    {
        let mut out: Vec<Voxel> = Vec::new();
        let mut i: usize = 0;
        let ghost mut kept: Seq<bool> = Seq::empty();
        assert(self.voxels@.take(0) =~= Seq::<Voxel>::empty());
        while i < self.voxels.len()
            invariant
                i <= self.voxels.len(),
                *self == *old(self),
                kept.len() == i,
                forall|j: int|
                    0 <= j < self.voxels@.len() ==> call_requires(
                        closure,
                        (&#[trigger] self.voxels@[j],),
                    ),
                forall|j: int|
                    0 <= j < i ==> call_ensures(closure, (&self.voxels@[j],), #[trigger] kept[j]),
                out@ == selected(self.voxels@.take(i as int), kept),
            decreases self.voxels.len() - i,
        {
            let keep = closure(&self.voxels[i]);
            proof {
                let next = self.voxels@.take(i as int + 1);
                assert(next.drop_last() =~= self.voxels@.take(i as int));
                assert(kept.push(keep).drop_last() =~= kept);
                kept = kept.push(keep);
            }
            if keep {
                out.push(self.voxels[i]);
            }
            i = i + 1;
        }
        assert(self.voxels@.take(i as int) =~= self.voxels@);
        self.voxels = out;
    }

    /// Replaces every voxel by what `closure` makes of it.
    pub fn change_voxels<T: Fn(Voxel) -> Voxel>(&mut self, closure: T)
        requires
            forall|i: int|
                0 <= i < old(self).voxels@.len() ==> call_requires(
                    closure,
                    (#[trigger] old(self).voxels@[i],),
                ),
        ensures
            final(self).voxels@.len() == old(self).voxels@.len(),
            forall|i: int|
                0 <= i < old(self).voxels@.len() ==> call_ensures(
                    closure,
                    (old(self).voxels@[i],),
                    #[trigger] final(self).voxels@[i],
                ),
            final(self)@ == (ModelView { voxels: final(self).voxels@, ..old(self)@ }),
    {
        let mut out: Vec<Voxel> = Vec::new();
        let mut i: usize = 0;
        while i < self.voxels.len()
            invariant
                i <= self.voxels.len(),
                *self == *old(self),
                out@.len() == i,
                forall|j: int|
                    0 <= j < self.voxels@.len() ==> call_requires(
                        closure,
                        (#[trigger] self.voxels@[j],),
                    ),
                forall|j: int|
                    0 <= j < i ==> call_ensures(closure, (self.voxels@[j],), #[trigger] out@[j]),
            decreases self.voxels.len() - i,
        {
            out.push(closure(self.voxels[i]));
            i = i + 1;
        }
        self.voxels = out;
    }
}

/// The length of a buffer, or the largest cursor where it is longer.
fn clamp_len(input: &Vec<u8>) -> (n: i32)
    ensures
        n == if input@.len() > i32::MAX {
            i32::MAX as int
        } else {
            input@.len() as int
        },
{
    if input.len() > 0x7fff_ffff {
        0x7fff_ffff
    } else {
        input.len() as i32
    }
}

/// A row that ends where it starts, or before, is empty; so every row up to
/// any end at or before its start is the same.
pub proof fn lemma_row_range(x: u8, y: u8, start: int, at: int, end: int, colorindex: u8)
    requires
        at >= end,
        at == start || at == end,
    ensures
        row_voxels(x, y, start, at, colorindex) == row_voxels(x, y, start, end, colorindex),
{
}

/// A plane that ends where it starts, or before, is empty.
pub proof fn lemma_plane_range(
    x: u8,
    start: int,
    at: int,
    end: int,
    start_z: int,
    end_z: int,
    colorindex: u8,
)
    requires
        at >= end,
        at == start || at == end,
    ensures
        plane_voxels(x, start, at, start_z, end_z, colorindex) == plane_voxels(
            x,
            start,
            end,
            start_z,
            end_z,
            colorindex,
        ),
{
}

/// A cube that ends where it starts, or before, is empty.
pub proof fn lemma_cube_range(
    start: int,
    at: int,
    end: int,
    start_y: int,
    end_y: int,
    start_z: int,
    end_z: int,
    colorindex: u8,
)
    requires
        at >= end,
        at == start || at == end,
    ensures
        cube_voxels(start, at, start_y, end_y, start_z, end_z, colorindex) == cube_voxels(
            start,
            end,
            start_y,
            end_y,
            start_z,
            end_z,
            colorindex,
        ),
{
}

/// The number of voxels in a row.
pub proof fn lemma_row_len(x: u8, y: u8, start_z: int, end_z: int, colorindex: u8)
    ensures
        row_voxels(x, y, start_z, end_z, colorindex).len() == (if end_z > start_z {
            end_z - start_z
        } else {
            0
        }),
    decreases end_z - start_z,
{
    if start_z < end_z {
        lemma_row_len(x, y, start_z, end_z - 1, colorindex);
    }
}

/// A plane with no row or with empty rows is empty; otherwise it is not.
pub proof fn lemma_plane_len(x: u8, start_y: int, end_y: int, start_z: int, end_z: int, colorindex: u8)
    ensures
        (start_y < end_y && start_z < end_z) ==> plane_voxels(
            x,
            start_y,
            end_y,
            start_z,
            end_z,
            colorindex,
        ).len() > 0,
        !(start_y < end_y && start_z < end_z) ==> plane_voxels(
            x,
            start_y,
            end_y,
            start_z,
            end_z,
            colorindex,
        ).len() == 0,
    decreases end_y - start_y,
{
    if start_y < end_y {
        lemma_plane_len(x, start_y, end_y - 1, start_z, end_z, colorindex);
        lemma_row_len(x, (end_y - 1) as u8, start_z, end_z, colorindex);
    }
}

/// A cube whose ranges all hold a coordinate holds a voxel.
pub proof fn lemma_cube_nonempty(
    start_x: int,
    end_x: int,
    start_y: int,
    end_y: int,
    start_z: int,
    end_z: int,
    colorindex: u8,
)
    requires
        start_x < end_x,
        start_y < end_y,
        start_z < end_z,
    ensures
        cube_voxels(start_x, end_x, start_y, end_y, start_z, end_z, colorindex).len() > 0,
{
    lemma_plane_len((end_x - 1) as u8, start_y, end_y, start_z, end_z, colorindex);
}

/// A cube with an empty range holds no voxel.
pub proof fn lemma_cube_empty(
    start_x: int,
    end_x: int,
    start_y: int,
    end_y: int,
    start_z: int,
    end_z: int,
    colorindex: u8,
)
    requires
        !(start_x < end_x && start_y < end_y && start_z < end_z),
    ensures
        cube_voxels(start_x, end_x, start_y, end_y, start_z, end_z, colorindex).len() == 0,
    decreases end_x - start_x,
{
    if start_x < end_x {
        lemma_cube_empty(start_x, end_x - 1, start_y, end_y, start_z, end_z, colorindex);
        lemma_plane_len((end_x - 1) as u8, start_y, end_y, start_z, end_z, colorindex);
    }
}

/// The elements of `s` whose flag in `kept` is true, in their order.
pub open spec fn selected(s: Seq<Voxel>, kept: Seq<bool>) -> Seq<Voxel>
    decreases s.len(),
{
    if s.len() == 0 || kept.len() != s.len() {
        Seq::empty()
    } else if kept.last() {
        selected(s.drop_last(), kept.drop_last()).push(s.last())
    } else {
        selected(s.drop_last(), kept.drop_last())
    }
}

} // verus!
