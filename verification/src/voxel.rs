//! Single voxels.
use crate::error::DecodeError;
use crate::error::DomainError;
use vstd::prelude::*;
use vstd::std_specs::cmp::PartialEqSpecImpl;
use vstd::std_specs::ops::AddSpecImpl;

verus! {

/// A voxel: a position inside a model and an index into the palette.
#[derive(Clone, Copy, Debug)]
pub struct Voxel {
    pub position: (u8, u8, u8),
    /// The palette index, from 1 to 255.
    pub colorindex: u8,
}

impl Voxel {
    /// A voxel at the given position with the given palette index. Index 0
    /// is reserved and refused.
    pub fn new(x: u8, y: u8, z: u8, colorindex_value: u8) -> (r: Result<Voxel, DomainError>)
        ensures
            colorindex_value != 0 ==> r == Ok::<Voxel, DomainError>(
                Voxel { position: (x, y, z), colorindex: colorindex_value },
            ),
            colorindex_value == 0 ==> r == Err::<Voxel, DomainError>(DomainError::ZeroColorIndex),
    {
        if colorindex_value == 0 {
            return Err(DomainError::ZeroColorIndex);
        }
        Ok(Voxel { position: (x, y, z), colorindex: colorindex_value })
    }

    /// The voxel that four bytes of a file spell: x, y, z and the palette
    /// index.
    pub fn from_bytes(voxel_bytes: [u8; 4]) -> (r: Result<Voxel, DecodeError>)
        ensures
            voxel_bytes@[3] != 0 ==> r == Ok::<Voxel, DecodeError>(
                Voxel {
                    position: (voxel_bytes@[0], voxel_bytes@[1], voxel_bytes@[2]),
                    colorindex: voxel_bytes@[3],
                },
            ),
            voxel_bytes@[3] == 0 ==> r == Err::<Voxel, DecodeError>(DecodeError::InvalidColorIndex),
    {
        if voxel_bytes[3] == 0 {
            return Err(DecodeError::InvalidColorIndex);
        }
        Ok(
            Voxel {
                position: (voxel_bytes[0], voxel_bytes[1], voxel_bytes[2]),
                colorindex: voxel_bytes[3],
            },
        )
    }

    /// The four bytes of the voxel on the wire.
    pub open spec fn bytes(self) -> Seq<u8> {
        seq![self.position.0, self.position.1, self.position.2, self.colorindex]
    }
}

impl PartialEq for Voxel {
    fn eq(&self, other: &Voxel) -> (r: bool) {
        self.position.0 == other.position.0 && self.position.1 == other.position.1
            && self.position.2 == other.position.2 && self.colorindex == other.colorindex
    }
}

impl PartialEqSpecImpl for Voxel {
    open spec fn obeys_eq_spec() -> bool {
        true
    }

    open spec fn eq_spec(&self, other: &Voxel) -> bool {
        self.position.0 == other.position.0 && self.position.1 == other.position.1
            && self.position.2 == other.position.2 && self.colorindex == other.colorindex
    }
}

impl std::ops::Add for Voxel {
    type Output = Vec<Voxel>;

    /// The two voxels as a list.
    fn add(self, other: Voxel) -> (v: Vec<Voxel>)
        ensures
            v@ == seq![self, other],
    {
        let mut v: Vec<Voxel> = Vec::new();
        v.push(self);
        v.push(other);
        assert(v@ =~= seq![self, other]);
        v
    }
}

impl AddSpecImpl for Voxel {
    open spec fn obeys_add_spec() -> bool {
        false
    }

    open spec fn add_req(self, other: Voxel) -> bool {
        true
    }

    open spec fn add_spec(self, other: Voxel) -> Vec<Voxel> {
        arbitrary()
    }
}

} // verus!
