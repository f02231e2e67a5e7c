//! The single-palette container that came before the scene file: a size,
//! models and a palette.
use crate::color::Color;
use crate::error::DomainError;
use crate::model::Model;
use crate::voxfile::gray_palette;
use crate::voxfile::palette::all_set;
use crate::voxfile::palette::get_color;
use crate::voxfile::palette::set_all;
use crate::voxfile::palette::set_color;
use crate::voxfile::palette::with_color;
use vstd::prelude::*;

verus! {

/// Models of one size with their palette.
pub struct Voxobject {
    pub size: (u16, u16, u16),
    pub models: Vec<Model>,
    /// The colour of palette index `i` stands in slot `i - 1`.
    pub palette: [Color; 256],
}

impl Voxobject {
    /// A container of the given size with one empty model and a gray
    /// palette. A size above 256 along an axis is refused.
    pub fn new(size_x: u16, size_y: u16, size_z: u16) -> (r: Result<Voxobject, DomainError>)
        ensures
            size_x <= 256 && size_y <= 256 && size_z <= 256 ==> {
                &&& r matches Ok(v)
                &&& v.size == (size_x, size_y, size_z)
                &&& v.models@.len() == 1
                &&& v.models@[0].size == (size_x, size_y, size_z)
                &&& v.models@[0].voxels@.len() == 0
                &&& v.palette@ == gray_palette()
            },
            size_x > 256 || size_y > 256 || size_z > 256 ==> (r matches Err(e) && e
                == DomainError::SizeTooLarge),
    {
        let model = match Model::new(size_x, size_y, size_z) {
            Ok(m) => m,
            Err(e) => { return Err(e); },
        };
        let mut models: Vec<Model> = Vec::new();
        models.push(model);
        let palette = [Color { r: 75, g: 75, b: 75, a: 255 };256];
        assert(palette@ =~= gray_palette());
        Ok(Voxobject { size: (size_x, size_y, size_z), models, palette })
    }

    /// Sets every slot of the palette to gray.
    pub fn reset_palette(&mut self)
        ensures
            final(self).palette@ == gray_palette(),
            final(self).size == old(self).size,
            final(self).models == old(self).models,
    {
        self.palette = [Color { r: 75, g: 75, b: 75, a: 255 };256];
        assert(self.palette@ =~= gray_palette());
    }

    /// Sets the colour of palette index `index`. Index 0 is refused.
    pub fn set_palette_color(&mut self, index: u8, r: u8, g: u8, b: u8, a: u8) -> (res: Result<
        (),
        DomainError,
    >)
        ensures
            index == 0 ==> res == Err::<(), DomainError>(DomainError::ZeroColorIndex)
                && final(self).palette@ == old(self).palette@,
            index != 0 ==> res is Ok && final(self).palette@ == with_color(
                old(self).palette@,
                index,
                Color { r, g, b, a },
            ),
            final(self).size == old(self).size,
            final(self).models == old(self).models,
    {
        set_color(&mut self.palette, index, Color { r, g, b, a })
    }

    /// The colour of palette index `index`. Index 0 is refused.
    pub fn get_palette_color(&self, index: u8) -> (res: Result<Color, DomainError>)
        ensures
            index == 0 ==> res == Err::<Color, DomainError>(DomainError::ZeroColorIndex),
            index != 0 ==> res == Ok::<Color, DomainError>(self.palette@[index as int - 1]),
    {
        get_color(&self.palette, index)
    }

    /// Sets the colour of the palette indices 1 to 255.
    pub fn set_all_palette_color(&mut self, r: u8, g: u8, b: u8, a: u8)
        ensures
            final(self).palette@ == all_set(old(self).palette@, Color { r, g, b, a }),
            final(self).size == old(self).size,
            final(self).models == old(self).models,
    {
        set_all(&mut self.palette, Color { r, g, b, a });
    }
}

} // verus!
