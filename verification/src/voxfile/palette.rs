//! The palette of a scene file: 256 slots, addressed by the indices 1 to
//! 255, so that index `i` stands in slot `i - 1`.
use crate::color::Color;
use crate::error::DomainError;
use crate::voxfile::gray_palette;
use crate::voxfile::VoxFile;
use crate::voxfile::VoxFileView;
use vstd::prelude::*;

verus! {

/// The palette `p` with index `index` set to `c`.
pub open spec fn with_color(p: Seq<Color>, index: u8, c: Color) -> Seq<Color> {
    p.update(index as int - 1, c)
}

/// The palette `p` with the slots of the indices 1 to 255 set to `c`. The
/// last slot, which no index reaches, stays as it is.
pub open spec fn all_set(p: Seq<Color>, c: Color) -> Seq<Color> {
    Seq::new(
        p.len(),
        |i: int|
            if i < 255 {
                c
            } else {
                p[i]
            },
    )
}

/// Sets the colour of index `index` in `palette`. Index 0 is refused.
pub fn set_color(palette: &mut [Color; 256], index: u8, c: Color) -> (r: Result<(), DomainError>)
    ensures
        index == 0 ==> r == Err::<(), DomainError>(DomainError::ZeroColorIndex) && final(palette)@
            == old(palette)@,
        index != 0 ==> r is Ok && final(palette)@ == with_color(old(palette)@, index, c),
{
    if index == 0 {
        return Err(DomainError::ZeroColorIndex);
    }
    let slot: usize = (index - 1) as usize;
    palette[slot] = c;
    Ok(())
}

/// The colour of index `index` in `palette`. Index 0 is refused.
pub fn get_color(palette: &[Color; 256], index: u8) -> (r: Result<Color, DomainError>)
    ensures
        index == 0 ==> r == Err::<Color, DomainError>(DomainError::ZeroColorIndex),
        index != 0 ==> r == Ok::<Color, DomainError>(palette@[index as int - 1]),
{
    if index == 0 {
        return Err(DomainError::ZeroColorIndex);
    }
    let slot: usize = (index - 1) as usize;
    Ok(palette[slot])
}

/// Sets the colour of the indices 1 to 255 in `palette`.
pub fn set_all(palette: &mut [Color; 256], c: Color)
    ensures
        final(palette)@ == all_set(old(palette)@, c),
{
    let mut i: usize = 0;
    while i < 255
        invariant
            i <= 255,
            forall|j: int| 0 <= j < i ==> palette@[j] == c,
            forall|j: int| i <= j < 256 ==> palette@[j] == old(palette)@[j],
        decreases 255 - i,
    {
        palette[i] = c;
        i = i + 1;
    }
    assert(palette@ =~= all_set(old(palette)@, c));
}

impl VoxFile {
    /// Sets the colour of palette index `index`. Index 0 is refused.
    pub fn set_palette_color(&mut self, index: u8, r: u8, g: u8, b: u8, a: u8) -> (res: Result<
        (),
        DomainError,
    >)
        ensures
            index == 0 ==> res == Err::<(), DomainError>(DomainError::ZeroColorIndex)
                && final(self)@ == old(self)@,
            index != 0 ==> res is Ok && final(self)@ == (VoxFileView {
                palette: with_color(old(self)@.palette, index, Color { r, g, b, a }),
                ..old(self)@
            }),
    {
        set_color(&mut self.palette, index, Color { r, g, b, a })
    }

    /// Sets every slot of the palette to gray.
    pub fn reset_palette(&mut self)
        ensures
            final(self)@ == (VoxFileView { palette: gray_palette(), ..old(self)@ }),
    {
        self.palette = [Color { r: 75, g: 75, b: 75, a: 255 };256];
        assert(self.palette@ =~= gray_palette());
    }

    /// The colour of palette index `index`. Index 0 is refused.
    pub fn get_palette_color(&self, index: u8) -> (res: Result<Color, DomainError>)
        ensures
            index == 0 ==> res == Err::<Color, DomainError>(DomainError::ZeroColorIndex),
            index != 0 ==> res == Ok::<Color, DomainError>(self@.palette[index as int - 1]),
    {
        get_color(&self.palette, index)
    }

    /// Sets the colour of the palette indices 1 to 255.
    pub fn set_all_palette_color(&mut self, r: u8, g: u8, b: u8, a: u8)
        ensures
            final(self)@ == (VoxFileView {
                palette: all_set(old(self)@.palette, Color { r, g, b, a }),
                ..old(self)@
            }),
    {
        set_all(&mut self.palette, Color { r, g, b, a });
    }
}

} // verus!
