//! Writing pixels into the RGBA buffer of the application icon.
use vstd::prelude::*;

verus! {

/// The byte offset of pixel (`x`, `y`) in an RGBA image `size` pixels wide.
pub open spec fn pixel_offset(size: int, x: int, y: int) -> int {
    (y * size + x) * 4
}

/// Writes the colour `rgba` at pixel (`x`, `y`) of an RGBA image `size`
/// pixels wide; every other byte is unchanged.
pub fn put_pixel(pixels: &mut [u8], size: u32, x: u32, y: u32, rgba: [u8; 4])
    requires
        pixel_offset(size as int, x as int, y as int) + 4 <= old(pixels)@.len(),
        pixel_offset(size as int, x as int, y as int) <= u32::MAX,
    ensures
        final(pixels)@.len() == old(pixels)@.len(),
        forall|k: int|
            0 <= k < old(pixels)@.len() ==> #[trigger] final(pixels)@[k] == (if pixel_offset(
                size as int,
                x as int,
                y as int,
            ) <= k < pixel_offset(size as int, x as int, y as int) + 4 {
                rgba@[k - pixel_offset(size as int, x as int, y as int)]
            } else {
                old(pixels)@[k]
            }),
{
    let ghost off = pixel_offset(size as int, x as int, y as int);
    assert(0 <= y * size <= y * size + x) by (nonlinear_arith);
    let row = y * size;
    let index = ((row + x) * 4) as usize;
    pixels[index] = rgba[0];
    pixels[index + 1] = rgba[1];
    pixels[index + 2] = rgba[2];
    pixels[index + 3] = rgba[3];
}

} // verus!
