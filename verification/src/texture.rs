//! Textures: the field of a chequered texture, and image textures, which are
//! a decoded bitmap and the lookup of one of its pixels.
//!
//! The bitmap comes in as plain values: a width, a height, and the pixels row
//! by row from the top, three bytes each (red, green, blue). Reading and
//! decoding a file is the caller's business.

use vstd::prelude::*;
use crate::scalar::{less_than, lt, ZERO};

verus! {

/// Which field of a chequered texture a point lies in, from the product of
/// the sines of its three coordinates: the odd field where the product is
/// negative, else the even one.
pub fn checker_is_odd(sines: u64) -> (odd: bool)
    ensures
        odd == lt(sines, ZERO),
{
    less_than(sines, ZERO)
}

/// The number of bytes that one pixel takes.
pub const BYTES_PER_PIXEL: usize = 3;

/// The number of bytes of a bitmap of the given size.
pub open spec fn byte_count(width: int, height: int) -> int {
    BYTES_PER_PIXEL * width * height
}

/// Whether the three values describe a bitmap that has at least one pixel.
pub open spec fn is_bitmap(width: u32, height: u32, data: Seq<u8>) -> bool {
    &&& width > 0
    &&& height > 0
    &&& data.len() == byte_count(width as int, height as int)
}

/// An index brought back into `0 .. len`: one that is too large becomes the
/// last one.
pub open spec fn clamped(index: int, len: int) -> int {
    if index >= len {
        len - 1
    } else {
        index
    }
}

/// The place of the first byte of the pixel in column `x` of row `y`.
pub open spec fn offset(width: int, x: int, y: int) -> int {
    BYTES_PER_PIXEL * (y * width + x)
}

/// The pixel in column `x` of row `y`: red, green and blue.
pub open spec fn pixel(data: Seq<u8>, width: int, x: int, y: int) -> (u8, u8, u8) {
    (
        data[offset(width, x, y)],
        data[offset(width, x, y) + 1],
        data[offset(width, x, y) + 2],
    )
}

/// The bytes of a pixel inside the bitmap lie inside its data.
pub proof fn lemma_offset_in_bounds(width: int, height: int, x: int, y: int)
    requires
        0 <= x < width,
        0 <= y < height,
    ensures
        0 <= y * width <= y * width + x,
        0 <= offset(width, x, y),
        offset(width, x, y) + 2 < byte_count(width, height),
{
    assert(0 <= y * width && y * width + width <= height * width) by (nonlinear_arith)
        requires
            0 <= y < height,
            0 < width,
    ;
    assert(BYTES_PER_PIXEL * width * height == 3 * (height * width)) by (nonlinear_arith);
}

/// A decoded bitmap with at least one pixel.
#[derive(Debug)]
pub struct Bitmap {
    width: u32,
    height: u32,
    data: Vec<u8>,
}

impl Clone for Bitmap {
    fn clone(&self) -> (copy: Bitmap)
        ensures
            copy.columns() == self.columns(),
            copy.rows() == self.rows(),
            copy.bytes() == self.bytes(),
    {
        proof {
            use_type_invariant(self);
        }
        let data = self.data.clone();
        assert(data@ =~= self.data@);
        Bitmap { width: self.width, height: self.height, data }
    }
}

impl Bitmap {
    /// The data holds three bytes for each pixel, and there is a pixel.
    #[verifier::type_invariant]
    pub closed spec fn well_formed(&self) -> bool {
        is_bitmap(self.width, self.height, self.data@)
    }

    /// The number of columns.
    pub closed spec fn columns(&self) -> u32 {
        self.width
    }

    /// The number of rows.
    pub closed spec fn rows(&self) -> u32 {
        self.height
    }

    /// The pixels, row by row from the top, three bytes each.
    pub closed spec fn bytes(&self) -> Seq<u8> {
        self.data@
    }

    /// Takes the three values as a bitmap, if they describe one: both sizes
    /// positive, and three bytes of data for each pixel.
    pub fn new(width: u32, height: u32, data: Vec<u8>) -> (made: Option<Bitmap>)
        ensures
            made.is_some() <==> is_bitmap(width, height, data@),
            made.is_some() ==> made.unwrap().columns() == width && made.unwrap().rows() == height
                && made.unwrap().bytes() == data@,
    {
        assert(0 <= width * height <= 0xffff_ffff * 0xffff_ffff) by (nonlinear_arith)
            requires
                0 <= width <= 0xffff_ffff,
                0 <= height <= 0xffff_ffff,
        ;
        let pixels: u128 = (width as u128) * (height as u128);
        let needed: u128 = 3 * pixels;
        assert(needed == byte_count(width as int, height as int)) by (nonlinear_arith)
            requires
                needed == 3 * (width * height),
        ;
        if width > 0 && height > 0 && data.len() as u128 == needed {
            Some(Bitmap { width, height, data })
        } else {
            None
        }
    }

    /// The number of columns.
    pub fn width(&self) -> (w: u32)
        ensures
            w == self.columns(),
            w > 0,
    {
        proof {
            use_type_invariant(self);
        }
        self.width
    }

    /// The number of rows.
    pub fn height(&self) -> (h: u32)
        ensures
            h == self.rows(),
            h > 0,
    {
        proof {
            use_type_invariant(self);
        }
        self.height
    }

    /// The pixel in column `i` of row `j`, where an index past the end counts
    /// as the last one.
    pub fn get_pixel(&self, i: u32, j: u32) -> (rgb: (u8, u8, u8))
        ensures
            rgb == pixel(
                self.bytes(),
                self.columns() as int,
                clamped(i as int, self.columns() as int),
                clamped(j as int, self.rows() as int),
            ),
    {
        proof {
            use_type_invariant(self);
        }
        let x: u32 = if i >= self.width {
            self.width - 1
        } else {
            i
        };
        let y: u32 = if j >= self.height {
            self.height - 1
        } else {
            j
        };
        let data: &Vec<u8> = &self.data;
        proof {
            lemma_offset_in_bounds(self.width as int, self.height as int, x as int, y as int);
            assert(byte_count(self.width as int, self.height as int) == data.len() <= usize::MAX);
        }
        let row_start: usize = (y as usize) * (self.width as usize);
        let at: usize = BYTES_PER_PIXEL * (row_start + x as usize);
        (data[at], data[at + 1], data[at + 2])
    }
}

/// A texture that takes its colours from a bitmap, if there is one.
#[derive(Debug, Clone)]
pub struct ImageTexture {
    img: Option<Bitmap>,
}

impl ImageTexture {
    /// The bitmap behind the texture, or `None` where there is none.
    pub closed spec fn image(&self) -> Option<Bitmap> {
        self.img
    }

    /// A texture over the decoded image that the three values describe. Where
    /// they describe none (a size of zero, or data of the wrong length), the
    /// texture has no bitmap.
    pub fn new(width: u32, height: u32, data: Vec<u8>) -> (texture: ImageTexture)
        ensures
            texture.image().is_some() <==> is_bitmap(width, height, data@),
            texture.image().is_some() ==> {
                &&& texture.image().unwrap().columns() == width
                &&& texture.image().unwrap().rows() == height
                &&& texture.image().unwrap().bytes() == data@
            },
    {
        ImageTexture { img: Bitmap::new(width, height, data) }
    }

    /// The texture of an image that could not be loaded.
    pub fn missing() -> (texture: ImageTexture)
        ensures
            texture.image().is_none(),
    {
        ImageTexture { img: None }
    }

    /// The size of the bitmap, columns first, or `None` where there is no
    /// bitmap.
    pub fn dimensions(&self) -> (size: Option<(u32, u32)>)
        ensures
            size == match self.image() {
                Some(bitmap) => Some((bitmap.columns(), bitmap.rows())),
                None => None,
            },
    {
        match &self.img {
            Some(bitmap) => Some((bitmap.width(), bitmap.height())),
            None => None,
        }
    }

    /// The colour that the texture stores for column `i` of row `j`, where an
    /// index past the end counts as the last one; `None` where there is no
    /// bitmap.
    pub fn texel(&self, i: u32, j: u32) -> (rgb: Option<(u8, u8, u8)>)
        ensures
            rgb == match self.image() {
                Some(bitmap) => Some(
                    pixel(
                        bitmap.bytes(),
                        bitmap.columns() as int,
                        clamped(i as int, bitmap.columns() as int),
                        clamped(j as int, bitmap.rows() as int),
                    ),
                ),
                None => None,
            },
    {
        match &self.img {
            Some(bitmap) => Some(bitmap.get_pixel(i, j)),
            None => None,
        }
    }
}

} // verus!
