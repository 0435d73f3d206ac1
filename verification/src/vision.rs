//! Geometry of image vectors: the target size of a vectorized image, the
//! spatial cell of a pixel, and which files are read as images.
use vstd::prelude::*;

use crate::text::{chars_of, str_eq, string_from_chars};

verus! {

/// Side of the square grid of spatial cells.
pub const SPATIAL_GRID: usize = 4;

/// Size an image is resized to before it becomes a vector.
#[derive(Debug, Clone, Copy, PartialEq, Eq, Structural)]
pub struct ImageVectorConfig {
    pub width: u32,
    pub height: u32,
    pub invert: bool,
}

impl ImageVectorConfig {
    /// A `width` by `height` configuration that keeps intensities as they are.
    pub fn new(width: u32, height: u32) -> (r: Self)
        ensures
            r == (ImageVectorConfig { width, height, invert: false }),
    {
        ImageVectorConfig { width, height, invert: false }
    }

    /// Number of pixels of the resized image.
    pub fn pixel_count(self) -> (r: usize)
        requires
            self.width * self.height <= u32::MAX,
        ensures
            r == self.width * self.height,
    {
        (self.width * self.height) as usize
    }
}

/// A configuration with a zero side is refused.
#[derive(Debug, Clone, Copy, PartialEq, Eq, Structural)]
pub struct InvalidImageSize;

/// Accepts configurations whose width and height are both positive.
pub fn validate_config(config: ImageVectorConfig) -> (r: Result<(), InvalidImageSize>)
    ensures
        r is Ok <==> (config.width > 0 && config.height > 0),
{
    if config.width == 0 || config.height == 0 {
        Err(InvalidImageSize)
    } else {
        Ok(())
    }
}

/// The cell, row-major in the `SPATIAL_GRID` by `SPATIAL_GRID` grid, that
/// pixel `(x, y)` of a `width` by `height` image falls in.
pub open spec fn spatial_cell_of(x: nat, y: nat, width: nat, height: nat) -> nat {
    let w = if width == 0 {
        1
    } else {
        width
    };
    let h = if height == 0 {
        1
    } else {
        height
    };
    let cx = if x * 4 / w < 3 {
        x * 4 / w
    } else {
        3
    };
    let cy = if y * 4 / h < 3 {
        y * 4 / h
    } else {
        3
    };
    cy * 4 + cx
}

/// The spatial cell of pixel `(x, y)`.
pub fn spatial_cell(x: usize, y: usize, width: usize, height: usize) -> (r: usize)
    requires
        x * SPATIAL_GRID <= usize::MAX,
        y * SPATIAL_GRID <= usize::MAX,
    ensures
        r == spatial_cell_of(x as nat, y as nat, width as nat, height as nat),
        r < SPATIAL_GRID * SPATIAL_GRID,
{
    let w = if width == 0 {
        1
    } else {
        width
    };
    let h = if height == 0 {
        1
    } else {
        height
    };
    let raw_x = x * SPATIAL_GRID / w;
    let raw_y = y * SPATIAL_GRID / h;
    let cell_x = if raw_x < SPATIAL_GRID - 1 {
        raw_x
    } else {
        SPATIAL_GRID - 1
    };
    let cell_y = if raw_y < SPATIAL_GRID - 1 {
        raw_y
    } else {
        SPATIAL_GRID - 1
    };
    cell_y * SPATIAL_GRID + cell_x
}

/// ASCII lower case of a character; other characters are kept.
pub open spec fn ascii_lower(c: char) -> char {
    if 'A' <= c <= 'Z' {
        ((c as u32) + 32) as char
    } else {
        c
    }
}

fn ascii_lower_char(c: char) -> (r: char)
    ensures
        r == ascii_lower(c),
{
    if 'A' <= c && c <= 'Z' {
        ((c as u32) + 32) as u8 as char
    } else {
        c
    }
}

/// The characters with ASCII letters in lower case.
pub(crate) fn ascii_lowercase(cs: &Vec<char>) -> (r: Vec<char>)
    ensures
        r@ == cs@.map_values(|c: char| ascii_lower(c)),
{
    let mut lower: Vec<char> = Vec::new();
    let mut i: usize = 0;
    while i < cs.len()
        invariant
            i <= cs@.len(),
            lower@ == cs@.take(i as int).map_values(|c: char| ascii_lower(c)),
        decreases cs@.len() - i,
    {
        lower.push(ascii_lower_char(cs[i]));
        i = i + 1;
        assert(lower@ =~= cs@.take(i as int).map_values(|c: char| ascii_lower(c)));
    }
    assert(cs@.take(i as int) =~= cs@);
    lower
}

/// Extensions, in any ASCII case, of files read as images.
pub open spec fn is_image_extension(extension: Seq<char>) -> bool {
    let lower = extension.map_values(|c: char| ascii_lower(c));
    lower == "jpg"@ || lower == "jpeg"@ || lower == "png"@
}

/// Whether a file extension names an image format that is read: `jpg`,
/// `jpeg` or `png`, in any ASCII case.
pub fn supported_image_extension(extension: &str) -> (r: bool)
    ensures
        r == is_image_extension(extension@),
{
    let lower = ascii_lowercase(&chars_of(extension));
    let text = string_from_chars(lower.as_slice());
    let t = text.as_str();
    str_eq(t, "jpg") || str_eq(t, "jpeg") || str_eq(t, "png")
}

} // verus!
