use vstd::prelude::*;
use crate::error::HashError;

verus! {

/// One pixel sample: 8-bit red, green and blue channels.
#[derive(Clone, Copy, Debug, PartialEq, Eq, Structural)]
pub struct Rgb {
    pub r: u8,
    pub g: u8,
    pub b: u8,
}

/// A rectangular grid of pixel samples in row-major order: the sample at
/// column `x` of row `y` sits at index `y * width + x` of the buffer.
///
/// The buffer length always equals `width * height`. A grid of zero width or
/// height is representable (it carries an empty buffer); the generator
/// rejects such a grid rather than this constructor, so that the rejection
/// is reported where the caller asked for work.
pub struct PixelGrid {
    width: usize,
    height: usize,
    pixels: Vec<Rgb>,
}

impl PixelGrid {
    /// Number of columns.
    pub closed spec fn spec_width(&self) -> nat {
        self.width as nat
    }

    /// Number of rows.
    pub closed spec fn spec_height(&self) -> nat {
        self.height as nat
    }

    /// The samples, row-major.
    pub closed spec fn spec_pixels(&self) -> Seq<Rgb> {
        self.pixels@
    }

    /// The buffer holds exactly one sample per grid position.
    pub open spec fn wf(&self) -> bool {
        self.spec_pixels().len() == self.spec_width() * self.spec_height()
    }

    /// Builds a grid from its dimensions and a row-major sample buffer.
    /// Rejects a buffer whose length does not match the dimensions.
    pub fn new(width: usize, height: usize, pixels: Vec<Rgb>) -> (r: Result<PixelGrid, HashError>)
        ensures
            r is Ok <==> pixels@.len() == width * height,
            r matches Ok(g) ==> g.wf() && g.spec_width() == width && g.spec_height() == height
                && g.spec_pixels() == pixels@,
            r is Err ==> r == Err::<PixelGrid, HashError>(HashError::InvalidInput),
    {
        let n = pixels.len();
        // The mathematical product width * height can exceed usize; a checked
        // product that overflows cannot equal the buffer length.
        match width.checked_mul(height) {
            Some(expected) => {
                if n == expected {
                    Ok(PixelGrid { width, height, pixels })
                } else {
                    Err(HashError::InvalidInput)
                }
            },
            None => Err(HashError::InvalidInput),
        }
    }

    pub fn width(&self) -> (r: usize)
        ensures
            r == self.spec_width(),
    {
        self.width
    }

    pub fn height(&self) -> (r: usize)
        ensures
            r == self.spec_height(),
    {
        self.height
    }

    /// Total number of samples, `width * height`.
    pub fn pixel_count(&self) -> (r: usize)
        ensures
            r == self.spec_pixels().len(),
    {
        self.pixels.len()
    }

    /// The sample at buffer index `i` (row-major).
    pub fn pixel(&self, i: usize) -> (r: Rgb)
        requires
            i < self.spec_pixels().len(),
        ensures
            r == self.spec_pixels()[i as int],
    {
        self.pixels[i]
    }
}

} // verus!
