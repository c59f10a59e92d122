use vstd::prelude::*;
use crate::error::HashError;

verus! {

/// The immutable parameters of a fingerprint generator: the dimensions of the
/// luminance grid the source image is resampled to. The fingerprint has one
/// bit per grid cell, so two fingerprints are comparable exactly when they
/// were produced under configurations with equal `grid_width * grid_height`.
///
/// Built once, then passed to `generate` for as many images as the caller
/// likes; it holds no mutable state.
#[derive(Clone, Copy, Debug)]
pub struct Config {
    grid_width: usize,
    grid_height: usize,
}

impl Config {
    pub closed spec fn spec_grid_width(&self) -> nat {
        self.grid_width as nat
    }

    pub closed spec fn spec_grid_height(&self) -> nat {
        self.grid_height as nat
    }

    /// Number of bits in every fingerprint generated under this configuration.
    pub open spec fn spec_bit_count(&self) -> nat {
        self.spec_grid_width() * self.spec_grid_height()
    }

    /// Both grid dimensions are positive, and the bit count is small enough
    /// that the packed byte count `(bit_count + 7) / 8` can be computed
    /// without overflow.
    pub open spec fn wf(&self) -> bool {
        1 <= self.spec_grid_width() && 1 <= self.spec_grid_height()
            && self.spec_bit_count() <= usize::MAX - 7
    }

    /// Builds a configuration; a zero-sized target grid is degenerate and is
    /// rejected, as is one whose bit count cannot be represented.
    pub fn new(grid_width: usize, grid_height: usize) -> (r: Result<Config, HashError>)
        ensures
            r is Ok <==> 1 <= grid_width && 1 <= grid_height
                && grid_width * grid_height <= usize::MAX - 7,
            r matches Ok(c) ==> c.wf() && c.spec_grid_width() == grid_width
                && c.spec_grid_height() == grid_height,
            r is Err ==> r == Err::<Config, HashError>(HashError::InvalidInput),
    {
        if grid_width == 0 || grid_height == 0 {
            return Err(HashError::InvalidInput);
        }
        match grid_width.checked_mul(grid_height) {
            Some(bits) => {
                if bits <= usize::MAX - 7 {
                    Ok(Config { grid_width, grid_height })
                } else {
                    Err(HashError::InvalidInput)
                }
            },
            None => Err(HashError::InvalidInput),
        }
    }

    pub fn grid_width(&self) -> (r: usize)
        ensures
            r == self.spec_grid_width(),
    {
        self.grid_width
    }

    pub fn grid_height(&self) -> (r: usize)
        ensures
            r == self.spec_grid_height(),
    {
        self.grid_height
    }

    /// The length, in bits, of every fingerprint this configuration yields.
    pub fn bit_count(&self) -> (r: usize)
        requires
            self.wf(),
        ensures
            r == self.spec_bit_count(),
    {
        self.grid_width * self.grid_height
    }
}

} // verus!
