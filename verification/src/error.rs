use vstd::prelude::*;

verus! {

/// Failures the library reports to its caller. The library never retries and
/// never substitutes defaults for invalid input.
#[derive(Clone, Copy, Debug, PartialEq, Eq, Structural)]
pub enum HashError {
    /// A pixel grid with zero width or height, a pixel buffer whose length
    /// does not match its dimensions, a degenerate (zero-sized) target grid,
    /// or a malformed hex string.
    InvalidInput,
    /// A distance was requested between fingerprints of differing bit length.
    LengthMismatch,
}

} // verus!
