//! Perceptual image fingerprinting.
//!
//! A fingerprint is a fixed-length bit sequence summarizing an image's coarse
//! visual structure: the image is resampled to a small grid of luminance
//! samples, and each sample is turned into one bit by comparing it against
//! the mean luminance of the whole grid. Visually similar images yield
//! fingerprints with a small Hamming distance.

pub mod codec;
pub mod config;
pub mod distance;
pub mod error;
pub mod fingerprint;
pub mod generate;
pub mod pixel;

pub use config::Config;
pub use distance::distance;
pub use error::HashError;
pub use fingerprint::Fingerprint;
pub use generate::generate;
pub use pixel::PixelGrid;
pub use pixel::Rgb;
