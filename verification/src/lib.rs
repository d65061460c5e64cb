//! Shape-based image stylization: the pixel-level logic of the painter.
//!
//! An image is a row-major RGBA buffer of `4 * w * h` bytes. A region of
//! the image (a rectangle, or an arbitrary pixel mask) is averaged, painted
//! over and scored; the GPU reduction that sums the score is planned here.

pub mod region;
pub mod shape;
pub mod paint;
pub mod random;
pub mod reduce;
pub mod score;
pub mod config;
