//! Separable blur of interleaved 8-bit RGB images.
//!
//! A one-dimensional kernel of fixed-point weights (scaled by 256) is applied
//! along the rows of an image, the image is turned by a quarter, the same
//! pass is applied again, and the image is turned back. Every function is
//! specified over the flat sequence of samples that makes up the image.

pub mod convolve;
pub mod layout;
pub mod rotate;
pub mod separable;

pub use convolve::horz_gauss_blur;
pub use rotate::{rotate_90_clockwise, rotate_90_counterclockwise};
pub use separable::blur;
