//! A verified pixel-buffer filter engine for packed RGBA8 rasters.
//!
//! The library owns a flat, row-major RGBA8 byte buffer and offers three
//! groups of deterministic transforms over it: per-channel point arithmetic
//! and brightness remapping, grayscale reduction, and 3x3 neighborhood
//! convolution filters (box smooth, median, Sobel edge magnitude, high-pass
//! sharpen, Gaussian blur). Every transform preserves the buffer dimensions
//! and is specified exactly, byte by byte.

pub mod convolution;
pub mod grayscale;
pub mod image;
pub mod isqrt;
pub mod laws;
pub mod median;
pub mod ops;
pub mod point_ops;

pub use image::Image;
pub use image::ImageView;
pub use ops::ArithmeticOp;
pub use ops::ColorComponent;
pub use ops::DecodeError;
pub use ops::Operand;
