//! A dense 2D pixel-buffer processing toolkit for single-channel and
//! three-channel images: spatial filtering (2D and separable convolution with
//! four border-extension policies) and geometric resampling (resize, crop,
//! rotation), together with the small value types around them.
//!
//! Kernel weights are exact rationals (an integer numerator per tap over one
//! shared positive denominator), so every filtering result is defined by
//! integer arithmetic and each public operation carries a full functional
//! contract.

pub mod color;
pub mod convolution;
pub mod drawing;
pub mod io;
pub mod matrix;
pub mod transform;
pub mod window;

pub use color::GrayscaleMethod;
pub use convolution::{BorderMode, Kernel, Kernel1d};
pub use drawing::{Color, DrawTarget, HexParseError};
pub use io::ImageError;
pub use matrix::{Matrix1, Matrix3};
pub use transform::{InterpolationMethod, RotationAngle};
