//! Grayscale conversion for three-channel images.
//!
//! Three methods are offered, each defined by exact integer arithmetic on
//! the channel bytes: the luminosity method weighs the channels by
//! `299/1000`, `587/1000` and `114/1000` (the classic perception-weighted
//! formula, truncated), the average method takes `(R + G + B) / 3`, and the
//! lightness method takes the midpoint of the largest and smallest channel.

use vstd::prelude::*;

verus! {

use crate::matrix::{Matrix1, Matrix3};

/// Methods for converting RGB images to grayscale.
#[derive(Debug, Clone, Copy, PartialEq, Eq)]
pub enum GrayscaleMethod {
    /// Luminosity method (weighted average): `(299 R + 587 G + 114 B) / 1000`.
    /// This method accounts for human perception where green appears
    /// brightest.
    Luminosity,
    /// Simple average method: `(R + G + B) / 3`.
    Average,
    /// Lightness method: `(max(R, G, B) + min(R, G, B)) / 2`.
    Lightness,
}

/// The perception-weighted gray value, truncated: `(299 R + 587 G + 114 B) / 1000`.
pub open spec fn luminosity_gray(r: u8, g: u8, b: u8) -> int {
    (299 * r + 587 * g + 114 * b) / 1000
}

/// The plain average gray value, truncated.
pub open spec fn average_gray(r: u8, g: u8, b: u8) -> int {
    (r + g + b) / 3
}

/// The largest of the three channels.
pub open spec fn max3(r: u8, g: u8, b: u8) -> int {
    if r >= g && r >= b {
        r as int
    } else if g >= b {
        g as int
    } else {
        b as int
    }
}

/// The smallest of the three channels.
pub open spec fn min3(r: u8, g: u8, b: u8) -> int {
    if r <= g && r <= b {
        r as int
    } else if g <= b {
        g as int
    } else {
        b as int
    }
}

/// The lightness gray value: the midpoint of the channel extremes,
/// truncated.
pub open spec fn lightness_gray(r: u8, g: u8, b: u8) -> int {
    (max3(r, g, b) + min3(r, g, b)) / 2
}

/// The gray value of an RGB triple under the chosen method. Always a byte.
pub open spec fn gray_value(method: GrayscaleMethod, r: u8, g: u8, b: u8) -> int {
    match method {
        GrayscaleMethod::Luminosity => luminosity_gray(r, g, b),
        GrayscaleMethod::Average => average_gray(r, g, b),
        GrayscaleMethod::Lightness => lightness_gray(r, g, b),
    }
}

/// Computes the gray value of one RGB triple under the chosen method.
pub(crate) fn gray_of(method: GrayscaleMethod, r: u8, g: u8, b: u8) -> (v: u8)
    ensures
        v as int == gray_value(method, r, g, b),
{
    match method {
        GrayscaleMethod::Luminosity => {
            let sum: u32 = 299 * (r as u32) + 587 * (g as u32) + 114 * (b as u32);
            (sum / 1000) as u8
        },
        GrayscaleMethod::Average => {
            let sum: u16 = r as u16 + g as u16 + b as u16;
            (sum / 3) as u8
        },
        GrayscaleMethod::Lightness => {
            let mx: u16 = if r >= g && r >= b {
                r as u16
            } else if g >= b {
                g as u16
            } else {
                b as u16
            };
            let mn: u16 = if r <= g && r <= b {
                r as u16
            } else if g <= b {
                g as u16
            } else {
                b as u16
            };
            ((mx + mn) / 2) as u8
        },
    }
}

impl Matrix3 {
    /// Converts an RGB image to grayscale using the luminosity method.
    ///
    /// This is the default and recommended method as it accounts for human
    /// perception.
    pub fn to_grayscale(&self) -> (r: Matrix1)
        requires
            self.wf(),
        ensures
            r.wf(),
            r.spec_width() == self.spec_width(),
            r.spec_height() == self.spec_height(),
            forall|i: int|
                0 <= i < r@.len() ==> r@[i] as int == gray_value(
                    GrayscaleMethod::Luminosity,
                    self@[3 * i],
                    self@[3 * i + 1],
                    self@[3 * i + 2],
                ),
    {
        self.to_grayscale_with_method(GrayscaleMethod::Luminosity)
    }

    /// Converts an RGB image to grayscale using the average method.
    pub fn to_grayscale_average(&self) -> (r: Matrix1)
        requires
            self.wf(),
        ensures
            r.wf(),
            r.spec_width() == self.spec_width(),
            r.spec_height() == self.spec_height(),
            forall|i: int|
                0 <= i < r@.len() ==> r@[i] as int == gray_value(
                    GrayscaleMethod::Average,
                    self@[3 * i],
                    self@[3 * i + 1],
                    self@[3 * i + 2],
                ),
    {
        self.to_grayscale_with_method(GrayscaleMethod::Average)
    }

    /// Converts an RGB image to grayscale using the lightness method.
    pub fn to_grayscale_lightness(&self) -> (r: Matrix1)
        requires
            self.wf(),
        ensures
            r.wf(),
            r.spec_width() == self.spec_width(),
            r.spec_height() == self.spec_height(),
            forall|i: int|
                0 <= i < r@.len() ==> r@[i] as int == gray_value(
                    GrayscaleMethod::Lightness,
                    self@[3 * i],
                    self@[3 * i + 1],
                    self@[3 * i + 2],
                ),
    {
        self.to_grayscale_with_method(GrayscaleMethod::Lightness)
    }

    /// Converts an RGB image to grayscale using the specified method: every
    /// output byte is the method's gray value of the corresponding
    /// interleaved RGB triple.
    pub fn to_grayscale_with_method(&self, method: GrayscaleMethod) -> (r: Matrix1)
        requires
            self.wf(),
        ensures
            r.wf(),
            r.spec_width() == self.spec_width(),
            r.spec_height() == self.spec_height(),
            r@.len() == self.spec_width() * self.spec_height(),
            forall|i: int|
                0 <= i < r@.len() ==> r@[i] as int == gray_value(
                    method,
                    self@[3 * i],
                    self@[3 * i + 1],
                    self@[3 * i + 2],
                ),
    {
        let width = self.width();
        let height = self.height();
        let n = width * height;
        proof {
            assert(width * height >= 0 && (width * height) * 3 == width * height * 3)
                by (nonlinear_arith);
        }
        let mut gray_data: Vec<u8> = Vec::new();
        let mut i: usize = 0;
        while i < n
            invariant
                self.wf(),
                width == self.spec_width(),
                height == self.spec_height(),
                n == width * height,
                self@.len() == n * 3,
                i <= n,
                gray_data@.len() == i,
                forall|j: int|
                    0 <= j < i ==> gray_data@[j] as int == gray_value(
                        method,
                        self@[3 * j],
                        self@[3 * j + 1],
                        self@[3 * j + 2],
                    ),
            decreases n - i,
        {
            let r = self.byte_at(3 * i);
            let g = self.byte_at(3 * i + 1);
            let b = self.byte_at(3 * i + 2);
            gray_data.push(gray_of(method, r, g, b));
            i = i + 1;
        }
        Matrix1::new(width, height, gray_data)
    }
}

} // verus!
