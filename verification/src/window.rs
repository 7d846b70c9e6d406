//! Packing pixel buffers into the `0x00RRGGBB` word format that a display
//! surface expects, one `u32` per pixel.
//!
//! Opening a window and pumping its events happens outside this library;
//! what is verified here is the exact packed value of every pixel.

use vstd::prelude::*;

verus! {

use crate::matrix::{Matrix1, Matrix3};

/// The display word for a gray pixel: the byte replicated into the red,
/// green and blue lanes of `0x00RRGGBB`.
pub open spec fn packed_gray(v: u8) -> u32 {
    ((v as u32) << 16) | ((v as u32) << 8) | (v as u32)
}

/// The display word for an RGB pixel: `0x00RRGGBB`.
pub open spec fn packed_rgb(r: u8, g: u8, b: u8) -> u32 {
    ((r as u32) << 16) | ((g as u32) << 8) | (b as u32)
}

/// Packs a grayscale image into one display word per pixel, row-major.
pub fn gray_display_buffer(image: &Matrix1) -> (r: Vec<u32>)
    requires
        image.wf(),
    ensures
        r@.len() == image@.len(),
        forall|i: int| 0 <= i < r@.len() ==> r@[i] == packed_gray(image@[i]),
{
    let n = image.width() * image.height();
    let mut buffer: Vec<u32> = Vec::new();
    let mut i: usize = 0;
    while i < n
        invariant
            image.wf(),
            n == image@.len(),
            i <= n,
            buffer@.len() == i,
            forall|j: int| 0 <= j < i ==> buffer@[j] == packed_gray(image@[j]),
        decreases n - i,
    {
        let v = image.byte_at(i) as u32;
        buffer.push((v << 16) | (v << 8) | v);
        i = i + 1;
    }
    buffer
}

/// Packs an RGB image into one display word per pixel, row-major.
pub fn rgb_display_buffer(image: &Matrix3) -> (r: Vec<u32>)
    requires
        image.wf(),
    ensures
        r@.len() == image.spec_width() * image.spec_height(),
        forall|i: int|
            0 <= i < r@.len() ==> r@[i] == packed_rgb(
                image@[3 * i],
                image@[3 * i + 1],
                image@[3 * i + 2],
            ),
{
    let n = image.width() * image.height();
    proof {
        assert((image.spec_width() * image.spec_height()) * 3 == image.spec_width()
            * image.spec_height() * 3) by (nonlinear_arith);
    }
    let mut buffer: Vec<u32> = Vec::new();
    let mut i: usize = 0;
    while i < n
        invariant
            image.wf(),
            n == image.spec_width() * image.spec_height(),
            image@.len() == n * 3,
            i <= n,
            buffer@.len() == i,
            forall|j: int|
                0 <= j < i ==> buffer@[j] == packed_rgb(
                    image@[3 * j],
                    image@[3 * j + 1],
                    image@[3 * j + 2],
                ),
        decreases n - i,
    {
        let r = image.byte_at(3 * i) as u32;
        let g = image.byte_at(3 * i + 1) as u32;
        let b = image.byte_at(3 * i + 2) as u32;
        buffer.push((r << 16) | (g << 8) | b);
        i = i + 1;
    }
    buffer
}

} // verus!
