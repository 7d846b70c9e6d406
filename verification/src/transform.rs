//! Geometric resampling: resize (nearest-neighbor and bilinear), crop, and
//! lossless rotation by 90-degree multiples.
//!
//! Nearest-neighbor resize maps destination coordinate `d` to source
//! coordinate `floor(d * src_extent / dst_extent)`, clamped to the source
//! range. Bilinear resize positions destination coordinate `d` at the exact
//! rational `d * (src_extent - 1) / dst_extent`, weighs the four
//! neighboring samples by the fractional offsets, and rounds to nearest
//! (halves away from zero) — a distinct rounding policy from the
//! truncation used by convolution, and deliberately so.
//!
//! Cropping validates its region strictly and never clamps it. Rotation by
//! 90-degree multiples is a pure index permutation without interpolation.

use vstd::arithmetic::div_mod::{
    lemma_div_pos_is_pos, lemma_fundamental_div_mod, lemma_fundamental_div_mod_converse_div,
    lemma_fundamental_div_mod_converse_mod, lemma_mod_bound, lemma_multiply_divide_lt,
};
use vstd::prelude::*;

verus! {

use crate::matrix::{Matrix1, Matrix3, lemma_row_major_index};

/// Interpolation method for resizing operations.
#[derive(Debug, Clone, Copy, PartialEq, Eq)]
pub enum InterpolationMethod {
    /// Nearest neighbor interpolation (fastest, lowest quality)
    NearestNeighbor,
    /// Bilinear interpolation (good balance of speed and quality)
    Bilinear,
}

/// Rotation angle in 90-degree increments (fast, lossless).
#[derive(Debug, Clone, Copy, PartialEq, Eq)]
pub enum RotationAngle {
    /// Rotate 90 degrees clockwise
    Rotate90,
    /// Rotate 180 degrees
    Rotate180,
    /// Rotate 270 degrees clockwise (90 degrees counter-clockwise)
    Rotate270,
}

/// Source coordinate sampled by nearest-neighbor resize for destination
/// coordinate `dst`: `floor(dst * src_extent / dst_extent)`, clamped to the
/// source range.
pub open spec fn nearest_src(dst: int, src_extent: int, dst_extent: int) -> int {
    let c = dst * src_extent / dst_extent;
    if c > src_extent - 1 {
        src_extent - 1
    } else {
        c
    }
}

/// Division rounded to the nearest integer, halves away from zero, for
/// nonnegative operands.
pub open spec fn round_div(num: int, den: int) -> int {
    (2 * num + den) / (2 * den)
}

/// The nearest-neighbor resized single-channel buffer.
pub open spec fn resize1_nearest_data(data: Seq<u8>, w: int, h: int, nw: int, nh: int) -> Seq<
    u8,
> {
    Seq::new(
        (nw * nh) as nat,
        |k: int| data[nearest_src(k / nw, h, nh) * w + nearest_src(k % nw, w, nw)],
    )
}

/// The exact bilinear sample for destination pixel `(x, y)`: the source
/// position is the rational `x * (w - 1) / nw` (and likewise vertically),
/// the four neighbors are weighed by the fractional offsets, and the result
/// is rounded to nearest.
pub open spec fn bilerp_pixel1(
    data: Seq<u8>,
    w: int,
    h: int,
    nw: int,
    nh: int,
    x: int,
    y: int,
) -> int {
    let xn = x * (w - 1);
    let yn = y * (h - 1);
    let x1 = xn / nw;
    let fx = xn % nw;
    let y1 = yn / nh;
    let fy = yn % nh;
    let x2 = if x1 + 1 > w - 1 {
        w - 1
    } else {
        x1 + 1
    };
    let y2 = if y1 + 1 > h - 1 {
        h - 1
    } else {
        y1 + 1
    };
    let p11 = data[y1 * w + x1] as int;
    let p21 = data[y1 * w + x2] as int;
    let p12 = data[y2 * w + x1] as int;
    let p22 = data[y2 * w + x2] as int;
    round_div(
        p11 * (nw - fx) * (nh - fy) + p21 * fx * (nh - fy) + p12 * (nw - fx) * fy + p22 * fx * fy,
        nw * nh,
    )
}

/// The bilinear resized single-channel buffer.
pub open spec fn resize1_bilinear_data(data: Seq<u8>, w: int, h: int, nw: int, nh: int) -> Seq<
    u8,
> {
    Seq::new((nw * nh) as nat, |k: int| bilerp_pixel1(data, w, h, nw, nh, k % nw, k / nw) as u8)
}

/// The cropped single-channel buffer: the `cw * ch` region whose top-left
/// corner is `(x, y)`.
pub open spec fn crop1_data(data: Seq<u8>, w: int, x: int, y: int, cw: int, ch: int) -> Seq<u8> {
    Seq::new((cw * ch) as nat, |k: int| data[(y + k / cw) * w + x + k % cw])
}

/// The single-channel buffer rotated 90 degrees clockwise (dimensions swap
/// to `h * w`).
pub open spec fn rot90_data1(data: Seq<u8>, w: int, h: int) -> Seq<u8> {
    Seq::new((w * h) as nat, |k: int| data[(h - 1 - k % h) * w + k / h])
}

/// The single-channel buffer rotated 180 degrees.
pub open spec fn rot180_data1(data: Seq<u8>, w: int, h: int) -> Seq<u8> {
    Seq::new((w * h) as nat, |k: int| data[(h - 1 - k / w) * w + (w - 1 - k % w)])
}

/// The single-channel buffer rotated 270 degrees clockwise (dimensions swap
/// to `h * w`).
pub open spec fn rot270_data1(data: Seq<u8>, w: int, h: int) -> Seq<u8> {
    Seq::new((w * h) as nat, |k: int| data[(k % h) * w + (w - 1 - k / h)])
}

impl Matrix1 {
    /// Resizes the image to the specified dimensions with the chosen
    /// interpolation method.
    pub fn resize(&self, new_width: usize, new_height: usize, method: InterpolationMethod) -> (r:
        Matrix1)
        requires
            self.wf(),
            self.spec_width() >= 1,
            self.spec_height() >= 1,
            new_width * new_height <= usize::MAX,
        ensures
            r.wf(),
            r.spec_width() == new_width,
            r.spec_height() == new_height,
            method == InterpolationMethod::NearestNeighbor ==> r@ == resize1_nearest_data(
                self@,
                self.spec_width(),
                self.spec_height(),
                new_width as int,
                new_height as int,
            ),
            method == InterpolationMethod::Bilinear ==> r@ == resize1_bilinear_data(
                self@,
                self.spec_width(),
                self.spec_height(),
                new_width as int,
                new_height as int,
            ),
    {
        match method {
            InterpolationMethod::NearestNeighbor => self.resize_nearest(new_width, new_height),
            InterpolationMethod::Bilinear => self.resize_bilinear(new_width, new_height),
        }
    }

    /// Resizes using nearest neighbor interpolation.
    pub fn resize_nearest(&self, new_width: usize, new_height: usize) -> (r: Matrix1)
        requires
            self.wf(),
            self.spec_width() >= 1,
            self.spec_height() >= 1,
            new_width * new_height <= usize::MAX,
        ensures
            r.wf(),
            r.spec_width() == new_width,
            r.spec_height() == new_height,
            r@ == resize1_nearest_data(
                self@,
                self.spec_width(),
                self.spec_height(),
                new_width as int,
                new_height as int,
            ),
    {
        let w = self.width();
        let h = self.height();
        let ghost out = resize1_nearest_data(
            self@,
            self.spec_width(),
            self.spec_height(),
            new_width as int,
            new_height as int,
        );
        let mut data: Vec<u8> = Vec::new();
        let mut y: usize = 0;
        while y < new_height
            invariant
                self.wf(),
                self.spec_width() >= 1,
                self.spec_height() >= 1,
                w == self.spec_width(),
                h == self.spec_height(),
                out == resize1_nearest_data(
                    self@,
                    self.spec_width(),
                    self.spec_height(),
                    new_width as int,
                    new_height as int,
                ),
                new_width * new_height <= usize::MAX,
                y <= new_height,
                data@.len() == y * new_width,
                forall|k: int| 0 <= k < data@.len() ==> data@[k] == out[k],
            decreases new_height - y,
        {
            let sy = nearest_index(y, h, new_height);
            let mut x: usize = 0;
            while x < new_width
                invariant
                    self.wf(),
                    self.spec_width() >= 1,
                    self.spec_height() >= 1,
                    w == self.spec_width(),
                    h == self.spec_height(),
                    out == resize1_nearest_data(
                        self@,
                        self.spec_width(),
                        self.spec_height(),
                        new_width as int,
                        new_height as int,
                    ),
                    new_width * new_height <= usize::MAX,
                    y < new_height,
                    sy == nearest_src(y as int, h as int, new_height as int),
                    sy < h,
                    x <= new_width,
                    data@.len() == y * new_width + x,
                    forall|k: int| 0 <= k < data@.len() ==> data@[k] == out[k],
                decreases new_width - x,
            {
                let sx = nearest_index(x, w, new_width);
                data.push(self.pixel_at(sx, sy));
                proof {
                    let k = y * new_width + x;
                    lemma_row_major_index(x as int, y as int, new_width as int, new_height as int);
                    crate::convolution::lemma_row_major_div_mod(
                        x as int,
                        y as int,
                        new_width as int,
                    );
                    assert(out[k] == self@[sy * w + sx]);
                }
                x = x + 1;
            }
            y = y + 1;
            proof {
                assert(y * new_width == (y - 1) * new_width + new_width) by (nonlinear_arith);
            }
        }
        proof {
            assert(data@.len() == out.len()) by (nonlinear_arith)
                requires
                    data@.len() == new_height * new_width,
                    out.len() == (new_width * new_height) as nat,
            ;
            assert(data@ =~= out);
        }
        Matrix1::new(new_width, new_height, data)
    }

    /// Resizes using bilinear interpolation: exact rational weights and
    /// round-to-nearest.
    fn resize_bilinear(&self, new_width: usize, new_height: usize) -> (r: Matrix1)
        requires
            self.wf(),
            self.spec_width() >= 1,
            self.spec_height() >= 1,
            new_width * new_height <= usize::MAX,
        ensures
            r.wf(),
            r.spec_width() == new_width,
            r.spec_height() == new_height,
            r@ == resize1_bilinear_data(
                self@,
                self.spec_width(),
                self.spec_height(),
                new_width as int,
                new_height as int,
            ),
    {
        let w = self.width();
        let h = self.height();
        let ghost out = resize1_bilinear_data(
            self@,
            self.spec_width(),
            self.spec_height(),
            new_width as int,
            new_height as int,
        );
        let mut data: Vec<u8> = Vec::new();
        let mut y: usize = 0;
        while y < new_height
            invariant
                self.wf(),
                self.spec_width() >= 1,
                self.spec_height() >= 1,
                w == self.spec_width(),
                h == self.spec_height(),
                out == resize1_bilinear_data(
                    self@,
                    self.spec_width(),
                    self.spec_height(),
                    new_width as int,
                    new_height as int,
                ),
                new_width * new_height <= usize::MAX,
                y <= new_height,
                data@.len() == y * new_width,
                forall|k: int| 0 <= k < data@.len() ==> data@[k] == out[k],
            decreases new_height - y,
        {
            let mut x: usize = 0;
            while x < new_width
                invariant
                    self.wf(),
                    self.spec_width() >= 1,
                    self.spec_height() >= 1,
                    w == self.spec_width(),
                    h == self.spec_height(),
                    out == resize1_bilinear_data(
                        self@,
                        self.spec_width(),
                        self.spec_height(),
                        new_width as int,
                        new_height as int,
                    ),
                    new_width * new_height <= usize::MAX,
                    y < new_height,
                    x <= new_width,
                    data@.len() == y * new_width + x,
                    forall|k: int| 0 <= k < data@.len() ==> data@[k] == out[k],
                decreases new_width - x,
            {
                let v = self.bilerp_at(x, y, new_width, new_height);
                data.push(v);
                proof {
                    let k = y * new_width + x;
                    lemma_row_major_index(x as int, y as int, new_width as int, new_height as int);
                    crate::convolution::lemma_row_major_div_mod(
                        x as int,
                        y as int,
                        new_width as int,
                    );
                }
                x = x + 1;
            }
            y = y + 1;
            proof {
                assert(y * new_width == (y - 1) * new_width + new_width) by (nonlinear_arith);
            }
        }
        proof {
            assert(data@.len() == out.len()) by (nonlinear_arith)
                requires
                    data@.len() == new_height * new_width,
                    out.len() == (new_width * new_height) as nat,
            ;
            assert(data@ =~= out);
        }
        Matrix1::new(new_width, new_height, data)
    }

    /// The exact bilinear sample for destination pixel `(x, y)`.
    fn bilerp_at(&self, x: usize, y: usize, nw: usize, nh: usize) -> (r: u8)
        requires
            self.wf(),
            self.spec_width() >= 1,
            self.spec_height() >= 1,
            x < nw,
            y < nh,
            nw * nh <= usize::MAX,
        ensures
            r as int == bilerp_pixel1(
                self@,
                self.spec_width(),
                self.spec_height(),
                nw as int,
                nh as int,
                x as int,
                y as int,
            ),
    {
        let w = self.width();
        let h = self.height();
        let (x1, x2, fx) = bilerp_axis(x, w, nw);
        let (y1, y2, fy) = bilerp_axis(y, h, nh);
        let p11 = self.pixel_at(x1, y1) as u128;
        let p21 = self.pixel_at(x2, y1) as u128;
        let p12 = self.pixel_at(x1, y2) as u128;
        let p22 = self.pixel_at(x2, y2) as u128;
        let nwu = nw as u128;
        let nhu = nh as u128;
        let fxu = fx as u128;
        let fyu = fy as u128;
        proof {
            lemma_bilerp_num_bound(
                p11 as int,
                p21 as int,
                p12 as int,
                p22 as int,
                nw as int,
                nh as int,
                fx as int,
                fy as int,
            );
        }
        let num = p11 * (nwu - fxu) * (nhu - fyu) + p21 * fxu * (nhu - fyu) + p12 * (nwu - fxu)
            * fyu + p22 * fxu * fyu;
        proof {
            assert(nw * nh >= 1) by (nonlinear_arith)
                requires
                    nw >= 1,
                    nh >= 1,
            ;
        }
        let den = nwu * nhu;
        let v = (2 * num + den) / (2 * den);
        proof {
            lemma_round_div_le_max(num as int, den as int);
        }
        v as u8
    }
}

/// For one axis of a bilinear resize: the two source indices and the
/// fractional offset numerator of destination coordinate `d`, where the
/// exact source position is `d * (extent - 1) / new_extent`.
fn bilerp_axis(d: usize, extent: usize, new_extent: usize) -> (r: (usize, usize, usize))
    requires
        extent >= 1,
        d < new_extent,
    ensures
        r.0 == (d * (extent - 1)) / (new_extent as int),
        r.2 == (d * (extent - 1)) % (new_extent as int),
        r.1 == if r.0 + 1 > extent - 1 {
            extent - 1
        } else {
            r.0 + 1
        },
        0 <= r.0 <= extent - 1,
        r.0 <= r.1 <= extent - 1,
        0 <= r.2 < new_extent,
{
    proof {
        assert(d * ((extent - 1) as int) <= u128::MAX) by (nonlinear_arith)
            requires
                0 <= d <= 0xffff_ffff_ffff_ffff,
                0 <= (extent - 1) as int <= 0xffff_ffff_ffff_ffff,
        ;
    }
    let dn = (d as u128) * ((extent - 1) as u128);
    let ne = new_extent as u128;
    let c1 = dn / ne;
    let f = dn % ne;
    proof {
        lemma_div_pos_is_pos(dn as int, ne as int);
        lemma_mod_bound(dn as int, ne as int);
        assert(dn < ne * (extent as int)) by (nonlinear_arith)
            requires
                dn == d * ((extent - 1) as int),
                d < new_extent,
                ne == new_extent as int,
                extent >= 1,
        ;
        lemma_multiply_divide_lt(dn as int, ne as int, extent as int);
    }
    let x1 = c1 as usize;
    let x2 = if x1 + 1 > extent - 1 {
        extent - 1
    } else {
        x1 + 1
    };
    (x1, x2, f as usize)
}

/// The weighted bilinear numerator stays within `255 * nw * nh`, so the
/// `u128` arithmetic cannot overflow and the rounded quotient is a byte.
proof fn lemma_bilerp_num_bound(
    p11: int,
    p21: int,
    p12: int,
    p22: int,
    nw: int,
    nh: int,
    fx: int,
    fy: int,
)
    requires
        0 <= p11 <= 255,
        0 <= p21 <= 255,
        0 <= p12 <= 255,
        0 <= p22 <= 255,
        0 <= fx < nw,
        0 <= fy < nh,
    ensures
        0 <= p11 * (nw - fx) * (nh - fy) + p21 * fx * (nh - fy) + p12 * (nw - fx) * fy + p22 * fx
            * fy <= 255 * (nw * nh),
        0 <= p11 * (nw - fx) * (nh - fy) <= 255 * (nw * nh),
        0 <= p21 * fx * (nh - fy) <= 255 * (nw * nh),
        0 <= p12 * (nw - fx) * fy <= 255 * (nw * nh),
        0 <= p22 * fx * fy <= 255 * (nw * nh),
        0 <= p11 * (nw - fx) <= 255 * nw,
        0 <= p21 * fx <= 255 * nw,
        0 <= p12 * (nw - fx) <= 255 * nw,
        0 <= p22 * fx <= 255 * nw,
{
    assert(0 <= p11 * (nw - fx) <= 255 * nw && 0 <= p21 * fx <= 255 * nw && 0 <= p12 * (nw - fx)
        <= 255 * nw && 0 <= p22 * fx <= 255 * nw) by (nonlinear_arith)
        requires
            0 <= p11 <= 255,
            0 <= p21 <= 255,
            0 <= p12 <= 255,
            0 <= p22 <= 255,
            0 <= fx < nw,
    ;
    assert((nw - fx) * (nh - fy) + fx * (nh - fy) + (nw - fx) * fy + fx * fy == nw * nh)
        by (nonlinear_arith);
    assert(0 <= (nw - fx) * (nh - fy) && 0 <= fx * (nh - fy) && 0 <= (nw - fx) * fy && 0 <= fx * fy)
        by (nonlinear_arith)
        requires
            0 <= fx < nw,
            0 <= fy < nh,
    ;
    assert(p11 * (nw - fx) * (nh - fy) + p21 * fx * (nh - fy) + p12 * (nw - fx) * fy + p22 * fx * fy
        <= 255 * ((nw - fx) * (nh - fy)) + 255 * (fx * (nh - fy)) + 255 * ((nw - fx) * fy) + 255 * (
    fx * fy)) by (nonlinear_arith)
        requires
            0 <= p11 <= 255,
            0 <= p21 <= 255,
            0 <= p12 <= 255,
            0 <= p22 <= 255,
            0 <= (nw - fx) * (nh - fy),
            0 <= fx * (nh - fy),
            0 <= (nw - fx) * fy,
            0 <= fx * fy,
    ;
    assert(0 <= p11 * (nw - fx) * (nh - fy) <= 255 * ((nw - fx) * (nh - fy)) && 0 <= p21 * fx * (nh
        - fy) <= 255 * (fx * (nh - fy)) && 0 <= p12 * (nw - fx) * fy <= 255 * ((nw - fx) * fy) && 0
        <= p22 * fx * fy <= 255 * (fx * fy)) by (nonlinear_arith)
        requires
            0 <= p11 <= 255,
            0 <= p21 <= 255,
            0 <= p12 <= 255,
            0 <= p22 <= 255,
            0 <= fy,
            0 <= fx,
            0 <= nh - fy,
            0 <= nw - fx,
    ;
    assert((nw - fx) * (nh - fy) <= nw * nh && fx * (nh - fy) <= nw * nh && (nw - fx) * fy <= nw
        * nh && fx * fy <= nw * nh) by (nonlinear_arith)
        requires
            0 <= fx < nw,
            0 <= fy < nh,
    ;
    assert(255 * ((nw - fx) * (nh - fy)) <= 255 * (nw * nh) && 255 * (fx * (nh - fy)) <= 255 * (nw
        * nh) && 255 * ((nw - fx) * fy) <= 255 * (nw * nh) && 255 * (fx * fy) <= 255 * (nw * nh));
}

/// A nonnegative value at most `255 * den`, rounded by `round_div`, is a
/// byte.
proof fn lemma_round_div_le_max(num: int, den: int)
    requires
        den >= 1,
        0 <= num <= 255 * den,
    ensures
        0 <= round_div(num, den) <= 255,
        round_div(num, den) == (2 * num + den) / (2 * den),
{
    lemma_div_pos_is_pos(2 * num + den, 2 * den);
    assert(2 * num + den < (2 * den) * 256) by (nonlinear_arith)
        requires
            den >= 1,
            num <= 255 * den,
    ;
    lemma_multiply_divide_lt(2 * num + den, 2 * den, 256);
}

/// The clamped nearest-neighbor source index for destination coordinate
/// `d`.
fn nearest_index(d: usize, extent: usize, new_extent: usize) -> (r: usize)
    requires
        extent >= 1,
        d < new_extent,
    ensures
        r == nearest_src(d as int, extent as int, new_extent as int),
        r < extent,
{
    proof {
        assert(d * (extent as int) <= u128::MAX) by (nonlinear_arith)
            requires
                0 <= d <= 0xffff_ffff_ffff_ffff,
                0 <= extent <= 0xffff_ffff_ffff_ffff,
        ;
    }
    let dn = (d as u128) * (extent as u128);
    let c = dn / (new_extent as u128);
    proof {
        lemma_div_pos_is_pos(dn as int, new_extent as int);
    }
    if c > (extent - 1) as u128 {
        extent - 1
    } else {
        c as usize
    }
}
impl Matrix1 {
    /// Crops the image to the specified rectangle.
    ///
    /// Validation is strict: the call fails exactly when the region
    /// overruns the image — `x + width > self.width()` or
    /// `y + height > self.height()` — and the region is never clamped.
    pub fn crop(&self, x: usize, y: usize, width: usize, height: usize) -> (r: Option<Matrix1>)
        requires
            self.wf(),
            x + width <= usize::MAX,
            y + height <= usize::MAX,
        ensures
            (r is Some) <==> (x + width <= self.spec_width() && y + height
                <= self.spec_height()),
            r matches Some(c) ==> {
                &&& c.wf()
                &&& c.spec_width() == width
                &&& c.spec_height() == height
                &&& c@ == crop1_data(
                    self@,
                    self.spec_width(),
                    x as int,
                    y as int,
                    width as int,
                    height as int,
                )
            },
    {
        let w = self.width();
        let h = self.height();
        if x + width > w || y + height > h {
            return None;
        }
        proof {
            assert(width * height <= w * h) by (nonlinear_arith)
                requires
                    width <= w as int,
                    height <= h as int,
                    w >= 0,
                    h >= 0,
            ;
        }
        let ghost out = crop1_data(
            self@,
            self.spec_width(),
            x as int,
            y as int,
            width as int,
            height as int,
        );
        let mut data: Vec<u8> = Vec::new();
        let mut j: usize = 0;
        while j < height
            invariant
                self.wf(),
                w == self.spec_width(),
                h == self.spec_height(),
                x + width <= w,
                y + height <= h,
                width * height <= usize::MAX,
                out == crop1_data(
                    self@,
                    self.spec_width(),
                    x as int,
                    y as int,
                    width as int,
                    height as int,
                ),
                j <= height,
                data@.len() == j * width,
                forall|k: int| 0 <= k < data@.len() ==> data@[k] == out[k],
            decreases height - j,
        {
            let mut i: usize = 0;
            while i < width
                invariant
                    self.wf(),
                    w == self.spec_width(),
                    h == self.spec_height(),
                    x + width <= w,
                    y + height <= h,
                    width * height <= usize::MAX,
                    out == crop1_data(
                        self@,
                        self.spec_width(),
                        x as int,
                        y as int,
                        width as int,
                        height as int,
                    ),
                    j < height,
                    i <= width,
                    data@.len() == j * width + i,
                    forall|k: int| 0 <= k < data@.len() ==> data@[k] == out[k],
                decreases width - i,
            {
                data.push(self.pixel_at(x + i, y + j));
                proof {
                    lemma_row_major_index(i as int, j as int, width as int, height as int);
                    crate::convolution::lemma_row_major_div_mod(i as int, j as int, width as int);
                }
                i = i + 1;
            }
            j = j + 1;
            proof {
                assert(j * width == (j - 1) * width + width) by (nonlinear_arith);
            }
        }
        proof {
            assert(data@.len() == out.len()) by (nonlinear_arith)
                requires
                    data@.len() == height * width,
                    out.len() == (width * height) as nat,
            ;
            assert(data@ =~= out);
        }
        Some(Matrix1::new(width, height, data))
    }

    /// Rotates the image by the specified 90-degree multiple: a lossless
    /// index permutation with no interpolation. A quarter turn either way
    /// swaps the width and the height.
    pub fn rotate(&self, angle: RotationAngle) -> (r: Matrix1)
        requires
            self.wf(),
        ensures
            r.wf(),
            angle == RotationAngle::Rotate90 ==> r.spec_width() == self.spec_height()
                && r.spec_height() == self.spec_width() && r@ == rot90_data1(
                self@,
                self.spec_width(),
                self.spec_height(),
            ),
            angle == RotationAngle::Rotate180 ==> r.spec_width() == self.spec_width()
                && r.spec_height() == self.spec_height() && r@ == rot180_data1(
                self@,
                self.spec_width(),
                self.spec_height(),
            ),
            angle == RotationAngle::Rotate270 ==> r.spec_width() == self.spec_height()
                && r.spec_height() == self.spec_width() && r@ == rot270_data1(
                self@,
                self.spec_width(),
                self.spec_height(),
            ),
    {
        match angle {
            RotationAngle::Rotate90 => self.rotate_90(),
            RotationAngle::Rotate180 => self.rotate_180(),
            RotationAngle::Rotate270 => self.rotate_270(),
        }
    }

    /// Rotates the image 90 degrees clockwise.
    pub fn rotate_90(&self) -> (r: Matrix1)
        requires
            self.wf(),
        ensures
            r.wf(),
            r.spec_width() == self.spec_height(),
            r.spec_height() == self.spec_width(),
            r@ == rot90_data1(self@, self.spec_width(), self.spec_height()),
    {
        let w = self.width();
        let h = self.height();
        let ghost out = rot90_data1(self@, self.spec_width(), self.spec_height());
        let mut data: Vec<u8> = Vec::new();
        let mut ny: usize = 0;
        while ny < w
            invariant
                self.wf(),
                w == self.spec_width(),
                h == self.spec_height(),
                out == rot90_data1(self@, self.spec_width(), self.spec_height()),
                ny <= w,
                data@.len() == ny * h,
                forall|k: int| 0 <= k < data@.len() ==> data@[k] == out[k],
            decreases w - ny,
        {
            let mut nx: usize = 0;
            while nx < h
                invariant
                    self.wf(),
                    w == self.spec_width(),
                    h == self.spec_height(),
                    out == rot90_data1(self@, self.spec_width(), self.spec_height()),
                    ny < w,
                    nx <= h,
                    data@.len() == ny * h + nx,
                    forall|k: int| 0 <= k < data@.len() ==> data@[k] == out[k],
                decreases h - nx,
            {
                data.push(self.pixel_at(ny, h - 1 - nx));
                proof {
                    lemma_row_major_index(nx as int, ny as int, h as int, w as int);
                    crate::convolution::lemma_row_major_div_mod(nx as int, ny as int, h as int);
                }
                nx = nx + 1;
            }
            ny = ny + 1;
            proof {
                assert(ny * h == (ny - 1) * h + h) by (nonlinear_arith);
            }
        }
        proof {
            assert(data@.len() == out.len()) by (nonlinear_arith)
                requires
                    data@.len() == w * h,
                    out.len() == (w * h) as nat,
            ;
            assert(data@ =~= out);
        }
        Matrix1::new(h, w, data)
    }

    /// Rotates the image 180 degrees.
    pub fn rotate_180(&self) -> (r: Matrix1)
        requires
            self.wf(),
        ensures
            r.wf(),
            r.spec_width() == self.spec_width(),
            r.spec_height() == self.spec_height(),
            r@ == rot180_data1(self@, self.spec_width(), self.spec_height()),
    {
        let w = self.width();
        let h = self.height();
        let ghost out = rot180_data1(self@, self.spec_width(), self.spec_height());
        let mut data: Vec<u8> = Vec::new();
        let mut ny: usize = 0;
        while ny < h
            invariant
                self.wf(),
                w == self.spec_width(),
                h == self.spec_height(),
                out == rot180_data1(self@, self.spec_width(), self.spec_height()),
                ny <= h,
                data@.len() == ny * w,
                forall|k: int| 0 <= k < data@.len() ==> data@[k] == out[k],
            decreases h - ny,
        {
            let mut nx: usize = 0;
            while nx < w
                invariant
                    self.wf(),
                    w == self.spec_width(),
                    h == self.spec_height(),
                    out == rot180_data1(self@, self.spec_width(), self.spec_height()),
                    ny < h,
                    nx <= w,
                    data@.len() == ny * w + nx,
                    forall|k: int| 0 <= k < data@.len() ==> data@[k] == out[k],
                decreases w - nx,
            {
                data.push(self.pixel_at(w - 1 - nx, h - 1 - ny));
                proof {
                    lemma_row_major_index(nx as int, ny as int, w as int, h as int);
                    crate::convolution::lemma_row_major_div_mod(nx as int, ny as int, w as int);
                }
                nx = nx + 1;
            }
            ny = ny + 1;
            proof {
                assert(ny * w == (ny - 1) * w + w) by (nonlinear_arith);
            }
        }
        proof {
            assert(data@.len() == out.len()) by (nonlinear_arith)
                requires
                    data@.len() == h * w,
                    out.len() == (w * h) as nat,
            ;
            assert(data@ =~= out);
        }
        Matrix1::new(w, h, data)
    }

    /// Rotates the image 270 degrees clockwise (90 degrees
    /// counter-clockwise).
    pub fn rotate_270(&self) -> (r: Matrix1)
        requires
            self.wf(),
        ensures
            r.wf(),
            r.spec_width() == self.spec_height(),
            r.spec_height() == self.spec_width(),
            r@ == rot270_data1(self@, self.spec_width(), self.spec_height()),
    {
        let w = self.width();
        let h = self.height();
        let ghost out = rot270_data1(self@, self.spec_width(), self.spec_height());
        let mut data: Vec<u8> = Vec::new();
        let mut ny: usize = 0;
        while ny < w
            invariant
                self.wf(),
                w == self.spec_width(),
                h == self.spec_height(),
                out == rot270_data1(self@, self.spec_width(), self.spec_height()),
                ny <= w,
                data@.len() == ny * h,
                forall|k: int| 0 <= k < data@.len() ==> data@[k] == out[k],
            decreases w - ny,
        {
            let mut nx: usize = 0;
            while nx < h
                invariant
                    self.wf(),
                    w == self.spec_width(),
                    h == self.spec_height(),
                    out == rot270_data1(self@, self.spec_width(), self.spec_height()),
                    ny < w,
                    nx <= h,
                    data@.len() == ny * h + nx,
                    forall|k: int| 0 <= k < data@.len() ==> data@[k] == out[k],
                decreases h - nx,
            {
                data.push(self.pixel_at(w - 1 - ny, nx));
                proof {
                    lemma_row_major_index(nx as int, ny as int, h as int, w as int);
                    crate::convolution::lemma_row_major_div_mod(nx as int, ny as int, h as int);
                }
                nx = nx + 1;
            }
            ny = ny + 1;
            proof {
                assert(ny * h == (ny - 1) * h + h) by (nonlinear_arith);
            }
        }
        proof {
            assert(data@.len() == out.len()) by (nonlinear_arith)
                requires
                    data@.len() == w * h,
                    out.len() == (w * h) as nat,
            ;
            assert(data@ =~= out);
        }
        Matrix1::new(h, w, data)
    }
}

/// The nearest-neighbor resized three-channel buffer.
pub open spec fn resize3_nearest_data(data: Seq<u8>, w: int, h: int, nw: int, nh: int) -> Seq<
    u8,
> {
    Seq::new(
        (nw * nh * 3) as nat,
        |k: int|
            data[(nearest_src((k / 3) / nw, h, nh) * w + nearest_src((k / 3) % nw, w, nw)) * 3 + k
                % 3],
    )
}

/// The exact bilinear sample for channel `c` of destination pixel
/// `(x, y)` of a three-channel buffer.
pub open spec fn bilerp_pixel3(
    data: Seq<u8>,
    w: int,
    h: int,
    nw: int,
    nh: int,
    x: int,
    y: int,
    c: int,
) -> int {
    let xn = x * (w - 1);
    let yn = y * (h - 1);
    let x1 = xn / nw;
    let fx = xn % nw;
    let y1 = yn / nh;
    let fy = yn % nh;
    let x2 = if x1 + 1 > w - 1 {
        w - 1
    } else {
        x1 + 1
    };
    let y2 = if y1 + 1 > h - 1 {
        h - 1
    } else {
        y1 + 1
    };
    let p11 = data[(y1 * w + x1) * 3 + c] as int;
    let p21 = data[(y1 * w + x2) * 3 + c] as int;
    let p12 = data[(y2 * w + x1) * 3 + c] as int;
    let p22 = data[(y2 * w + x2) * 3 + c] as int;
    round_div(
        p11 * (nw - fx) * (nh - fy) + p21 * fx * (nh - fy) + p12 * (nw - fx) * fy + p22 * fx * fy,
        nw * nh,
    )
}

/// The bilinear resized three-channel buffer.
pub open spec fn resize3_bilinear_data(data: Seq<u8>, w: int, h: int, nw: int, nh: int) -> Seq<
    u8,
> {
    Seq::new(
        (nw * nh * 3) as nat,
        |k: int| bilerp_pixel3(data, w, h, nw, nh, (k / 3) % nw, (k / 3) / nw, k % 3) as u8,
    )
}

/// The cropped three-channel buffer.
pub open spec fn crop3_data(data: Seq<u8>, w: int, x: int, y: int, cw: int, ch: int) -> Seq<u8> {
    Seq::new(
        (cw * ch * 3) as nat,
        |k: int| data[((y + (k / 3) / cw) * w + x + (k / 3) % cw) * 3 + k % 3],
    )
}

/// The three-channel buffer rotated 90 degrees clockwise.
pub open spec fn rot90_data3(data: Seq<u8>, w: int, h: int) -> Seq<u8> {
    Seq::new(
        (w * h * 3) as nat,
        |k: int| data[((h - 1 - (k / 3) % h) * w + (k / 3) / h) * 3 + k % 3],
    )
}

/// The three-channel buffer rotated 180 degrees.
pub open spec fn rot180_data3(data: Seq<u8>, w: int, h: int) -> Seq<u8> {
    Seq::new(
        (w * h * 3) as nat,
        |k: int| data[((h - 1 - (k / 3) / w) * w + (w - 1 - (k / 3) % w)) * 3 + k % 3],
    )
}

/// The three-channel buffer rotated 270 degrees clockwise.
pub open spec fn rot270_data3(data: Seq<u8>, w: int, h: int) -> Seq<u8> {
    Seq::new(
        (w * h * 3) as nat,
        |k: int| data[(((k / 3) % h) * w + (w - 1 - (k / 3) / h)) * 3 + k % 3],
    )
}

/// After pushing the three channels of destination pixel `p`, the three new
/// positions decompose as expected.
pub(crate) proof fn lemma_triple_index(p: int)
    requires
        p >= 0,
    ensures
        (p * 3) / 3 == p && (p * 3) % 3 == 0,
        (p * 3 + 1) / 3 == p && (p * 3 + 1) % 3 == 1,
        (p * 3 + 2) / 3 == p && (p * 3 + 2) % 3 == 2,
{
    lemma_fundamental_div_mod_converse_div(p * 3, 3, p, 0);
    lemma_fundamental_div_mod_converse_mod(p * 3, 3, p, 0);
    lemma_fundamental_div_mod_converse_div(p * 3 + 1, 3, p, 1);
    lemma_fundamental_div_mod_converse_mod(p * 3 + 1, 3, p, 1);
    lemma_fundamental_div_mod_converse_div(p * 3 + 2, 3, p, 2);
    lemma_fundamental_div_mod_converse_mod(p * 3 + 2, 3, p, 2);
}

impl Matrix3 {
    /// Resizes the image to the specified dimensions with the chosen
    /// interpolation method.
    pub fn resize(&self, new_width: usize, new_height: usize, method: InterpolationMethod) -> (r:
        Matrix3)
        requires
            self.wf(),
            self.spec_width() >= 1,
            self.spec_height() >= 1,
            new_width * new_height * 3 <= usize::MAX,
        ensures
            r.wf(),
            r.spec_width() == new_width,
            r.spec_height() == new_height,
            method == InterpolationMethod::NearestNeighbor ==> r@ == resize3_nearest_data(
                self@,
                self.spec_width(),
                self.spec_height(),
                new_width as int,
                new_height as int,
            ),
            method == InterpolationMethod::Bilinear ==> r@ == resize3_bilinear_data(
                self@,
                self.spec_width(),
                self.spec_height(),
                new_width as int,
                new_height as int,
            ),
    {
        match method {
            InterpolationMethod::NearestNeighbor => self.resize_nearest(new_width, new_height),
            InterpolationMethod::Bilinear => self.resize_bilinear(new_width, new_height),
        }
    }

    /// Resizes using nearest neighbor interpolation.
    pub fn resize_nearest(&self, new_width: usize, new_height: usize) -> (r: Matrix3)
        requires
            self.wf(),
            self.spec_width() >= 1,
            self.spec_height() >= 1,
            new_width * new_height * 3 <= usize::MAX,
        ensures
            r.wf(),
            r.spec_width() == new_width,
            r.spec_height() == new_height,
            r@ == resize3_nearest_data(
                self@,
                self.spec_width(),
                self.spec_height(),
                new_width as int,
                new_height as int,
            ),
    {
        let w = self.width();
        let h = self.height();
        let ghost out = resize3_nearest_data(
            self@,
            self.spec_width(),
            self.spec_height(),
            new_width as int,
            new_height as int,
        );
        let mut data: Vec<u8> = Vec::new();
        let mut y: usize = 0;
        while y < new_height
            invariant
                self.wf(),
                self.spec_width() >= 1,
                self.spec_height() >= 1,
                w == self.spec_width(),
                h == self.spec_height(),
                out == resize3_nearest_data(
                    self@,
                    self.spec_width(),
                    self.spec_height(),
                    new_width as int,
                    new_height as int,
                ),
                new_width * new_height * 3 <= usize::MAX,
                y <= new_height,
                data@.len() == (y * new_width) * 3,
                forall|k: int| 0 <= k < data@.len() ==> data@[k] == out[k],
            decreases new_height - y,
        {
            let sy = nearest_index(y, h, new_height);
            let mut x: usize = 0;
            while x < new_width
                invariant
                    self.wf(),
                    self.spec_width() >= 1,
                    self.spec_height() >= 1,
                    w == self.spec_width(),
                    h == self.spec_height(),
                    out == resize3_nearest_data(
                        self@,
                        self.spec_width(),
                        self.spec_height(),
                        new_width as int,
                        new_height as int,
                    ),
                    new_width * new_height * 3 <= usize::MAX,
                    y < new_height,
                    sy == nearest_src(y as int, h as int, new_height as int),
                    sy < h,
                    x <= new_width,
                    data@.len() == (y * new_width + x) * 3,
                    forall|k: int| 0 <= k < data@.len() ==> data@[k] == out[k],
                decreases new_width - x,
            {
                let sx = nearest_index(x, w, new_width);
                data.push(self.sample_at(sx, sy, 0));
                data.push(self.sample_at(sx, sy, 1));
                data.push(self.sample_at(sx, sy, 2));
                proof {
                    let p = y * new_width + x;
                    lemma_row_major_index(x as int, y as int, new_width as int, new_height as int);
                    crate::convolution::lemma_row_major_div_mod(
                        x as int,
                        y as int,
                        new_width as int,
                    );
                    lemma_triple_index(p as int);
                    assert((p + 1) * 3 == p * 3 + 3 && p * 3 + 3 <= (new_width * new_height) * 3
                        && (new_width * new_height) * 3 == new_width * new_height * 3)
                        by (nonlinear_arith)
                        requires
                            0 <= p < new_width * new_height,
                    ;
                }
                x = x + 1;
            }
            y = y + 1;
            proof {
                assert((y * new_width) * 3 == ((y - 1) * new_width + new_width) * 3)
                    by (nonlinear_arith);
            }
        }
        proof {
            assert(data@.len() == out.len()) by (nonlinear_arith)
                requires
                    data@.len() == (new_height * new_width) * 3,
                    out.len() == (new_width * new_height * 3) as nat,
            ;
            assert(data@ =~= out);
        }
        Matrix3::new(new_width, new_height, data)
    }

    /// Resizes using bilinear interpolation: exact rational weights and
    /// round-to-nearest, per channel.
    fn resize_bilinear(&self, new_width: usize, new_height: usize) -> (r: Matrix3)
        requires
            self.wf(),
            self.spec_width() >= 1,
            self.spec_height() >= 1,
            new_width * new_height * 3 <= usize::MAX,
        ensures
            r.wf(),
            r.spec_width() == new_width,
            r.spec_height() == new_height,
            r@ == resize3_bilinear_data(
                self@,
                self.spec_width(),
                self.spec_height(),
                new_width as int,
                new_height as int,
            ),
    {
        let w = self.width();
        let h = self.height();
        let ghost out = resize3_bilinear_data(
            self@,
            self.spec_width(),
            self.spec_height(),
            new_width as int,
            new_height as int,
        );
        let mut data: Vec<u8> = Vec::new();
        let mut y: usize = 0;
        while y < new_height
            invariant
                self.wf(),
                self.spec_width() >= 1,
                self.spec_height() >= 1,
                w == self.spec_width(),
                h == self.spec_height(),
                out == resize3_bilinear_data(
                    self@,
                    self.spec_width(),
                    self.spec_height(),
                    new_width as int,
                    new_height as int,
                ),
                new_width * new_height * 3 <= usize::MAX,
                y <= new_height,
                data@.len() == (y * new_width) * 3,
                forall|k: int| 0 <= k < data@.len() ==> data@[k] == out[k],
            decreases new_height - y,
        {
            let mut x: usize = 0;
            while x < new_width
                invariant
                    self.wf(),
                    self.spec_width() >= 1,
                    self.spec_height() >= 1,
                    w == self.spec_width(),
                    h == self.spec_height(),
                    out == resize3_bilinear_data(
                        self@,
                        self.spec_width(),
                        self.spec_height(),
                        new_width as int,
                        new_height as int,
                    ),
                    new_width * new_height * 3 <= usize::MAX,
                    y < new_height,
                    x <= new_width,
                    data@.len() == (y * new_width + x) * 3,
                    forall|k: int| 0 <= k < data@.len() ==> data@[k] == out[k],
                decreases new_width - x,
            {
                proof {
                    assert(new_width * new_height <= new_width * new_height * 3)
                        by (nonlinear_arith)
                        requires
                            new_width >= 0,
                            new_height >= 0,
                    ;
                }
                let v0 = self.bilerp_at(x, y, 0, new_width, new_height);
                let v1 = self.bilerp_at(x, y, 1, new_width, new_height);
                let v2 = self.bilerp_at(x, y, 2, new_width, new_height);
                data.push(v0);
                data.push(v1);
                data.push(v2);
                proof {
                    let p = y * new_width + x;
                    lemma_row_major_index(x as int, y as int, new_width as int, new_height as int);
                    crate::convolution::lemma_row_major_div_mod(
                        x as int,
                        y as int,
                        new_width as int,
                    );
                    lemma_triple_index(p as int);
                    assert((p + 1) * 3 == p * 3 + 3 && p * 3 + 3 <= (new_width * new_height) * 3
                        && (new_width * new_height) * 3 == new_width * new_height * 3)
                        by (nonlinear_arith)
                        requires
                            0 <= p < new_width * new_height,
                    ;
                }
                x = x + 1;
            }
            y = y + 1;
            proof {
                assert((y * new_width) * 3 == ((y - 1) * new_width + new_width) * 3)
                    by (nonlinear_arith);
            }
        }
        proof {
            assert(data@.len() == out.len()) by (nonlinear_arith)
                requires
                    data@.len() == (new_height * new_width) * 3,
                    out.len() == (new_width * new_height * 3) as nat,
            ;
            assert(data@ =~= out);
        }
        Matrix3::new(new_width, new_height, data)
    }

    /// The exact bilinear sample for channel `c` of destination pixel
    /// `(x, y)`.
    fn bilerp_at(&self, x: usize, y: usize, c: usize, nw: usize, nh: usize) -> (r: u8)
        requires
            self.wf(),
            self.spec_width() >= 1,
            self.spec_height() >= 1,
            x < nw,
            y < nh,
            c < 3,
            nw * nh <= usize::MAX,
        ensures
            r as int == bilerp_pixel3(
                self@,
                self.spec_width(),
                self.spec_height(),
                nw as int,
                nh as int,
                x as int,
                y as int,
                c as int,
            ),
    {
        let w = self.width();
        let h = self.height();
        let (x1, x2, fx) = bilerp_axis(x, w, nw);
        let (y1, y2, fy) = bilerp_axis(y, h, nh);
        let p11 = self.sample_at(x1, y1, c) as u128;
        let p21 = self.sample_at(x2, y1, c) as u128;
        let p12 = self.sample_at(x1, y2, c) as u128;
        let p22 = self.sample_at(x2, y2, c) as u128;
        let nwu = nw as u128;
        let nhu = nh as u128;
        let fxu = fx as u128;
        let fyu = fy as u128;
        proof {
            lemma_bilerp_num_bound(
                p11 as int,
                p21 as int,
                p12 as int,
                p22 as int,
                nw as int,
                nh as int,
                fx as int,
                fy as int,
            );
        }
        let num = p11 * (nwu - fxu) * (nhu - fyu) + p21 * fxu * (nhu - fyu) + p12 * (nwu - fxu)
            * fyu + p22 * fxu * fyu;
        proof {
            assert(nw * nh >= 1) by (nonlinear_arith)
                requires
                    nw >= 1,
                    nh >= 1,
            ;
        }
        let den = nwu * nhu;
        let v = (2 * num + den) / (2 * den);
        proof {
            lemma_round_div_le_max(num as int, den as int);
        }
        v as u8
    }

    /// Crops the image to the specified rectangle.
    ///
    /// Validation is strict: the call fails exactly when the region
    /// overruns the image, and the region is never clamped.
    pub fn crop(&self, x: usize, y: usize, width: usize, height: usize) -> (r: Option<Matrix3>)
        requires
            self.wf(),
            x + width <= usize::MAX,
            y + height <= usize::MAX,
        ensures
            (r is Some) <==> (x + width <= self.spec_width() && y + height
                <= self.spec_height()),
            r matches Some(c) ==> {
                &&& c.wf()
                &&& c.spec_width() == width
                &&& c.spec_height() == height
                &&& c@ == crop3_data(
                    self@,
                    self.spec_width(),
                    x as int,
                    y as int,
                    width as int,
                    height as int,
                )
            },
    {
        let w = self.width();
        let h = self.height();
        if x + width > w || y + height > h {
            return None;
        }
        proof {
            assert(width * height <= w * h && (width * height) * 3 <= (w * h) * 3 && w * h * 3 == (
            w * h) * 3) by (nonlinear_arith)
                requires
                    width <= w as int,
                    height <= h as int,
                    w >= 0,
                    h >= 0,
            ;
        }
        let ghost out = crop3_data(
            self@,
            self.spec_width(),
            x as int,
            y as int,
            width as int,
            height as int,
        );
        let mut data: Vec<u8> = Vec::new();
        let mut j: usize = 0;
        while j < height
            invariant
                self.wf(),
                w == self.spec_width(),
                h == self.spec_height(),
                x + width <= w,
                y + height <= h,
                (width * height) * 3 <= usize::MAX,
                out == crop3_data(
                    self@,
                    self.spec_width(),
                    x as int,
                    y as int,
                    width as int,
                    height as int,
                ),
                j <= height,
                data@.len() == (j * width) * 3,
                forall|k: int| 0 <= k < data@.len() ==> data@[k] == out[k],
            decreases height - j,
        {
            let mut i: usize = 0;
            while i < width
                invariant
                    self.wf(),
                    w == self.spec_width(),
                    h == self.spec_height(),
                    x + width <= w,
                    y + height <= h,
                    (width * height) * 3 <= usize::MAX,
                    out == crop3_data(
                        self@,
                        self.spec_width(),
                        x as int,
                        y as int,
                        width as int,
                        height as int,
                    ),
                    j < height,
                    i <= width,
                    data@.len() == (j * width + i) * 3,
                    forall|k: int| 0 <= k < data@.len() ==> data@[k] == out[k],
                decreases width - i,
            {
                data.push(self.sample_at(x + i, y + j, 0));
                data.push(self.sample_at(x + i, y + j, 1));
                data.push(self.sample_at(x + i, y + j, 2));
                proof {
                    let p = j * width + i;
                    lemma_row_major_index(i as int, j as int, width as int, height as int);
                    crate::convolution::lemma_row_major_div_mod(i as int, j as int, width as int);
                    lemma_triple_index(p as int);
                    assert((p + 1) * 3 == p * 3 + 3 && p * 3 + 3 <= (width * height) * 3)
                        by (nonlinear_arith)
                        requires
                            0 <= p < width * height,
                    ;
                }
                i = i + 1;
            }
            j = j + 1;
            proof {
                assert((j * width) * 3 == ((j - 1) * width + width) * 3) by (nonlinear_arith);
            }
        }
        proof {
            assert(data@.len() == out.len()) by (nonlinear_arith)
                requires
                    data@.len() == (height * width) * 3,
                    out.len() == (width * height * 3) as nat,
            ;
            assert(data@ =~= out);
        }
        Some(Matrix3::new(width, height, data))
    }

    /// Rotates the image by the specified 90-degree multiple: a lossless
    /// index permutation with no interpolation. A quarter turn either way
    /// swaps the width and the height.
    pub fn rotate(&self, angle: RotationAngle) -> (r: Matrix3)
        requires
            self.wf(),
        ensures
            r.wf(),
            angle == RotationAngle::Rotate90 ==> r.spec_width() == self.spec_height()
                && r.spec_height() == self.spec_width() && r@ == rot90_data3(
                self@,
                self.spec_width(),
                self.spec_height(),
            ),
            angle == RotationAngle::Rotate180 ==> r.spec_width() == self.spec_width()
                && r.spec_height() == self.spec_height() && r@ == rot180_data3(
                self@,
                self.spec_width(),
                self.spec_height(),
            ),
            angle == RotationAngle::Rotate270 ==> r.spec_width() == self.spec_height()
                && r.spec_height() == self.spec_width() && r@ == rot270_data3(
                self@,
                self.spec_width(),
                self.spec_height(),
            ),
    {
        match angle {
            RotationAngle::Rotate90 => self.rotate_90(),
            RotationAngle::Rotate180 => self.rotate_180(),
            RotationAngle::Rotate270 => self.rotate_270(),
        }
    }

    /// Rotates the image 90 degrees clockwise.
    pub fn rotate_90(&self) -> (r: Matrix3)
        requires
            self.wf(),
        ensures
            r.wf(),
            r.spec_width() == self.spec_height(),
            r.spec_height() == self.spec_width(),
            r@ == rot90_data3(self@, self.spec_width(), self.spec_height()),
    {
        let w = self.width();
        let h = self.height();
        let ghost out = rot90_data3(self@, self.spec_width(), self.spec_height());
        let mut data: Vec<u8> = Vec::new();
        let mut ny: usize = 0;
        while ny < w
            invariant
                self.wf(),
                w == self.spec_width(),
                h == self.spec_height(),
                out == rot90_data3(self@, self.spec_width(), self.spec_height()),
                ny <= w,
                data@.len() == (ny * h) * 3,
                forall|k: int| 0 <= k < data@.len() ==> data@[k] == out[k],
            decreases w - ny,
        {
            let mut nx: usize = 0;
            while nx < h
                invariant
                    self.wf(),
                    w == self.spec_width(),
                    h == self.spec_height(),
                    out == rot90_data3(self@, self.spec_width(), self.spec_height()),
                    ny < w,
                    nx <= h,
                    data@.len() == (ny * h + nx) * 3,
                    forall|k: int| 0 <= k < data@.len() ==> data@[k] == out[k],
                decreases h - nx,
            {
                data.push(self.sample_at(ny, h - 1 - nx, 0));
                data.push(self.sample_at(ny, h - 1 - nx, 1));
                data.push(self.sample_at(ny, h - 1 - nx, 2));
                proof {
                    let p = ny * h + nx;
                    lemma_row_major_index(nx as int, ny as int, h as int, w as int);
                    crate::convolution::lemma_row_major_div_mod(nx as int, ny as int, h as int);
                    lemma_triple_index(p as int);
                    assert((p + 1) * 3 == p * 3 + 3 && p * 3 + 3 <= (h * w) * 3 && (h * w) * 3 == (
                    w * h) * 3 && w * h * 3 == (w * h) * 3) by (nonlinear_arith)
                        requires
                            0 <= p < h * w,
                    ;
                }
                nx = nx + 1;
            }
            ny = ny + 1;
            proof {
                assert((ny * h) * 3 == ((ny - 1) * h + h) * 3) by (nonlinear_arith);
            }
        }
        proof {
            assert(data@.len() == out.len()) by (nonlinear_arith)
                requires
                    data@.len() == (w * h) * 3,
                    out.len() == (w * h * 3) as nat,
            ;
            assert(data@ =~= out);
        }
        Matrix3::new(h, w, data)
    }

    /// Rotates the image 180 degrees.
    pub fn rotate_180(&self) -> (r: Matrix3)
        requires
            self.wf(),
        ensures
            r.wf(),
            r.spec_width() == self.spec_width(),
            r.spec_height() == self.spec_height(),
            r@ == rot180_data3(self@, self.spec_width(), self.spec_height()),
    {
        let w = self.width();
        let h = self.height();
        let ghost out = rot180_data3(self@, self.spec_width(), self.spec_height());
        let mut data: Vec<u8> = Vec::new();
        let mut ny: usize = 0;
        while ny < h
            invariant
                self.wf(),
                w == self.spec_width(),
                h == self.spec_height(),
                out == rot180_data3(self@, self.spec_width(), self.spec_height()),
                ny <= h,
                data@.len() == (ny * w) * 3,
                forall|k: int| 0 <= k < data@.len() ==> data@[k] == out[k],
            decreases h - ny,
        {
            let mut nx: usize = 0;
            while nx < w
                invariant
                    self.wf(),
                    w == self.spec_width(),
                    h == self.spec_height(),
                    out == rot180_data3(self@, self.spec_width(), self.spec_height()),
                    ny < h,
                    nx <= w,
                    data@.len() == (ny * w + nx) * 3,
                    forall|k: int| 0 <= k < data@.len() ==> data@[k] == out[k],
                decreases w - nx,
            {
                data.push(self.sample_at(w - 1 - nx, h - 1 - ny, 0));
                data.push(self.sample_at(w - 1 - nx, h - 1 - ny, 1));
                data.push(self.sample_at(w - 1 - nx, h - 1 - ny, 2));
                proof {
                    let p = ny * w + nx;
                    lemma_row_major_index(nx as int, ny as int, w as int, h as int);
                    crate::convolution::lemma_row_major_div_mod(nx as int, ny as int, w as int);
                    lemma_triple_index(p as int);
                    assert((p + 1) * 3 == p * 3 + 3 && p * 3 + 3 <= (h * w) * 3 && (h * w) * 3 == (
                    w * h) * 3 && w * h * 3 == (w * h) * 3) by (nonlinear_arith)
                        requires
                            0 <= p < h * w,
                    ;
                }
                nx = nx + 1;
            }
            ny = ny + 1;
            proof {
                assert((ny * w) * 3 == ((ny - 1) * w + w) * 3) by (nonlinear_arith);
            }
        }
        proof {
            assert(data@.len() == out.len()) by (nonlinear_arith)
                requires
                    data@.len() == (h * w) * 3,
                    out.len() == (w * h * 3) as nat,
            ;
            assert(data@ =~= out);
        }
        Matrix3::new(w, h, data)
    }

    /// Rotates the image 270 degrees clockwise (90 degrees
    /// counter-clockwise).
    pub fn rotate_270(&self) -> (r: Matrix3)
        requires
            self.wf(),
        ensures
            r.wf(),
            r.spec_width() == self.spec_height(),
            r.spec_height() == self.spec_width(),
            r@ == rot270_data3(self@, self.spec_width(), self.spec_height()),
    {
        let w = self.width();
        let h = self.height();
        let ghost out = rot270_data3(self@, self.spec_width(), self.spec_height());
        let mut data: Vec<u8> = Vec::new();
        let mut ny: usize = 0;
        while ny < w
            invariant
                self.wf(),
                w == self.spec_width(),
                h == self.spec_height(),
                out == rot270_data3(self@, self.spec_width(), self.spec_height()),
                ny <= w,
                data@.len() == (ny * h) * 3,
                forall|k: int| 0 <= k < data@.len() ==> data@[k] == out[k],
            decreases w - ny,
        {
            let mut nx: usize = 0;
            while nx < h
                invariant
                    self.wf(),
                    w == self.spec_width(),
                    h == self.spec_height(),
                    out == rot270_data3(self@, self.spec_width(), self.spec_height()),
                    ny < w,
                    nx <= h,
                    data@.len() == (ny * h + nx) * 3,
                    forall|k: int| 0 <= k < data@.len() ==> data@[k] == out[k],
                decreases h - nx,
            {
                data.push(self.sample_at(w - 1 - ny, nx, 0));
                data.push(self.sample_at(w - 1 - ny, nx, 1));
                data.push(self.sample_at(w - 1 - ny, nx, 2));
                proof {
                    let p = ny * h + nx;
                    lemma_row_major_index(nx as int, ny as int, h as int, w as int);
                    crate::convolution::lemma_row_major_div_mod(nx as int, ny as int, h as int);
                    lemma_triple_index(p as int);
                    assert((p + 1) * 3 == p * 3 + 3 && p * 3 + 3 <= (h * w) * 3 && (h * w) * 3 == (
                    w * h) * 3 && w * h * 3 == (w * h) * 3) by (nonlinear_arith)
                        requires
                            0 <= p < h * w,
                    ;
                }
                nx = nx + 1;
            }
            ny = ny + 1;
            proof {
                assert((ny * h) * 3 == ((ny - 1) * h + h) * 3) by (nonlinear_arith);
            }
        }
        proof {
            assert(data@.len() == out.len()) by (nonlinear_arith)
                requires
                    data@.len() == (w * h) * 3,
                    out.len() == (w * h * 3) as nat,
            ;
            assert(data@ =~= out);
        }
        Matrix3::new(h, w, data)
    }
}

/// Rotating by 180 degrees twice restores the buffer exactly
/// (single-channel form).
pub proof fn lemma_rot180_involution1(s: Seq<u8>, w: int, h: int)
    requires
        s.len() == w * h,
        w >= 0,
        h >= 0,
    ensures
        rot180_data1(rot180_data1(s, w, h), w, h) == s,
{
    let t = rot180_data1(s, w, h);
    let u = rot180_data1(t, w, h);
    assert forall|k: int| 0 <= k < s.len() implies u[k] == s[k] by {
        assert(w >= 1 && h >= 1) by (nonlinear_arith)
            requires
                0 <= k < w * h,
                w >= 0,
                h >= 0,
        ;
        let y = k / w;
        let x = k % w;
        lemma_mod_bound(k, w);
        lemma_div_pos_is_pos(k, w);
        lemma_multiply_divide_lt(k, w, h);
        let j = (h - 1 - y) * w + (w - 1 - x);
        crate::matrix::lemma_row_major_index(w - 1 - x, h - 1 - y, w, h);
        crate::convolution::lemma_row_major_div_mod(w - 1 - x, h - 1 - y, w);
        lemma_fundamental_div_mod(k, w);
        assert(u[k] == t[j]);
        assert(t[j] == s[(h - 1 - j / w) * w + (w - 1 - j % w)]);
        assert(t[j] == s[y * w + x]);
    }
    assert(rot180_data1(rot180_data1(s, w, h), w, h) =~= s);
}

/// Rotating by 180 degrees twice restores the buffer exactly
/// (three-channel form).
pub proof fn lemma_rot180_involution3(s: Seq<u8>, w: int, h: int)
    requires
        s.len() == w * h * 3,
        w >= 0,
        h >= 0,
    ensures
        rot180_data3(rot180_data3(s, w, h), w, h) == s,
{
    let t = rot180_data3(s, w, h);
    let u = rot180_data3(t, w, h);
    assert forall|k: int| 0 <= k < s.len() implies u[k] == s[k] by {
        let p = k / 3;
        let c = k % 3;
        lemma_mod_bound(k, 3);
        lemma_div_pos_is_pos(k, 3);
        assert(0 <= p < w * h && w >= 1 && h >= 1) by (nonlinear_arith)
            requires
                0 <= k < w * h * 3,
                k == 3 * p + c,
                0 <= c < 3,
                w >= 0,
                h >= 0,
        ;
        let y = p / w;
        let x = p % w;
        lemma_mod_bound(p, w);
        lemma_div_pos_is_pos(p, w);
        lemma_multiply_divide_lt(p, w, h);
        let q = (h - 1 - y) * w + (w - 1 - x);
        crate::matrix::lemma_row_major_index(w - 1 - x, h - 1 - y, w, h);
        crate::convolution::lemma_row_major_div_mod(w - 1 - x, h - 1 - y, w);
        let j = q * 3 + c;
        lemma_fundamental_div_mod_converse_div(j, 3, q, c);
        lemma_fundamental_div_mod_converse_mod(j, 3, q, c);
        assert(0 <= j < w * h * 3) by (nonlinear_arith)
            requires
                0 <= q < w * h,
                j == q * 3 + c,
                0 <= c < 3,
        ;
        lemma_fundamental_div_mod(k, 3);
        lemma_fundamental_div_mod(p, w);
        assert(u[k] == t[j]);
        assert(t[j] == s[((h - 1 - q / w) * w + (w - 1 - q % w)) * 3 + j % 3]);
        assert((h - 1 - q / w) * w + (w - 1 - q % w) == p) by (nonlinear_arith)
            requires
                q / w == h - 1 - y,
                q % w == w - 1 - x,
                y == p / w,
                x == p % w,
                p == w * (p / w) + p % w,
        ;
        assert(t[j] == s[p * 3 + c]);
        assert(k == p * 3 + c);
    }
    assert(rot180_data3(rot180_data3(s, w, h), w, h) =~= s);
}

/// Rounding the exact multiple `v * den` back through `round_div` returns
/// `v`.
proof fn lemma_round_div_exact(v: int, den: int)
    requires
        den >= 1,
        v >= 0,
    ensures
        round_div(v * den, den) == v,
{
    assert(2 * (v * den) + den == (2 * v + 1) * den) by (nonlinear_arith);
    assert((2 * v + 1) * den == v * (2 * den) + den) by (nonlinear_arith);
    lemma_fundamental_div_mod_converse_div((2 * v + 1) * den, 2 * den, v, den);
}

/// Resizing a constant-valued single-channel image returns the same
/// constant everywhere, for both interpolation methods.
pub proof fn lemma_resize_constant1(s: Seq<u8>, w: int, h: int, nw: int, nh: int, v: u8)
    requires
        s.len() == w * h,
        w >= 1,
        h >= 1,
        nw >= 0,
        nh >= 0,
        forall|i: int| 0 <= i < s.len() ==> s[i] == v,
    ensures
        forall|k: int|
            0 <= k < nw * nh ==> resize1_nearest_data(s, w, h, nw, nh)[k] == v,
        forall|k: int|
            0 <= k < nw * nh ==> resize1_bilinear_data(s, w, h, nw, nh)[k] == v,
{
    assert forall|k: int| 0 <= k < nw * nh implies resize1_nearest_data(s, w, h, nw, nh)[k] == v
        && resize1_bilinear_data(s, w, h, nw, nh)[k] == v by {
        assert(nw >= 1 && nh >= 1) by (nonlinear_arith)
            requires
                0 <= k < nw * nh,
                nw >= 0,
                nh >= 0,
        ;
        let x = k % nw;
        let y = k / nw;
        lemma_mod_bound(k, nw);
        lemma_div_pos_is_pos(k, nw);
        lemma_multiply_divide_lt(k, nw, nh);
        lemma_nearest_in_range(x, w, nw);
        lemma_nearest_in_range(y, h, nh);
        crate::matrix::lemma_row_major_index(
            nearest_src(x, w, nw),
            nearest_src(y, h, nh),
            w,
            h,
        );
        lemma_bilerp_constant(s, w, h, nw, nh, x, y, v);
    }
}

/// The clamped nearest-neighbor source coordinate is always inside the
/// source range.
proof fn lemma_nearest_in_range(d: int, extent: int, new_extent: int)
    requires
        0 <= d < new_extent,
        extent >= 1,
    ensures
        0 <= nearest_src(d, extent, new_extent) <= extent - 1,
{
    assert(d * extent >= 0) by (nonlinear_arith)
        requires
            d >= 0,
            extent >= 0,
    ;
    lemma_div_pos_is_pos(d * extent, new_extent);
}

/// On a constant buffer the bilinear sample is the constant.
proof fn lemma_bilerp_constant(s: Seq<u8>, w: int, h: int, nw: int, nh: int, x: int, y: int, v: u8)
    requires
        s.len() == w * h,
        w >= 1,
        h >= 1,
        nw >= 1,
        nh >= 1,
        0 <= x < nw,
        0 <= y < nh,
        forall|i: int| 0 <= i < s.len() ==> s[i] == v,
    ensures
        bilerp_pixel1(s, w, h, nw, nh, x, y) == v,
{
    let xn = x * (w - 1);
    let yn = y * (h - 1);
    let x1 = xn / nw;
    let fx = xn % nw;
    let y1 = yn / nh;
    let fy = yn % nh;
    let x2 = if x1 + 1 > w - 1 {
        w - 1
    } else {
        x1 + 1
    };
    let y2 = if y1 + 1 > h - 1 {
        h - 1
    } else {
        y1 + 1
    };
    assert(xn >= 0 && xn < nw * w && yn >= 0 && yn < nh * h) by (nonlinear_arith)
        requires
            0 <= x < nw,
            0 <= y < nh,
            w >= 1,
            h >= 1,
            xn == x * (w - 1),
            yn == y * (h - 1),
    ;
    lemma_div_pos_is_pos(xn, nw);
    lemma_div_pos_is_pos(yn, nh);
    lemma_multiply_divide_lt(xn, nw, w);
    lemma_multiply_divide_lt(yn, nh, h);
    lemma_mod_bound(xn, nw);
    lemma_mod_bound(yn, nh);
    crate::matrix::lemma_row_major_index(x1, y1, w, h);
    crate::matrix::lemma_row_major_index(x2, y1, w, h);
    crate::matrix::lemma_row_major_index(x1, y2, w, h);
    crate::matrix::lemma_row_major_index(x2, y2, w, h);
    let num = (v as int) * (nw - fx) * (nh - fy) + (v as int) * fx * (nh - fy) + (v as int) * (nw
        - fx) * fy + (v as int) * fx * fy;
    assert(num == (v as int) * (nw * nh)) by (nonlinear_arith)
        requires
            num == (v as int) * (nw - fx) * (nh - fy) + (v as int) * fx * (nh - fy) + (v as int)
                * (nw - fx) * fy + (v as int) * fx * fy,
    ;
    assert(nw * nh >= 1) by (nonlinear_arith)
        requires
            nw >= 1,
            nh >= 1,
    ;
    lemma_round_div_exact(v as int, nw * nh);
}

/// On a constant three-channel buffer the bilinear sample is the constant.
proof fn lemma_bilerp_constant3(
    s: Seq<u8>,
    w: int,
    h: int,
    nw: int,
    nh: int,
    x: int,
    y: int,
    c: int,
    v: u8,
)
    requires
        s.len() == w * h * 3,
        w >= 1,
        h >= 1,
        nw >= 1,
        nh >= 1,
        0 <= x < nw,
        0 <= y < nh,
        0 <= c < 3,
        forall|i: int| 0 <= i < s.len() ==> s[i] == v,
    ensures
        bilerp_pixel3(s, w, h, nw, nh, x, y, c) == v,
{
    let xn = x * (w - 1);
    let yn = y * (h - 1);
    let x1 = xn / nw;
    let fx = xn % nw;
    let y1 = yn / nh;
    let fy = yn % nh;
    let x2 = if x1 + 1 > w - 1 {
        w - 1
    } else {
        x1 + 1
    };
    let y2 = if y1 + 1 > h - 1 {
        h - 1
    } else {
        y1 + 1
    };
    assert(xn >= 0 && xn < nw * w && yn >= 0 && yn < nh * h) by (nonlinear_arith)
        requires
            0 <= x < nw,
            0 <= y < nh,
            w >= 1,
            h >= 1,
            xn == x * (w - 1),
            yn == y * (h - 1),
    ;
    lemma_div_pos_is_pos(xn, nw);
    lemma_div_pos_is_pos(yn, nh);
    lemma_multiply_divide_lt(xn, nw, w);
    lemma_multiply_divide_lt(yn, nh, h);
    lemma_mod_bound(xn, nw);
    lemma_mod_bound(yn, nh);
    crate::matrix::lemma_row_major_index(x1, y1, w, h);
    crate::matrix::lemma_row_major_index(x2, y1, w, h);
    crate::matrix::lemma_row_major_index(x1, y2, w, h);
    crate::matrix::lemma_row_major_index(x2, y2, w, h);
    assert(0 <= (y1 * w + x1) * 3 + c < w * h * 3 && 0 <= (y1 * w + x2) * 3 + c < w * h * 3 && 0
        <= (y2 * w + x1) * 3 + c < w * h * 3 && 0 <= (y2 * w + x2) * 3 + c < w * h * 3)
        by (nonlinear_arith)
        requires
            0 <= y1 * w + x1 < w * h,
            0 <= y1 * w + x2 < w * h,
            0 <= y2 * w + x1 < w * h,
            0 <= y2 * w + x2 < w * h,
            0 <= c < 3,
    ;
    let num = (v as int) * (nw - fx) * (nh - fy) + (v as int) * fx * (nh - fy) + (v as int) * (nw
        - fx) * fy + (v as int) * fx * fy;
    assert(num == (v as int) * (nw * nh)) by (nonlinear_arith)
        requires
            num == (v as int) * (nw - fx) * (nh - fy) + (v as int) * fx * (nh - fy) + (v as int)
                * (nw - fx) * fy + (v as int) * fx * fy,
    ;
    assert(nw * nh >= 1) by (nonlinear_arith)
        requires
            nw >= 1,
            nh >= 1,
    ;
    lemma_round_div_exact(v as int, nw * nh);
}

/// Resizing a constant-valued three-channel image returns the same
/// constant everywhere, for both interpolation methods.
pub proof fn lemma_resize_constant3(s: Seq<u8>, w: int, h: int, nw: int, nh: int, v: u8)
    requires
        s.len() == w * h * 3,
        w >= 1,
        h >= 1,
        nw >= 0,
        nh >= 0,
        forall|i: int| 0 <= i < s.len() ==> s[i] == v,
    ensures
        forall|k: int|
            0 <= k < nw * nh * 3 ==> resize3_nearest_data(s, w, h, nw, nh)[k] == v,
        forall|k: int|
            0 <= k < nw * nh * 3 ==> resize3_bilinear_data(s, w, h, nw, nh)[k] == v,
{
    assert forall|k: int| 0 <= k < nw * nh * 3 implies resize3_nearest_data(s, w, h, nw, nh)[k]
        == v && resize3_bilinear_data(s, w, h, nw, nh)[k] == v by {
        let p = k / 3;
        let c = k % 3;
        lemma_mod_bound(k, 3);
        lemma_div_pos_is_pos(k, 3);
        assert(0 <= p < nw * nh && nw >= 1 && nh >= 1) by (nonlinear_arith)
            requires
                0 <= k < nw * nh * 3,
                k == 3 * p + c,
                0 <= c < 3,
                nw >= 0,
                nh >= 0,
        ;
        lemma_fundamental_div_mod(k, 3);
        let x = p % nw;
        let y = p / nw;
        lemma_mod_bound(p, nw);
        lemma_div_pos_is_pos(p, nw);
        lemma_multiply_divide_lt(p, nw, nh);
        lemma_nearest_in_range(x, w, nw);
        lemma_nearest_in_range(y, h, nh);
        let sx = nearest_src(x, w, nw);
        let sy = nearest_src(y, h, nh);
        crate::matrix::lemma_row_major_index(sx, sy, w, h);
        assert(0 <= (sy * w + sx) * 3 + c < w * h * 3) by (nonlinear_arith)
            requires
                0 <= sy * w + sx < w * h,
                0 <= c < 3,
        ;
        lemma_bilerp_constant3(s, w, h, nw, nh, x, y, c, v);
    }
}

/// Division rounded to the nearest integer with halves away from zero, for
/// a possibly negative numerator over a positive denominator.
pub open spec fn round_away(n: int, d: int) -> int {
    if n >= 0 {
        (2 * n + d) / (2 * d)
    } else {
        -((2 * (-n) + d) / (2 * d))
    }
}

/// The output canvas of an arbitrary-angle rotation: each axis spans the
/// rotated corners of the source rectangle, so its extent is
/// `ceil((|cos| w + |sin| h) / den)` horizontally and
/// `ceil((|sin| w + |cos| h) / den)` vertically, where `cos / den` and
/// `sin / den` are the exact rotation coefficients.
pub open spec fn rotated_width(w: int, h: int, c: int, s: int, den: int) -> int {
    (abs_of(c) * w + abs_of(s) * h + den - 1) / den
}

/// See `rotated_width`.
pub open spec fn rotated_height(w: int, h: int, c: int, s: int, den: int) -> int {
    (abs_of(s) * w + abs_of(c) * h + den - 1) / den
}

/// The absolute value.
pub open spec fn abs_of(v: int) -> int {
    if v < 0 {
        -v
    } else {
        v
    }
}

/// The numerators, over `2 den`, of the source position that destination
/// pixel `(nx, ny)` of a `nw x nh` canvas maps back to under the inverse
/// rotation about both centers: with half-pixel offsets `2 nx - nw` and
/// `2 ny - nh`, the source position is
/// `((2nx - nw) cos + (2ny - nh) sin) / (2 den) + w / 2` horizontally and
/// `(-(2nx - nw) sin + (2ny - nh) cos) / (2 den) + h / 2` vertically.
pub open spec fn inverse_x_num(
    w: int,
    c: int,
    s: int,
    den: int,
    nw: int,
    nh: int,
    nx: int,
    ny: int,
) -> int {
    (2 * nx - nw) * c + (2 * ny - nh) * s + w * den
}

/// See `inverse_x_num`.
pub open spec fn inverse_y_num(
    h: int,
    c: int,
    s: int,
    den: int,
    nw: int,
    nh: int,
    nx: int,
    ny: int,
) -> int {
    -(2 * nx - nw) * s + (2 * ny - nh) * c + h * den
}

/// The nearest-neighbor sample of a single-channel buffer at the rational
/// position `(xn, yn)` over `d`: the position rounds to the nearest pixel,
/// and anything outside the image is zero-filled.
pub open spec fn sample_nearest1(data: Seq<u8>, w: int, h: int, xn: int, yn: int, d: int) -> int {
    let ix = round_away(xn, d);
    let iy = round_away(yn, d);
    if ix < 0 || iy < 0 || ix >= w || iy >= h {
        0
    } else {
        data[iy * w + ix] as int
    }
}

/// The bilinear sample of a single-channel buffer at the rational position
/// `(xn, yn)` over `d`: positions outside `[0, w) x [0, h)` are
/// zero-filled, and inside, the four neighbors are weighed by the
/// fractional offsets and the result rounds to nearest.
pub open spec fn sample_bilinear1(data: Seq<u8>, w: int, h: int, xn: int, yn: int, d: int) -> int {
    if xn < 0 || yn < 0 || xn >= w * d || yn >= h * d {
        0
    } else {
        let x1 = xn / d;
        let fx = xn % d;
        let y1 = yn / d;
        let fy = yn % d;
        let x2 = if x1 + 1 > w - 1 {
            w - 1
        } else {
            x1 + 1
        };
        let y2 = if y1 + 1 > h - 1 {
            h - 1
        } else {
            y1 + 1
        };
        let p11 = data[y1 * w + x1] as int;
        let p21 = data[y1 * w + x2] as int;
        let p12 = data[y2 * w + x1] as int;
        let p22 = data[y2 * w + x2] as int;
        round_div(
            p11 * (d - fx) * (d - fy) + p21 * fx * (d - fy) + p12 * (d - fx) * fy + p22 * fx * fy,
            d * d,
        )
    }
}

/// The value of destination pixel `(nx, ny)` of an arbitrary-angle
/// rotation of a single-channel buffer.
pub open spec fn rotate1_pixel(
    data: Seq<u8>,
    w: int,
    h: int,
    c: int,
    s: int,
    den: int,
    method: InterpolationMethod,
    nw: int,
    nh: int,
    nx: int,
    ny: int,
) -> int {
    let xn = inverse_x_num(w, c, s, den, nw, nh, nx, ny);
    let yn = inverse_y_num(h, c, s, den, nw, nh, nx, ny);
    match method {
        InterpolationMethod::NearestNeighbor => sample_nearest1(data, w, h, xn, yn, 2 * den),
        InterpolationMethod::Bilinear => sample_bilinear1(data, w, h, xn, yn, 2 * den),
    }
}

/// The whole rotated single-channel buffer, row-major over the grown
/// canvas.
pub open spec fn rotate1_data(
    data: Seq<u8>,
    w: int,
    h: int,
    c: int,
    s: int,
    den: int,
    method: InterpolationMethod,
    nw: int,
    nh: int,
) -> Seq<u8> {
    Seq::new(
        (nw * nh) as nat,
        |k: int| rotate1_pixel(data, w, h, c, s, den, method, nw, nh, k % nw, k / nw) as u8,
    )
}

/// Rounds a rational to the nearest integer, halves away from zero.
fn round_away_value(n: i128, d: i128) -> (r: i128)
    requires
        1 <= d <= 0x1_0000_0000_0000_0000,
        -0x1_0000_0000_0000_0000_0000 <= n <= 0x1_0000_0000_0000_0000_0000,
    ensures
        r == round_away(n as int, d as int),
{
    if n >= 0 {
        proof {
            lemma_div_pos_is_pos(2 * n as int + d as int, 2 * d as int);
        }
        (2 * n + d) / (2 * d)
    } else {
        proof {
            lemma_div_pos_is_pos(2 * (-n) as int + d as int, 2 * d as int);
        }
        -((2 * (-n) + d) / (2 * d))
    }
}

/// The grown canvas for rotating a `w x h` image by the exact rotation
/// `(cos, sin) / den`: never wider or taller than `w + h + 1`.
fn rotated_canvas(w: usize, h: usize, cos_num: i64, sin_num: i64, den: u64) -> (r: (usize, usize))
    requires
        1 <= den,
        -(den as int) <= cos_num as int <= den as int,
        -(den as int) <= sin_num as int <= den as int,
        w <= 0x7fff_ffff,
        h <= 0x7fff_ffff,
    ensures
        r.0 == rotated_width(w as int, h as int, cos_num as int, sin_num as int, den as int),
        r.1 == rotated_height(w as int, h as int, cos_num as int, sin_num as int, den as int),
        r.0 <= w + h,
        r.1 <= w + h,
{
    let ac: i128 = if cos_num < 0 {
        -(cos_num as i128)
    } else {
        cos_num as i128
    };
    let asn: i128 = if sin_num < 0 {
        -(sin_num as i128)
    } else {
        sin_num as i128
    };
    let d = den as i128;
    let wide = rotated_extent(ac, asn, w as i128, h as i128, d);
    let tall = rotated_extent(asn, ac, w as i128, h as i128, d);
    (wide as usize, tall as usize)
}

/// One axis of the grown canvas: `ceil((a w + b h) / d)`.
fn rotated_extent(a: i128, b: i128, w: i128, h: i128, d: i128) -> (r: i128)
    requires
        1 <= d,
        0 <= a <= d,
        0 <= b <= d,
        0 <= w <= 0x7fff_ffff,
        0 <= h <= 0x7fff_ffff,
        d <= 0xffff_ffff_ffff_ffff,
    ensures
        r == (a * w + b * h + d - 1) as int / d as int,
        0 <= r <= w + h,
{
    proof {
        assert(0 <= a * w && a * w <= d * w && 0 <= b * h && b * h <= d * h && d * w
            <= 0x7fff_ffff_0000_0000_0000_0000 && d * h <= 0x7fff_ffff_0000_0000_0000_0000 && a * w
            + b * h <= d * (w + h)) by (nonlinear_arith)
            requires
                0 <= a <= d,
                0 <= b <= d,
                0 <= w <= 0x7fff_ffff,
                0 <= h <= 0x7fff_ffff,
                d <= 0xffff_ffff_ffff_ffff,
        ;
        lemma_div_pos_is_pos(a * w + b * h + d - 1, d as int);
        assert(a * w + b * h + d - 1 < d * (w + h + 1)) by (nonlinear_arith)
            requires
                a * w + b * h <= d * (w + h),
                d >= 1,
        ;
        lemma_multiply_divide_lt(a * w + b * h + d - 1, d as int, w as int + h + 1);
    }
    (a * w + b * h + d - 1) / d
}

impl Matrix1 {
    /// The nearest-neighbor sample at rational position `(xn, yn)` over
    /// `d`, zero-filling outside the image.
    fn sample_rot_nearest(&self, xn: i128, yn: i128, d: i128) -> (r: u8)
        requires
            self.wf(),
            1 <= d <= 0x1_0000_0000_0000_0000,
            -0x1_0000_0000_0000_0000_0000 <= xn <= 0x1_0000_0000_0000_0000_0000,
            -0x1_0000_0000_0000_0000_0000 <= yn <= 0x1_0000_0000_0000_0000_0000,
            self.spec_width() <= 0x7fff_ffff,
            self.spec_height() <= 0x7fff_ffff,
        ensures
            r as int == sample_nearest1(
                self@,
                self.spec_width(),
                self.spec_height(),
                xn as int,
                yn as int,
                d as int,
            ),
    {
        let ix = round_away_value(xn, d);
        let iy = round_away_value(yn, d);
        let w = self.width() as i128;
        let h = self.height() as i128;
        if ix < 0 || iy < 0 || ix >= w || iy >= h {
            0
        } else {
            self.pixel_at(ix as usize, iy as usize)
        }
    }

    /// The bilinear sample at rational position `(xn, yn)` over `d`,
    /// zero-filling outside the image.
    fn sample_rot_bilinear(&self, xn: i128, yn: i128, d: i128) -> (r: u8)
        requires
            self.wf(),
            1 <= d <= 0x8000_0000,
            self.spec_width() <= 0x7fff_ffff,
            self.spec_height() <= 0x7fff_ffff,
        ensures
            r as int == sample_bilinear1(
                self@,
                self.spec_width(),
                self.spec_height(),
                xn as int,
                yn as int,
                d as int,
            ),
    {
        let w = self.width() as i128;
        let h = self.height() as i128;
        proof {
            assert(0 <= w * d <= 0x7fff_ffff * 0x8000_0000 && 0 <= h * d <= 0x7fff_ffff
                * 0x8000_0000) by (nonlinear_arith)
                requires
                    0 <= w <= 0x7fff_ffff,
                    0 <= h <= 0x7fff_ffff,
                    1 <= d <= 0x8000_0000,
            ;
        }
        if xn < 0 || yn < 0 || xn >= w * d || yn >= h * d {
            return 0;
        }
        proof {
            // An in-range position exists only over a nonempty image.
            assert(w >= 1 && h >= 1) by (nonlinear_arith)
                requires
                    0 <= xn < w * d,
                    0 <= yn < h * d,
                    w >= 0,
                    h >= 0,
                    d >= 1,
            ;
        }
        let x1 = xn / d;
        let fx = xn % d;
        let y1 = yn / d;
        let fy = yn % d;
        proof {
            lemma_div_pos_is_pos(xn as int, d as int);
            lemma_div_pos_is_pos(yn as int, d as int);
            lemma_mod_bound(xn as int, d as int);
            lemma_mod_bound(yn as int, d as int);
            assert(w * d == d * w && h * d == d * h) by (nonlinear_arith);
            lemma_multiply_divide_lt(xn as int, d as int, w as int);
            lemma_multiply_divide_lt(yn as int, d as int, h as int);
        }
        let wu = self.width();
        let hu = self.height();
        let x1u = x1 as usize;
        let y1u = y1 as usize;
        let x2u = if x1u + 1 > wu - 1 {
            wu - 1
        } else {
            x1u + 1
        };
        let y2u = if y1u + 1 > hu - 1 {
            hu - 1
        } else {
            y1u + 1
        };
        let p11 = self.pixel_at(x1u, y1u) as u128;
        let p21 = self.pixel_at(x2u, y1u) as u128;
        let p12 = self.pixel_at(x1u, y2u) as u128;
        let p22 = self.pixel_at(x2u, y2u) as u128;
        let du = d as u128;
        let fxu = fx as u128;
        let fyu = fy as u128;
        proof {
            lemma_bilerp_num_bound(
                p11 as int,
                p21 as int,
                p12 as int,
                p22 as int,
                d as int,
                d as int,
                fx as int,
                fy as int,
            );
            assert(d * d >= 1 && d * d <= 0x8000_0000 * 0x8000_0000) by (nonlinear_arith)
                requires
                    1 <= d <= 0x8000_0000,
            ;
        }
        let num = p11 * (du - fxu) * (du - fyu) + p21 * fxu * (du - fyu) + p12 * (du - fxu) * fyu
            + p22 * fxu * fyu;
        let dd = du * du;
        let v = (2 * num + dd) / (2 * dd);
        proof {
            lemma_round_div_le_max(num as int, dd as int);
        }
        v as u8
    }

    /// Rotates the image by an arbitrary angle given as the exact rational
    /// rotation coefficients `cos_num / den` and `sin_num / den` (with
    /// `|cos_num|, |sin_num| <= den`), using the chosen interpolation
    /// method.
    ///
    /// The output canvas grows to the bounding box of the rotated corners;
    /// every destination pixel is inverse-rotated about both centers and
    /// sampled, and any source position outside the image is zero-filled —
    /// a fixed border policy independent of the convolution engine's
    /// configurable one.
    pub fn rotate_custom(
        &self,
        cos_num: i64,
        sin_num: i64,
        den: u64,
        method: InterpolationMethod,
    ) -> (r: Matrix1)
        requires
            self.wf(),
            self.spec_width() <= 0x7fff_ffff,
            self.spec_height() <= 0x7fff_ffff,
            1 <= den <= 0x4000_0000,
            -(den as int) <= cos_num as int <= den as int,
            -(den as int) <= sin_num as int <= den as int,
            (self.spec_width() + self.spec_height()) * (self.spec_width() + self.spec_height())
                <= usize::MAX,
        ensures
            r.wf(),
            r.spec_width() == rotated_width(
                self.spec_width(),
                self.spec_height(),
                cos_num as int,
                sin_num as int,
                den as int,
            ),
            r.spec_height() == rotated_height(
                self.spec_width(),
                self.spec_height(),
                cos_num as int,
                sin_num as int,
                den as int,
            ),
            r@ == rotate1_data(
                self@,
                self.spec_width(),
                self.spec_height(),
                cos_num as int,
                sin_num as int,
                den as int,
                method,
                r.spec_width(),
                r.spec_height(),
            ),
    {
        let w = self.width();
        let h = self.height();
        let (nw, nh) = rotated_canvas(w, h, cos_num, sin_num, den);
        proof {
            assert(nw * nh <= (w + h) * (w + h)) by (nonlinear_arith)
                requires
                    0 <= nw <= w as int + h,
                    0 <= nh <= w as int + h,
            ;
        }
        let ghost out = rotate1_data(
            self@,
            self.spec_width(),
            self.spec_height(),
            cos_num as int,
            sin_num as int,
            den as int,
            method,
            nw as int,
            nh as int,
        );
        let c = cos_num as i128;
        let s = sin_num as i128;
        let d2 = 2 * (den as i128);
        let mut data: Vec<u8> = Vec::new();
        let mut ny: usize = 0;
        while ny < nh
            invariant
                self.wf(),
                self.spec_width() <= 0x7fff_ffff,
                self.spec_height() <= 0x7fff_ffff,
                1 <= den <= 0x4000_0000,
                -(den as int) <= cos_num as int <= den as int,
                -(den as int) <= sin_num as int <= den as int,
                w == self.spec_width(),
                h == self.spec_height(),
                nw <= w + h,
                nh <= w + h,
                nw * nh <= usize::MAX,
                c == cos_num as int,
                s == sin_num as int,
                d2 == 2 * den as int,
                out == rotate1_data(
                    self@,
                    self.spec_width(),
                    self.spec_height(),
                    cos_num as int,
                    sin_num as int,
                    den as int,
                    method,
                    nw as int,
                    nh as int,
                ),
                ny <= nh,
                data@.len() == ny * nw,
                forall|k: int| 0 <= k < data@.len() ==> data@[k] == out[k],
            decreases nh - ny,
        {
            let mut nx: usize = 0;
            while nx < nw
                invariant
                    self.wf(),
                    self.spec_width() <= 0x7fff_ffff,
                    self.spec_height() <= 0x7fff_ffff,
                    1 <= den <= 0x4000_0000,
                    -(den as int) <= cos_num as int <= den as int,
                    -(den as int) <= sin_num as int <= den as int,
                    w == self.spec_width(),
                    h == self.spec_height(),
                    nw <= w + h,
                    nh <= w + h,
                    nw * nh <= usize::MAX,
                    c == cos_num as int,
                    s == sin_num as int,
                    d2 == 2 * den as int,
                    out == rotate1_data(
                        self@,
                        self.spec_width(),
                        self.spec_height(),
                        cos_num as int,
                        sin_num as int,
                        den as int,
                        method,
                        nw as int,
                        nh as int,
                    ),
                    ny < nh,
                    nx <= nw,
                    data@.len() == ny * nw + nx,
                    forall|k: int| 0 <= k < data@.len() ==> data@[k] == out[k],
                decreases nw - nx,
            {
                let dx: i128 = 2 * (nx as i128) - (nw as i128);
                let dy: i128 = 2 * (ny as i128) - (nh as i128);
                proof {
                    assert(-0x4000_0000_0000_0000 <= dx * c <= 0x4000_0000_0000_0000
                        && -0x4000_0000_0000_0000 <= dy * s <= 0x4000_0000_0000_0000
                        && -0x4000_0000_0000_0000 <= dx * s <= 0x4000_0000_0000_0000
                        && -0x4000_0000_0000_0000 <= dy * c <= 0x4000_0000_0000_0000 && 0 <= (
                        w as int) * (den as int) <= 0x4000_0000_0000_0000 && 0 <= (h as int) * (
                        den as int) <= 0x4000_0000_0000_0000) by (nonlinear_arith)
                        requires
                            -0x1_0000_0000 <= dx <= 0x1_0000_0000,
                            -0x1_0000_0000 <= dy <= 0x1_0000_0000,
                            -0x4000_0000 <= c <= 0x4000_0000,
                            -0x4000_0000 <= s <= 0x4000_0000,
                            0 <= w as int <= 0x7fff_ffff,
                            1 <= den as int <= 0x4000_0000,
                            0 <= h as int <= 0x7fff_ffff,
                    ;
                }
                let xn = dx * c + dy * s + (w as i128) * (den as i128);
                let yn = dy * c - dx * s + (h as i128) * (den as i128);
                proof {
                    assert((-dx) * s == dy * c - dx * s - dy * c) by (nonlinear_arith);
                }
                let v = match method {
                    InterpolationMethod::NearestNeighbor => self.sample_rot_nearest(xn, yn, d2),
                    InterpolationMethod::Bilinear => self.sample_rot_bilinear(xn, yn, d2),
                };
                data.push(v);
                proof {
                    lemma_row_major_index(nx as int, ny as int, nw as int, nh as int);
                    crate::convolution::lemma_row_major_div_mod(nx as int, ny as int, nw as int);
                }
                nx = nx + 1;
            }
            ny = ny + 1;
            proof {
                assert(ny * nw == (ny - 1) * nw + nw) by (nonlinear_arith);
            }
        }
        proof {
            assert(data@.len() == out.len()) by (nonlinear_arith)
                requires
                    data@.len() == nh * nw,
                    out.len() == (nw * nh) as nat,
            ;
            assert(data@ =~= out);
        }
        Matrix1::new(nw, nh, data)
    }
}

/// Destination pixel `k` of a zero-angle rotation holds its source byte.
proof fn lemma_rotate_zero_pixel1(
    data: Seq<u8>,
    w: int,
    h: int,
    den: int,
    method: InterpolationMethod,
    k: int,
)
    requires
        den >= 1,
        w >= 1,
        h >= 1,
        data.len() == w * h,
        0 <= k < data.len(),
    ensures
        rotate1_data(data, w, h, den, 0, den, method, w, h)[k] == data[k],
{
    let out = rotate1_data(data, w, h, den, 0, den, method, w, h);
    let nx = k % w;
    let ny = k / w;
    lemma_mod_bound(k, w);
    lemma_div_pos_is_pos(k, w);
    lemma_multiply_divide_lt(k, w, h);
    lemma_fundamental_div_mod(k, w);
    lemma_row_major_index(nx, ny, w, h);
    let xn = inverse_x_num(w, den, 0, den, w, h, nx, ny);
    let yn = inverse_y_num(h, den, 0, den, w, h, nx, ny);
    assert(xn == 2 * nx * den && yn == 2 * ny * den) by (nonlinear_arith)
        requires
            xn == (2 * nx - w) * den + (2 * ny - h) * 0 + w * den,
            yn == -(2 * nx - w) * 0 + (2 * ny - h) * den + h * den,
    ;
    let d = 2 * den;
    match method {
        InterpolationMethod::NearestNeighbor => {
            assert(2 * xn + d == nx * (2 * d) + d && 2 * yn + d == ny * (2 * d) + d)
                by (nonlinear_arith)
                requires
                    xn == 2 * nx * den,
                    yn == 2 * ny * den,
                    d == 2 * den,
            ;
            lemma_fundamental_div_mod_converse_div(2 * xn + d, 2 * d, nx, d);
            lemma_fundamental_div_mod_converse_div(2 * yn + d, 2 * d, ny, d);
            assert(xn >= 0 && yn >= 0) by (nonlinear_arith)
                requires
                    xn == 2 * nx * den,
                    yn == 2 * ny * den,
                    nx >= 0,
                    ny >= 0,
                    den >= 1,
            ;
            assert(round_away(xn, d) == nx && round_away(yn, d) == ny);
        },
        InterpolationMethod::Bilinear => {
            assert(0 <= xn < w * d && 0 <= yn < h * d && xn == nx * d && yn == ny * d)
                by (nonlinear_arith)
                requires
                    xn == 2 * nx * den,
                    yn == 2 * ny * den,
                    0 <= nx < w,
                    0 <= ny < h,
                    den >= 1,
                    d == 2 * den,
            ;
            lemma_fundamental_div_mod_converse_div(xn, d, nx, 0);
            lemma_fundamental_div_mod_converse_mod(xn, d, nx, 0);
            lemma_fundamental_div_mod_converse_div(yn, d, ny, 0);
            lemma_fundamental_div_mod_converse_mod(yn, d, ny, 0);
            let p11 = data[ny * w + nx] as int;
            assert(p11 * (d - 0) * (d - 0) + p11 * 0 * (d - 0) + p11 * (d - 0) * 0 + p11 * 0 * 0
                == p11 * (d * d)) by (nonlinear_arith);
            assert(data[ny * w + nx] as int * (d - 0) * (d - 0) + data[ny * w + nx] as int * 0 * (d
                - 0) + data[ny * w + nx] as int * (d - 0) * 0 + data[ny * w + nx] as int * 0 * 0
                == data[ny * w + nx] as int * (d * d)) by (nonlinear_arith);
            assert(d * d >= 1) by (nonlinear_arith)
                requires
                    d >= 2,
            ;
            lemma_round_div_exact(p11 as int, d * d);
        },
    }
}

/// Rotating by an exact zero angle — cosine one, sine zero — keeps the
/// canvas at the source dimensions and returns the buffer unchanged, for
/// both interpolation methods: the inverse mapping lands every destination
/// pixel exactly on its source pixel. An empty source gives the empty
/// buffer back.
pub proof fn lemma_rotate_zero_identity1(
    data: Seq<u8>,
    w: int,
    h: int,
    den: int,
    method: InterpolationMethod,
)
    requires
        den >= 1,
        w >= 0,
        h >= 0,
        data.len() == w * h,
    ensures
        rotated_width(w, h, den, 0, den) == w,
        rotated_height(w, h, den, 0, den) == h,
        rotate1_data(data, w, h, den, 0, den, method, w, h) == data,
{
    assert(den * w + 0 * h == w * den && den * h + 0 * w == h * den && 0 * h == 0 && 0 * w == 0)
        by (nonlinear_arith);
    lemma_fundamental_div_mod_converse_div(w * den + (den - 1), den, w, den - 1);
    lemma_fundamental_div_mod_converse_div(h * den + (den - 1), den, h, den - 1);
    assert(rotated_width(w, h, den, 0, den) == w);
    assert(rotated_height(w, h, den, 0, den) == h);
    let out = rotate1_data(data, w, h, den, 0, den, method, w, h);
    assert forall|k: int| 0 <= k < data.len() implies out[k] == data[k] by {
        assert(w >= 1 && h >= 1) by (nonlinear_arith)
            requires
                0 <= k < w * h,
                w >= 0,
                h >= 0,
        ;
        lemma_rotate_zero_pixel1(data, w, h, den, method, k);
    }
    assert(out =~= data);
}

/// The nearest-neighbor sample of channel `c` of a three-channel buffer at
/// the rational position `(xn, yn)` over `d`, zero-filling outside.
pub open spec fn sample_nearest3(
    data: Seq<u8>,
    w: int,
    h: int,
    xn: int,
    yn: int,
    d: int,
    c: int,
) -> int {
    let ix = round_away(xn, d);
    let iy = round_away(yn, d);
    if ix < 0 || iy < 0 || ix >= w || iy >= h {
        0
    } else {
        data[(iy * w + ix) * 3 + c] as int
    }
}

/// The bilinear sample of channel `c` of a three-channel buffer at the
/// rational position `(xn, yn)` over `d`, zero-filling outside.
pub open spec fn sample_bilinear3(
    data: Seq<u8>,
    w: int,
    h: int,
    xn: int,
    yn: int,
    d: int,
    c: int,
) -> int {
    if xn < 0 || yn < 0 || xn >= w * d || yn >= h * d {
        0
    } else {
        let x1 = xn / d;
        let fx = xn % d;
        let y1 = yn / d;
        let fy = yn % d;
        let x2 = if x1 + 1 > w - 1 {
            w - 1
        } else {
            x1 + 1
        };
        let y2 = if y1 + 1 > h - 1 {
            h - 1
        } else {
            y1 + 1
        };
        let p11 = data[(y1 * w + x1) * 3 + c] as int;
        let p21 = data[(y1 * w + x2) * 3 + c] as int;
        let p12 = data[(y2 * w + x1) * 3 + c] as int;
        let p22 = data[(y2 * w + x2) * 3 + c] as int;
        round_div(
            p11 * (d - fx) * (d - fy) + p21 * fx * (d - fy) + p12 * (d - fx) * fy + p22 * fx * fy,
            d * d,
        )
    }
}

/// The value of channel `c` of destination pixel `(nx, ny)` of an
/// arbitrary-angle rotation of a three-channel buffer.
pub open spec fn rotate3_pixel(
    data: Seq<u8>,
    w: int,
    h: int,
    c: int,
    s: int,
    den: int,
    method: InterpolationMethod,
    nw: int,
    nh: int,
    nx: int,
    ny: int,
    ch: int,
) -> int {
    let xn = inverse_x_num(w, c, s, den, nw, nh, nx, ny);
    let yn = inverse_y_num(h, c, s, den, nw, nh, nx, ny);
    match method {
        InterpolationMethod::NearestNeighbor => sample_nearest3(data, w, h, xn, yn, 2 * den, ch),
        InterpolationMethod::Bilinear => sample_bilinear3(data, w, h, xn, yn, 2 * den, ch),
    }
}

/// The whole rotated three-channel buffer, row-major and
/// channel-interleaved over the grown canvas.
pub open spec fn rotate3_data(
    data: Seq<u8>,
    w: int,
    h: int,
    c: int,
    s: int,
    den: int,
    method: InterpolationMethod,
    nw: int,
    nh: int,
) -> Seq<u8> {
    Seq::new(
        (nw * nh * 3) as nat,
        |k: int|
            rotate3_pixel(
                data,
                w,
                h,
                c,
                s,
                den,
                method,
                nw,
                nh,
                (k / 3) % nw,
                (k / 3) / nw,
                k % 3,
            ) as u8,
    )
}

impl Matrix3 {
    /// The nearest-neighbor sample of one channel at rational position
    /// `(xn, yn)` over `d`, zero-filling outside the image.
    fn sample_rot_nearest(&self, xn: i128, yn: i128, d: i128, ch: usize) -> (r: u8)
        requires
            self.wf(),
            1 <= d <= 0x1_0000_0000_0000_0000,
            -0x1_0000_0000_0000_0000_0000 <= xn <= 0x1_0000_0000_0000_0000_0000,
            -0x1_0000_0000_0000_0000_0000 <= yn <= 0x1_0000_0000_0000_0000_0000,
            self.spec_width() <= 0x7fff_ffff,
            self.spec_height() <= 0x7fff_ffff,
            ch < 3,
        ensures
            r as int == sample_nearest3(
                self@,
                self.spec_width(),
                self.spec_height(),
                xn as int,
                yn as int,
                d as int,
                ch as int,
            ),
    {
        let ix = round_away_value(xn, d);
        let iy = round_away_value(yn, d);
        let w = self.width() as i128;
        let h = self.height() as i128;
        if ix < 0 || iy < 0 || ix >= w || iy >= h {
            0
        } else {
            self.sample_at(ix as usize, iy as usize, ch)
        }
    }

    /// The bilinear sample of one channel at rational position `(xn, yn)`
    /// over `d`, zero-filling outside the image.
    fn sample_rot_bilinear(&self, xn: i128, yn: i128, d: i128, ch: usize) -> (r: u8)
        requires
            self.wf(),
            1 <= d <= 0x8000_0000,
            self.spec_width() <= 0x7fff_ffff,
            self.spec_height() <= 0x7fff_ffff,
            ch < 3,
        ensures
            r as int == sample_bilinear3(
                self@,
                self.spec_width(),
                self.spec_height(),
                xn as int,
                yn as int,
                d as int,
                ch as int,
            ),
    {
        let w = self.width() as i128;
        let h = self.height() as i128;
        proof {
            assert(0 <= w * d <= 0x7fff_ffff * 0x8000_0000 && 0 <= h * d <= 0x7fff_ffff
                * 0x8000_0000) by (nonlinear_arith)
                requires
                    0 <= w <= 0x7fff_ffff,
                    0 <= h <= 0x7fff_ffff,
                    1 <= d <= 0x8000_0000,
            ;
        }
        if xn < 0 || yn < 0 || xn >= w * d || yn >= h * d {
            return 0;
        }
        proof {
            // An in-range position exists only over a nonempty image.
            assert(w >= 1 && h >= 1) by (nonlinear_arith)
                requires
                    0 <= xn < w * d,
                    0 <= yn < h * d,
                    w >= 0,
                    h >= 0,
                    d >= 1,
            ;
        }
        let x1 = xn / d;
        let fx = xn % d;
        let y1 = yn / d;
        let fy = yn % d;
        proof {
            lemma_div_pos_is_pos(xn as int, d as int);
            lemma_div_pos_is_pos(yn as int, d as int);
            lemma_mod_bound(xn as int, d as int);
            lemma_mod_bound(yn as int, d as int);
            assert(w * d == d * w && h * d == d * h) by (nonlinear_arith);
            lemma_multiply_divide_lt(xn as int, d as int, w as int);
            lemma_multiply_divide_lt(yn as int, d as int, h as int);
        }
        let wu = self.width();
        let hu = self.height();
        let x1u = x1 as usize;
        let y1u = y1 as usize;
        let x2u = if x1u + 1 > wu - 1 {
            wu - 1
        } else {
            x1u + 1
        };
        let y2u = if y1u + 1 > hu - 1 {
            hu - 1
        } else {
            y1u + 1
        };
        let p11 = self.sample_at(x1u, y1u, ch) as u128;
        let p21 = self.sample_at(x2u, y1u, ch) as u128;
        let p12 = self.sample_at(x1u, y2u, ch) as u128;
        let p22 = self.sample_at(x2u, y2u, ch) as u128;
        let du = d as u128;
        let fxu = fx as u128;
        let fyu = fy as u128;
        proof {
            lemma_bilerp_num_bound(
                p11 as int,
                p21 as int,
                p12 as int,
                p22 as int,
                d as int,
                d as int,
                fx as int,
                fy as int,
            );
            assert(d * d >= 1 && d * d <= 0x8000_0000 * 0x8000_0000) by (nonlinear_arith)
                requires
                    1 <= d <= 0x8000_0000,
            ;
        }
        let num = p11 * (du - fxu) * (du - fyu) + p21 * fxu * (du - fyu) + p12 * (du - fxu) * fyu
            + p22 * fxu * fyu;
        let dd = du * du;
        let v = (2 * num + dd) / (2 * dd);
        proof {
            lemma_round_div_le_max(num as int, dd as int);
        }
        v as u8
    }

    /// Rotates the image by an arbitrary angle given as the exact rational
    /// rotation coefficients `cos_num / den` and `sin_num / den`, using the
    /// chosen interpolation method. The canvas grows to the rotated
    /// bounding box and out-of-source positions are zero-filled, exactly as
    /// in the single-channel case.
    pub fn rotate_custom(
        &self,
        cos_num: i64,
        sin_num: i64,
        den: u64,
        method: InterpolationMethod,
    ) -> (r: Matrix3)
        requires
            self.wf(),
            self.spec_width() <= 0x7fff_ffff,
            self.spec_height() <= 0x7fff_ffff,
            1 <= den <= 0x4000_0000,
            -(den as int) <= cos_num as int <= den as int,
            -(den as int) <= sin_num as int <= den as int,
            (self.spec_width() + self.spec_height()) * (self.spec_width() + self.spec_height())
                * 3 <= usize::MAX,
        ensures
            r.wf(),
            r.spec_width() == rotated_width(
                self.spec_width(),
                self.spec_height(),
                cos_num as int,
                sin_num as int,
                den as int,
            ),
            r.spec_height() == rotated_height(
                self.spec_width(),
                self.spec_height(),
                cos_num as int,
                sin_num as int,
                den as int,
            ),
            r@ == rotate3_data(
                self@,
                self.spec_width(),
                self.spec_height(),
                cos_num as int,
                sin_num as int,
                den as int,
                method,
                r.spec_width(),
                r.spec_height(),
            ),
    {
        let w = self.width();
        let h = self.height();
        let (nw, nh) = rotated_canvas(w, h, cos_num, sin_num, den);
        proof {
            assert(nw * nh <= (w + h) * (w + h) && (nw * nh) * 3 <= ((w as int + h) * (w as int
                + h)) * 3 && (w as int + h) * (w as int + h) * 3 == ((w as int + h) * (w as int
                + h)) * 3) by (nonlinear_arith)
                requires
                    0 <= nw <= w as int + h,
                    0 <= nh <= w as int + h,
            ;
        }
        let ghost out = rotate3_data(
            self@,
            self.spec_width(),
            self.spec_height(),
            cos_num as int,
            sin_num as int,
            den as int,
            method,
            nw as int,
            nh as int,
        );
        let c = cos_num as i128;
        let s = sin_num as i128;
        let d2 = 2 * (den as i128);
        let mut data: Vec<u8> = Vec::new();
        let mut ny: usize = 0;
        while ny < nh
            invariant
                self.wf(),
                self.spec_width() <= 0x7fff_ffff,
                self.spec_height() <= 0x7fff_ffff,
                1 <= den <= 0x4000_0000,
                -(den as int) <= cos_num as int <= den as int,
                -(den as int) <= sin_num as int <= den as int,
                w == self.spec_width(),
                h == self.spec_height(),
                nw <= w + h,
                nh <= w + h,
                (nw * nh) * 3 <= usize::MAX,
                c == cos_num as int,
                s == sin_num as int,
                d2 == 2 * den as int,
                out == rotate3_data(
                    self@,
                    self.spec_width(),
                    self.spec_height(),
                    cos_num as int,
                    sin_num as int,
                    den as int,
                    method,
                    nw as int,
                    nh as int,
                ),
                ny <= nh,
                data@.len() == (ny * nw) * 3,
                forall|k: int| 0 <= k < data@.len() ==> data@[k] == out[k],
            decreases nh - ny,
        {
            let mut nx: usize = 0;
            while nx < nw
                invariant
                    self.wf(),
                    self.spec_width() <= 0x7fff_ffff,
                    self.spec_height() <= 0x7fff_ffff,
                    1 <= den <= 0x4000_0000,
                    -(den as int) <= cos_num as int <= den as int,
                    -(den as int) <= sin_num as int <= den as int,
                    w == self.spec_width(),
                    h == self.spec_height(),
                    nw <= w + h,
                    nh <= w + h,
                    (nw * nh) * 3 <= usize::MAX,
                    c == cos_num as int,
                    s == sin_num as int,
                    d2 == 2 * den as int,
                    out == rotate3_data(
                        self@,
                        self.spec_width(),
                        self.spec_height(),
                        cos_num as int,
                        sin_num as int,
                        den as int,
                        method,
                        nw as int,
                        nh as int,
                    ),
                    ny < nh,
                    nx <= nw,
                    data@.len() == (ny * nw + nx) * 3,
                    forall|k: int| 0 <= k < data@.len() ==> data@[k] == out[k],
                decreases nw - nx,
            {
                let dx: i128 = 2 * (nx as i128) - (nw as i128);
                let dy: i128 = 2 * (ny as i128) - (nh as i128);
                proof {
                    assert(-0x4000_0000_0000_0000 <= dx * c <= 0x4000_0000_0000_0000
                        && -0x4000_0000_0000_0000 <= dy * s <= 0x4000_0000_0000_0000
                        && -0x4000_0000_0000_0000 <= dx * s <= 0x4000_0000_0000_0000
                        && -0x4000_0000_0000_0000 <= dy * c <= 0x4000_0000_0000_0000 && 0 <= (
                        w as int) * (den as int) <= 0x4000_0000_0000_0000 && 0 <= (h as int) * (
                        den as int) <= 0x4000_0000_0000_0000) by (nonlinear_arith)
                        requires
                            -0x1_0000_0000 <= dx <= 0x1_0000_0000,
                            -0x1_0000_0000 <= dy <= 0x1_0000_0000,
                            -0x4000_0000 <= c <= 0x4000_0000,
                            -0x4000_0000 <= s <= 0x4000_0000,
                            0 <= w as int <= 0x7fff_ffff,
                            1 <= den as int <= 0x4000_0000,
                            0 <= h as int <= 0x7fff_ffff,
                    ;
                }
                let xn = dx * c + dy * s + (w as i128) * (den as i128);
                let yn = dy * c - dx * s + (h as i128) * (den as i128);
                proof {
                    assert((-dx) * s == dy * c - dx * s - dy * c) by (nonlinear_arith);
                }
                let (v0, v1, v2) = match method {
                    InterpolationMethod::NearestNeighbor => (
                        self.sample_rot_nearest(xn, yn, d2, 0),
                        self.sample_rot_nearest(xn, yn, d2, 1),
                        self.sample_rot_nearest(xn, yn, d2, 2),
                    ),
                    InterpolationMethod::Bilinear => (
                        self.sample_rot_bilinear(xn, yn, d2, 0),
                        self.sample_rot_bilinear(xn, yn, d2, 1),
                        self.sample_rot_bilinear(xn, yn, d2, 2),
                    ),
                };
                data.push(v0);
                data.push(v1);
                data.push(v2);
                proof {
                    let p = ny * nw + nx;
                    lemma_row_major_index(nx as int, ny as int, nw as int, nh as int);
                    crate::convolution::lemma_row_major_div_mod(nx as int, ny as int, nw as int);
                    lemma_triple_index(p as int);
                    assert((p + 1) * 3 == p * 3 + 3 && p * 3 + 3 <= (nw * nh) * 3 && nw as int * (
                    nh as int) * 3 == (nw as int * nh as int) * 3) by (nonlinear_arith)
                        requires
                            0 <= p < nw * nh,
                    ;
                }
                nx = nx + 1;
            }
            ny = ny + 1;
            proof {
                assert((ny * nw) * 3 == ((ny - 1) * nw + nw) * 3) by (nonlinear_arith);
            }
        }
        proof {
            assert(data@.len() == out.len()) by (nonlinear_arith)
                requires
                    data@.len() == (nh * nw) * 3,
                    out.len() == (nw * nh * 3) as nat,
            ;
            assert(data@ =~= out);
        }
        Matrix3::new(nw, nh, data)
    }
}

/// Rotating a three-channel buffer by an exact zero angle keeps the canvas
/// and returns the buffer unchanged, for both interpolation methods.
pub proof fn lemma_rotate_zero_identity3(
    data: Seq<u8>,
    w: int,
    h: int,
    den: int,
    method: InterpolationMethod,
)
    requires
        den >= 1,
        w >= 0,
        h >= 0,
        data.len() == w * h * 3,
    ensures
        rotated_width(w, h, den, 0, den) == w,
        rotated_height(w, h, den, 0, den) == h,
        rotate3_data(data, w, h, den, 0, den, method, w, h) == data,
{
    assert(den * w + 0 * h == w * den && den * h + 0 * w == h * den && 0 * h == 0 && 0 * w == 0)
        by (nonlinear_arith);
    lemma_fundamental_div_mod_converse_div(w * den + (den - 1), den, w, den - 1);
    lemma_fundamental_div_mod_converse_div(h * den + (den - 1), den, h, den - 1);
    let out = rotate3_data(data, w, h, den, 0, den, method, w, h);
    assert forall|k: int| 0 <= k < data.len() implies out[k] == data[k] by {
        let p = k / 3;
        let ch = k % 3;
        lemma_mod_bound(k, 3);
        lemma_div_pos_is_pos(k, 3);
        assert(0 <= p < w * h && w >= 1 && h >= 1) by (nonlinear_arith)
            requires
                0 <= k < w * h * 3,
                k == 3 * p + ch,
                0 <= ch < 3,
                w >= 0,
                h >= 0,
        ;
        let nx = p % w;
        let ny = p / w;
        lemma_mod_bound(p, w);
        lemma_div_pos_is_pos(p, w);
        lemma_multiply_divide_lt(p, w, h);
        lemma_fundamental_div_mod(p, w);
        lemma_fundamental_div_mod(k, 3);
        lemma_row_major_index(nx, ny, w, h);
        assert(0 <= (ny * w + nx) * 3 + ch < w * h * 3) by (nonlinear_arith)
            requires
                0 <= ny * w + nx < w * h,
                0 <= ch < 3,
        ;
        let xn = inverse_x_num(w, den, 0, den, w, h, nx, ny);
        let yn = inverse_y_num(h, den, 0, den, w, h, nx, ny);
        assert(xn == 2 * nx * den && yn == 2 * ny * den) by (nonlinear_arith)
            requires
                xn == (2 * nx - w) * den + (2 * ny - h) * 0 + w * den,
                yn == -(2 * nx - w) * 0 + (2 * ny - h) * den + h * den,
        ;
        let d = 2 * den;
        match method {
            InterpolationMethod::NearestNeighbor => {
                assert(2 * xn + d == nx * (2 * d) + d && 2 * yn + d == ny * (2 * d) + d)
                    by (nonlinear_arith)
                    requires
                        xn == 2 * nx * den,
                        yn == 2 * ny * den,
                        d == 2 * den,
                ;
                lemma_fundamental_div_mod_converse_div(2 * xn + d, 2 * d, nx, d);
                lemma_fundamental_div_mod_converse_div(2 * yn + d, 2 * d, ny, d);
                assert(xn >= 0 && yn >= 0) by (nonlinear_arith)
                    requires
                        xn == 2 * nx * den,
                        yn == 2 * ny * den,
                        nx >= 0,
                        ny >= 0,
                        den >= 1,
                ;
                assert(round_away(xn, d) == nx && round_away(yn, d) == ny);
                assert(out[k] == data[(ny * w + nx) * 3 + ch]);
                assert((ny * w + nx) * 3 + ch == k) by (nonlinear_arith)
                    requires
                        p == ny * w + nx,
                        k == 3 * p + ch,
                ;
            },
            InterpolationMethod::Bilinear => {
                assert(0 <= xn < w * d && 0 <= yn < h * d && xn == nx * d && yn == ny * d)
                    by (nonlinear_arith)
                    requires
                        xn == 2 * nx * den,
                        yn == 2 * ny * den,
                        0 <= nx < w,
                        0 <= ny < h,
                        den >= 1,
                        d == 2 * den,
                ;
                lemma_fundamental_div_mod_converse_div(xn, d, nx, 0);
                lemma_fundamental_div_mod_converse_mod(xn, d, nx, 0);
                lemma_fundamental_div_mod_converse_div(yn, d, ny, 0);
                lemma_fundamental_div_mod_converse_mod(yn, d, ny, 0);
                let p11 = data[(ny * w + nx) * 3 + ch] as int;
                assert(p11 * (d - 0) * (d - 0) + p11 * 0 * (d - 0) + p11 * (d - 0) * 0 + p11 * 0
                    * 0 == p11 * (d * d)) by (nonlinear_arith);
                assert(data[(ny * w + nx) * 3 + ch] as int * (d - 0) * (d - 0) + data[(ny * w + nx)
                    * 3 + ch] as int * 0 * (d - 0) + data[(ny * w + nx) * 3 + ch] as int * (d - 0)
                    * 0 + data[(ny * w + nx) * 3 + ch] as int * 0 * 0 == data[(ny * w + nx) * 3
                    + ch] as int * (d * d)) by (nonlinear_arith);
                assert(d * d >= 1) by (nonlinear_arith)
                    requires
                        d >= 2,
                ;
                lemma_round_div_exact(p11 as int, d * d);
                assert((ny * w + nx) * 3 + ch == k) by (nonlinear_arith)
                    requires
                        p == ny * w + nx,
                        k == 3 * p + ch,
                ;
            },
        }
    }
    assert(out =~= data);
}

} // verus!
