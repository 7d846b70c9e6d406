//! Spatial filtering: 2D convolution and two-pass separable convolution.
//!
//! A kernel stores its weights as exact rationals: one `i32` numerator per
//! tap over a single positive `u64` denominator shared by the whole kernel.
//! Every output sample is therefore defined by integer arithmetic alone: the
//! weighted sum of border-resolved source samples is accumulated exactly,
//! divided by the denominator, and clamped to `[0, 255]` with truncation
//! toward zero (never rounding) — the clamp-and-truncate policy of the
//! filtering engine.
//!
//! Out-of-range source coordinates are resolved by one of four border
//! policies: zero-fill, edge replication, reflection without edge
//! duplication (`abcd|dcba`), and wrap-around.

use vstd::arithmetic::div_mod::{
    lemma_fundamental_div_mod, lemma_fundamental_div_mod_converse,
    lemma_fundamental_div_mod_converse_div, lemma_fundamental_div_mod_converse_mod,
};
use vstd::prelude::*;

use rayon::iter::{IntoParallelIterator, ParallelIterator};

verus! {

use crate::matrix::{Matrix1, Matrix3, lemma_row_major_index};

/// Boundary handling method for convolution operations.
#[derive(Debug, Clone, Copy, PartialEq, Eq)]
pub enum BorderMode {
    /// Pad with zeros outside the image boundary
    Zero,
    /// Replicate the edge pixels
    Replicate,
    /// Reflect across the edge (abcd|dcba)
    Reflect,
    /// Wrap around to the opposite edge
    Wrap,
}

/// Coordinate `c` clamped to `[0, n - 1]` (the replicate policy).
pub open spec fn clamp_coord_spec(c: int, n: int) -> int {
    if c < 0 {
        0
    } else if c > n - 1 {
        n - 1
    } else {
        c
    }
}

/// Coordinate produced by the reflect policy: a coordinate before 0 mirrors
/// to `-c - 1`, one past the end mirrors to `2n - c - 1`, and the result is
/// clamped to `[0, n - 1]`. These single-step corrections are exact when the
/// overshoot does not exceed one extent length; beyond that the final clamp
/// pins the coordinate to the nearer edge.
pub open spec fn reflect_coord_spec(c: int, n: int) -> int {
    let c1 = if c < 0 {
        -c - 1
    } else {
        c
    };
    let c2 = if c1 >= n {
        2 * n - c1 - 1
    } else {
        c1
    };
    clamp_coord_spec(c2, n)
}

/// Coordinate produced by the wrap policy: the Euclidean remainder of `c`
/// modulo `n`, always in `[0, n - 1]` for `n > 0`.
pub open spec fn wrap_coord_spec(c: int, n: int) -> int {
    c % n
}

/// Reflects a coordinate around the image boundary.
pub fn reflect_coordinate(coord: i32, size: i32) -> (r: i32)
    requires
        size >= 1,
    ensures
        r == reflect_coord_spec(coord as int, size as int),
        0 <= r < size,
{
    let c: i64 = if coord < 0 {
        -((coord as i64) + 1)
    } else {
        coord as i64
    };
    let n = size as i64;
    let c2: i64 = if c >= n {
        2 * n - c - 1
    } else {
        c
    };
    let r: i64 = if c2 < 0 {
        0
    } else if c2 > n - 1 {
        n - 1
    } else {
        c2
    };
    r as i32
}

/// Wraps a coordinate around the image boundary.
pub fn wrap_coordinate(coord: i32, size: i32) -> (r: i32)
    requires
        size >= 1,
    ensures
        r == wrap_coord_spec(coord as int, size as int),
        0 <= r < size,
{
    let n = size as i64;
    if coord >= 0 {
        let r = (coord as i64) % n;
        proof {
            lemma_fundamental_div_mod(coord as int, size as int);
        }
        r as i32
    } else {
        let d: i64 = -((coord as i64) + 1);
        let m = d % n;
        let r = n - 1 - m;
        proof {
            lemma_fundamental_div_mod(d as int, size as int);
            let q = d as int / size as int;
            assert(coord as int == (-q - 1) * size + (size - 1 - (d as int % size as int)))
                by (nonlinear_arith)
                requires
                    d == -(coord as int) - 1,
                    q == d as int / size as int,
                    d as int == q * size + d as int % size as int,
            ;
            lemma_fundamental_div_mod_converse(
                coord as int,
                size as int,
                -q - 1,
                size - 1 - (d as int % size as int),
            );
        }
        r as i32
    }
}

/// A 2D convolution kernel with exact rational weights: tap `j` weighs
/// `weights[j] / den`.
#[derive(Debug, Clone)]
pub struct Kernel {
    width: usize,
    height: usize,
    data: Vec<i32>,
    den: u64,
}

impl Kernel {
    /// The width, for use in specifications.
    pub closed spec fn spec_width(&self) -> int {
        self.width as int
    }

    /// The height, for use in specifications.
    pub closed spec fn spec_height(&self) -> int {
        self.height as int
    }

    /// The tap numerators in row-major order, for use in specifications.
    pub closed spec fn weights(&self) -> Seq<i32> {
        self.data@
    }

    /// The shared denominator, for use in specifications.
    pub closed spec fn spec_den(&self) -> int {
        self.den as int
    }

    /// Both dimensions are odd (a center tap exists), the weight table is
    /// row-major of matching size, and the denominator is positive.
    pub open spec fn wf(&self) -> bool {
        &&& self.spec_width() % 2 == 1
        &&& self.spec_height() % 2 == 1
        &&& self.spec_width() <= 0x7fff_ffff
        &&& self.spec_height() <= 0x7fff_ffff
        &&& self.weights().len() == self.spec_width() * self.spec_height()
        &&& self.spec_width() * self.spec_height() <= usize::MAX
        &&& self.spec_den() >= 1
    }

    /// Creates a new convolution kernel.
    ///
    /// Both dimensions must be odd and the weight table must hold exactly
    /// `width * height` numerators; anything else is an `InvalidKernelSize`
    /// construction error and is excluded here. The denominator must be
    /// positive.
    pub fn new(width: usize, height: usize, data: Vec<i32>, den: u64) -> (r: Self)
        requires
            width % 2 == 1,
            height % 2 == 1,
            width <= 0x7fff_ffff,
            height <= 0x7fff_ffff,
            data@.len() == width * height,
            den >= 1,
        ensures
            r.wf(),
            r.spec_width() == width,
            r.spec_height() == height,
            r.weights() == data@,
            r.spec_den() == den,
    {
        proof {
            vstd::std_specs::vec::axiom_spec_len(&data);
        }
        Self { width, height, data, den }
    }

    /// Returns the width of the kernel.
    pub fn width(&self) -> (r: usize)
        ensures
            r == self.spec_width(),
    {
        self.width
    }

    /// Returns the height of the kernel.
    pub fn height(&self) -> (r: usize)
        ensures
            r == self.spec_height(),
    {
        self.height
    }

    /// Returns a reference to the tap numerators in row-major order.
    pub fn data(&self) -> (r: &[i32])
        ensures
            r@ == self.weights(),
    {
        self.data.as_slice()
    }

    /// Returns the denominator shared by all taps.
    pub fn den(&self) -> (r: u64)
        ensures
            r == self.spec_den(),
    {
        self.den
    }

    /// Reads the numerator of tap `j`.
    pub(crate) fn weight_at(&self, j: usize) -> (r: i32)
        requires
            j < self.weights().len(),
        ensures
            r == self.weights()[j as int],
    {
        self.data[j]
    }

    /// Creates a box blur kernel: every tap weighs `1 / size²`.
    ///
    /// The size must be odd.
    pub fn box_blur(size: usize) -> (r: Self)
        requires
            size % 2 == 1,
            size <= 0x7fff_ffff,
            size * size <= usize::MAX,
        ensures
            r.wf(),
            r.spec_width() == size,
            r.spec_height() == size,
            r.weights().len() == size * size,
            forall|j: int| 0 <= j < r.weights().len() ==> r.weights()[j] == 1i32,
            r.spec_den() == size * size,
    {
        let count = size * size;
        let mut data: Vec<i32> = Vec::new();
        let mut i: usize = 0;
        while i < count
            invariant
                i <= count,
                data@.len() == i,
                forall|j: int| 0 <= j < i ==> data@[j] == 1i32,
            decreases count - i,
        {
            data.push(1);
            i = i + 1;
        }
        proof {
            assert(size * size <= u64::MAX);
            assert(size >= 1 && (size as u64) * (size as u64) == size * size && size * size >= 1)
                by (nonlinear_arith)
                requires
                    size % 2 == 1,
                    size * size <= u64::MAX,
            ;
        }
        Self { width: size, height: size, data, den: (size as u64) * (size as u64) }
    }

    /// Creates a kernel from nonnegative tap magnitudes, normalized so that
    /// the weights sum to exactly one: the denominator is the sum of the
    /// magnitudes. This is how a sampled density (such as a Gaussian) becomes
    /// a unit-sum smoothing kernel.
    ///
    /// Both dimensions must be odd, the table must match them, and at least
    /// one magnitude must be positive.
    pub fn normalized(width: usize, height: usize, magnitudes: Vec<u16>) -> (r: Self)
        requires
            width % 2 == 1,
            height % 2 == 1,
            width <= 0x7fff_ffff,
            height <= 0x7fff_ffff,
            width * height <= 0xffff_ffff,
            magnitudes@.len() == width * height,
            magnitude_sum(magnitudes@, magnitudes@.len() as int) >= 1,
        ensures
            r.wf(),
            r.spec_width() == width,
            r.spec_height() == height,
            r.weights().len() == magnitudes@.len(),
            forall|j: int| 0 <= j < r.weights().len() ==> r.weights()[j] == magnitudes@[j] as i32,
            r.spec_den() == magnitude_sum(magnitudes@, magnitudes@.len() as int),
            weight_sum(r.weights(), r.weights().len() as int) == r.spec_den(),
    {
        let count = magnitudes.len();
        let mut data: Vec<i32> = Vec::new();
        let mut sum: u64 = 0;
        let mut i: usize = 0;
        while i < count
            invariant
                i <= count,
                count == magnitudes@.len(),
                count <= 0xffff_ffff,
                data@.len() == i,
                forall|j: int| 0 <= j < i ==> data@[j] == magnitudes@[j] as i32,
                sum == magnitude_sum(magnitudes@, i as int),
                sum <= (i as int) * 0xffff,
            decreases count - i,
        {
            let m = magnitudes[i];
            data.push(m as i32);
            sum = sum + (m as u64);
            i = i + 1;
        }
        proof {
            lemma_weight_sum_matches(magnitudes@, data@, count as int);
        }
        Self { width, height, data, den: sum }
    }

    /// Creates a Sobel X kernel (horizontal edge detection).
    pub fn sobel_x() -> (r: Self)
        ensures
            r.wf(),
            r.spec_width() == 3,
            r.spec_height() == 3,
            r.weights() =~= seq![-1i32, 0i32, 1i32, -2i32, 0i32, 2i32, -1i32, 0i32, 1i32],
            r.spec_den() == 1,
    {
        Self::new(3, 3, vec![-1, 0, 1, -2, 0, 2, -1, 0, 1], 1)
    }

    /// Creates a Sobel Y kernel (vertical edge detection).
    pub fn sobel_y() -> (r: Self)
        ensures
            r.wf(),
            r.spec_width() == 3,
            r.spec_height() == 3,
            r.weights() =~= seq![-1i32, -2i32, -1i32, 0i32, 0i32, 0i32, 1i32, 2i32, 1i32],
            r.spec_den() == 1,
    {
        Self::new(3, 3, vec![-1, -2, -1, 0, 0, 0, 1, 2, 1], 1)
    }

    /// Creates a Laplacian kernel (edge detection).
    pub fn laplacian() -> (r: Self)
        ensures
            r.wf(),
            r.spec_width() == 3,
            r.spec_height() == 3,
            r.weights() =~= seq![0i32, 1i32, 0i32, 1i32, -4i32, 1i32, 0i32, 1i32, 0i32],
            r.spec_den() == 1,
    {
        Self::new(3, 3, vec![0, 1, 0, 1, -4, 1, 0, 1, 0], 1)
    }

    /// Creates a sharpening kernel.
    pub fn sharpen() -> (r: Self)
        ensures
            r.wf(),
            r.spec_width() == 3,
            r.spec_height() == 3,
            r.weights() =~= seq![0i32, -1i32, 0i32, -1i32, 5i32, -1i32, 0i32, -1i32, 0i32],
            r.spec_den() == 1,
    {
        Self::new(3, 3, vec![0, -1, 0, -1, 5, -1, 0, -1, 0], 1)
    }
}

/// Sum of the first `j` magnitudes.
pub open spec fn magnitude_sum(s: Seq<u16>, j: int) -> int
    decreases j,
{
    if j <= 0 {
        0
    } else {
        magnitude_sum(s, j - 1) + s[j - 1]
    }
}

/// Sum of the first `j` tap numerators.
pub open spec fn weight_sum(s: Seq<i32>, j: int) -> int
    decreases j,
{
    if j <= 0 {
        0
    } else {
        weight_sum(s, j - 1) + s[j - 1]
    }
}

/// Numerators copied one-for-one from magnitudes sum to the same total.
proof fn lemma_weight_sum_matches(mags: Seq<u16>, nums: Seq<i32>, j: int)
    requires
        0 <= j <= mags.len(),
        j <= nums.len(),
        forall|i: int| 0 <= i < j ==> nums[i] == mags[i] as i32,
    ensures
        weight_sum(nums, j) == magnitude_sum(mags, j),
    decreases j,
{
    if j > 0 {
        lemma_weight_sum_matches(mags, nums, j - 1);
    }
}

/// The source sample that filtering uses for coordinate `(x, y)` of a
/// single-channel buffer, after border resolution: zero-fill contributes 0
/// outside the image, while the other three policies map the coordinate back
/// into range.
pub open spec fn border_sample1(
    data: Seq<u8>,
    w: int,
    h: int,
    mode: BorderMode,
    x: int,
    y: int,
) -> int {
    match mode {
        BorderMode::Zero => if 0 <= x < w && 0 <= y < h {
            data[y * w + x] as int
        } else {
            0
        },
        BorderMode::Replicate => data[clamp_coord_spec(y, h) * w + clamp_coord_spec(x, w)] as int,
        BorderMode::Reflect => data[reflect_coord_spec(y, h) * w + reflect_coord_spec(x, w)] as int,
        BorderMode::Wrap => data[wrap_coord_spec(y, h) * w + wrap_coord_spec(x, w)] as int,
    }
}

/// Contribution of tap `j` (row-major) of a `kw * kh` kernel centered on
/// `(x, y)`: the border-resolved sample times the tap numerator.
pub open spec fn conv_tap1(
    data: Seq<u8>,
    w: int,
    h: int,
    knum: Seq<i32>,
    kw: int,
    kh: int,
    mode: BorderMode,
    x: int,
    y: int,
    j: int,
) -> int {
    border_sample1(data, w, h, mode, x + j % kw - kw / 2, y + j / kw - kh / 2) * knum[j]
}

/// Sum of the contributions of the first `j` taps.
pub open spec fn conv_acc1(
    data: Seq<u8>,
    w: int,
    h: int,
    knum: Seq<i32>,
    kw: int,
    kh: int,
    mode: BorderMode,
    x: int,
    y: int,
    j: int,
) -> int
    decreases j,
{
    if j <= 0 {
        0
    } else {
        conv_acc1(data, w, h, knum, kw, kh, mode, x, y, j - 1) + conv_tap1(
            data,
            w,
            h,
            knum,
            kw,
            kh,
            mode,
            x,
            y,
            j - 1,
        )
    }
}

/// The output byte for an exact accumulated value `acc / den`: clamped to
/// `[0, 255]` and truncated toward zero, never rounded.
pub open spec fn clamp_quotient(acc: int, den: int) -> int {
    if acc <= 0 {
        0
    } else if acc >= 255 * den {
        255
    } else {
        acc / den
    }
}

/// The clamped output byte lies in `[0, 255]`.
pub proof fn lemma_clamp_quotient_range(acc: int, den: int)
    requires
        den >= 1,
    ensures
        0 <= clamp_quotient(acc, den) <= 255,
{
    if 0 < acc < 255 * den {
        vstd::arithmetic::div_mod::lemma_div_pos_is_pos(acc, den);
        vstd::arithmetic::div_mod::lemma_multiply_divide_lt(acc, den, 255);
    }
}

/// The filtered value of output pixel `(x, y)` of a single-channel buffer.
pub open spec fn conv_pixel1(
    data: Seq<u8>,
    w: int,
    h: int,
    knum: Seq<i32>,
    kw: int,
    kh: int,
    den: int,
    mode: BorderMode,
    x: int,
    y: int,
) -> int {
    clamp_quotient(conv_acc1(data, w, h, knum, kw, kh, mode, x, y, kw * kh), den)
}

/// The whole filtered single-channel buffer, row-major.
pub open spec fn convolve1_data(
    data: Seq<u8>,
    w: int,
    h: int,
    knum: Seq<i32>,
    kw: int,
    kh: int,
    den: int,
    mode: BorderMode,
) -> Seq<u8> {
    Seq::new((w * h) as nat, |k: int| conv_pixel1(data, w, h, knum, kw, kh, den, mode, k % w, k / w) as u8)
}

/// Row-major index `y * w + x` decomposes back into `(x, y)`.
pub proof fn lemma_row_major_div_mod(x: int, y: int, w: int)
    requires
        0 <= x < w,
        0 <= y,
    ensures
        (y * w + x) % w == x,
        (y * w + x) / w == y,
{
    lemma_fundamental_div_mod_converse_mod(y * w + x, w, y, x);
    lemma_fundamental_div_mod_converse_div(y * w + x, w, y, x);
}

/// Coordinate `c` clamped to `[0, n - 1]`, as an index.
fn clamp_idx(c: i64, n: i64) -> (r: usize)
    requires
        1 <= n <= 0x7fff_ffff,
    ensures
        r == clamp_coord_spec(c as int, n as int),
        r < n,
{
    if c < 0 {
        0
    } else if c > n - 1 {
        (n - 1) as usize
    } else {
        c as usize
    }
}

/// The reflect policy, as an index.
fn reflect_idx(c: i64, n: i64) -> (r: usize)
    requires
        1 <= n <= 0x7fff_ffff,
    ensures
        r == reflect_coord_spec(c as int, n as int),
        r < n,
{
    let c1: i64 = if c < 0 {
        -(c + 1)
    } else {
        c
    };
    let c2: i64 = if c1 >= n {
        2 * n - c1 - 1
    } else {
        c1
    };
    if c2 < 0 {
        0
    } else if c2 > n - 1 {
        (n - 1) as usize
    } else {
        c2 as usize
    }
}

/// The wrap policy, as an index.
fn wrap_idx(c: i64, n: i64) -> (r: usize)
    requires
        1 <= n <= 0x7fff_ffff,
    ensures
        r == wrap_coord_spec(c as int, n as int),
        r < n,
{
    if c >= 0 {
        let r = c % n;
        proof {
            lemma_fundamental_div_mod(c as int, n as int);
        }
        r as usize
    } else {
        let d: i64 = -(c + 1);
        let m = d % n;
        let r = n - 1 - m;
        proof {
            lemma_fundamental_div_mod(d as int, n as int);
            let q = d as int / n as int;
            assert(c as int == (-q - 1) * n + (n - 1 - (d as int % n as int))) by (nonlinear_arith)
                requires
                    d == -(c as int) - 1,
                    q == d as int / n as int,
                    d as int == q * n + d as int % n as int,
            ;
            lemma_fundamental_div_mod_converse(
                c as int,
                n as int,
                -q - 1,
                n - 1 - (d as int % n as int),
            );
        }
        r as usize
    }
}

impl Matrix1 {
    /// Gets a pixel value with border handling.
    fn get_pixel_with_border(&self, x: i64, y: i64, mode: BorderMode) -> (r: u8)
        requires
            self.wf(),
            1 <= self.spec_width() <= 0x7fff_ffff,
            1 <= self.spec_height() <= 0x7fff_ffff,
        ensures
            r as int == border_sample1(
                self@,
                self.spec_width(),
                self.spec_height(),
                mode,
                x as int,
                y as int,
            ),
    {
        let w = self.width() as i64;
        let h = self.height() as i64;
        match mode {
            BorderMode::Zero => {
                if x < 0 || x >= w || y < 0 || y >= h {
                    0
                } else {
                    self.pixel_at(x as usize, y as usize)
                }
            },
            BorderMode::Replicate => self.pixel_at(clamp_idx(x, w), clamp_idx(y, h)),
            BorderMode::Reflect => self.pixel_at(reflect_idx(x, w), reflect_idx(y, h)),
            BorderMode::Wrap => self.pixel_at(wrap_idx(x, w), wrap_idx(y, h)),
        }
    }

    /// Convolves a single pixel: the exact weighted sum over all taps,
    /// divided by the kernel denominator, clamped and truncated.
    fn convolve_pixel(&self, x: i64, y: i64, kernel: &Kernel, mode: BorderMode) -> (r: u8)
        requires
            self.wf(),
            kernel.wf(),
            self.spec_width() <= 0x7fff_ffff,
            self.spec_height() <= 0x7fff_ffff,
            0 <= x < self.spec_width(),
            0 <= y < self.spec_height(),
        ensures
            r as int == conv_pixel1(
                self@,
                self.spec_width(),
                self.spec_height(),
                kernel.weights(),
                kernel.spec_width(),
                kernel.spec_height(),
                kernel.spec_den(),
                mode,
                x as int,
                y as int,
            ),
    {
        let kw = kernel.width();
        let kh = kernel.height();
        let taps = kw * kh;
        let half_w = (kw / 2) as i64;
        let half_h = (kh / 2) as i64;
        let mut acc: i128 = 0;
        let mut j: usize = 0;
        while j < taps
            invariant
                self.wf(),
                kernel.wf(),
                self.spec_width() <= 0x7fff_ffff,
                self.spec_height() <= 0x7fff_ffff,
                0 <= x < self.spec_width(),
                0 <= y < self.spec_height(),
                kw == kernel.spec_width(),
                kh == kernel.spec_height(),
                taps == kw * kh,
                half_w == kw as int / 2,
                half_h == kh as int / 2,
                j <= taps,
                acc == conv_acc1(
                    self@,
                    self.spec_width(),
                    self.spec_height(),
                    kernel.weights(),
                    kw as int,
                    kh as int,
                    mode,
                    x as int,
                    y as int,
                    j as int,
                ),
                -(j as int) * 0x7f_8000_0000 <= acc <= (j as int) * 0x7f_8000_0000,
            decreases taps - j,
        {
            let kx = j % kw;
            let ky = j / kw;
            proof {
                lemma_fundamental_div_mod(j as int, kw as int);
                vstd::arithmetic::div_mod::lemma_remainder_upper(j as int, kw as int);
                assert(ky as int <= kh as int) by (nonlinear_arith)
                    requires
                        ky as int == j as int / kw as int,
                        j as int <= kw as int * kh as int,
                        kw as int >= 1,
                        j as int == (j as int / kw as int) * kw as int + (j as int % kw as int),
                        0 <= j as int % kw as int,
                ;
            }
            let sx = x + kx as i64 - half_w;
            let sy = y + ky as i64 - half_h;
            let sample = self.get_pixel_with_border(sx, sy, mode);
            let weight = kernel.weight_at(j);
            proof {
                assert(-0x7f_8000_0000 <= (sample as int) * (weight as int) <= 0x7f_8000_0000)
                    by (nonlinear_arith)
                    requires
                        0 <= sample as int <= 255,
                        -0x8000_0000 <= weight as int <= 0x7fff_ffff,
                ;
                vstd::arithmetic::mul::lemma_mul_inequality(
                    j as int + 1,
                    taps as int,
                    0x7f_8000_0000,
                );
                assert((taps as int) * 0x7f_8000_0000 < i128::MAX) by (nonlinear_arith)
                    requires
                        taps as int <= 0xffff_ffff_ffff_ffff,
                ;
            }
            acc = acc + (sample as i128) * (weight as i128);
            j = j + 1;
        }
        let den = kernel.den() as i128;
        let v: i128 = if acc <= 0 {
            0
        } else if acc >= 255 * den {
            255
        } else {
            proof {
                vstd::arithmetic::div_mod::lemma_div_pos_is_pos(acc as int, den as int);
                vstd::arithmetic::div_mod::lemma_multiply_divide_lt(acc as int, den as int, 255);
            }
            acc / den
        };
        v as u8
    }

    /// One output row of the convolution, row `y`.
    pub(crate) fn convolve_row(&self, y: usize, kernel: &Kernel, mode: BorderMode) -> (row: Vec<
        u8,
    >)
        requires
            self.wf(),
            kernel.wf(),
            self.spec_width() <= 0x7fff_ffff,
            self.spec_height() <= 0x7fff_ffff,
            y < self.spec_height(),
        ensures
            row@.len() == self.spec_width(),
            forall|x: int|
                0 <= x < row@.len() ==> row@[x] as int == conv_pixel1(
                    self@,
                    self.spec_width(),
                    self.spec_height(),
                    kernel.weights(),
                    kernel.spec_width(),
                    kernel.spec_height(),
                    kernel.spec_den(),
                    mode,
                    x,
                    y as int,
                ),
    {
        let width = self.width();
        let mut row: Vec<u8> = Vec::new();
        let mut x: usize = 0;
        while x < width
            invariant
                self.wf(),
                kernel.wf(),
                self.spec_width() <= 0x7fff_ffff,
                self.spec_height() <= 0x7fff_ffff,
                y < self.spec_height(),
                width == self.spec_width(),
                x <= width,
                row@.len() == x,
                forall|i: int|
                    0 <= i < x ==> row@[i] as int == conv_pixel1(
                        self@,
                        self.spec_width(),
                        self.spec_height(),
                        kernel.weights(),
                        kernel.spec_width(),
                        kernel.spec_height(),
                        kernel.spec_den(),
                        mode,
                        i,
                        y as int,
                    ),
            decreases width - x,
        {
            let v = self.convolve_pixel(x as i64, y as i64, kernel, mode);
            row.push(v);
            x = x + 1;
        }
        row
    }

    /// Applies a convolution kernel to the grayscale image, producing a new
    /// buffer of the same dimensions whose every byte is the exact
    /// clamp-and-truncate filtered value.
    pub fn convolve(&self, kernel: &Kernel, border_mode: BorderMode) -> (r: Matrix1)
        requires
            self.wf(),
            kernel.wf(),
            self.spec_width() <= 0x7fff_ffff,
            self.spec_height() <= 0x7fff_ffff,
        ensures
            r.wf(),
            r.spec_width() == self.spec_width(),
            r.spec_height() == self.spec_height(),
            r@ == convolve1_data(
                self@,
                self.spec_width(),
                self.spec_height(),
                kernel.weights(),
                kernel.spec_width(),
                kernel.spec_height(),
                kernel.spec_den(),
                border_mode,
            ),
    {
        let width = self.width();
        let height = self.height();
        let ghost out = convolve1_data(
            self@,
            self.spec_width(),
            self.spec_height(),
            kernel.weights(),
            kernel.spec_width(),
            kernel.spec_height(),
            kernel.spec_den(),
            border_mode,
        );
        let mut data: Vec<u8> = Vec::new();
        let mut y: usize = 0;
        while y < height
            invariant
                self.wf(),
                kernel.wf(),
                self.spec_width() <= 0x7fff_ffff,
                self.spec_height() <= 0x7fff_ffff,
                width == self.spec_width(),
                height == self.spec_height(),
                out == convolve1_data(
                    self@,
                    self.spec_width(),
                    self.spec_height(),
                    kernel.weights(),
                    kernel.spec_width(),
                    kernel.spec_height(),
                    kernel.spec_den(),
                    border_mode,
                ),
                y <= height,
                data@.len() == y * width,
                forall|k: int| 0 <= k < data@.len() ==> data@[k] == out[k],
            decreases height - y,
        {
            let mut row = self.convolve_row(y, kernel, border_mode);
            proof {
                assert forall|x: int| 0 <= x < width implies out[y * width + x] == row@[x] by {
                    lemma_row_major_index(x, y as int, width as int, height as int);
                    lemma_row_major_div_mod(x, y as int, width as int);
                }
                assert((y + 1) * width == y * width + width) by (nonlinear_arith);
            }
            data.append(&mut row);
            y = y + 1;
        }
        proof {
            assert(data@.len() == out.len()) by (nonlinear_arith)
                requires
                    data@.len() == height * width,
                    out.len() == (width * height) as nat,
            ;
            assert(data@ =~= out);
        }
        Matrix1::new(width, height, data)
    }
}

/// A 1D kernel for separable convolution, with the same exact rational
/// weight representation as `Kernel`: tap `j` weighs `weights[j] / den`.
#[derive(Debug, Clone)]
pub struct Kernel1d {
    data: Vec<i32>,
    den: u64,
}

impl Kernel1d {
    /// The tap numerators, for use in specifications.
    pub closed spec fn weights(&self) -> Seq<i32> {
        self.data@
    }

    /// The shared denominator, for use in specifications.
    pub closed spec fn spec_den(&self) -> int {
        self.den as int
    }

    /// The tap count is odd (a center tap exists) and the denominator is
    /// positive.
    pub open spec fn wf(&self) -> bool {
        &&& self.weights().len() % 2 == 1
        &&& self.weights().len() <= 0x7fff_ffff
        &&& self.spec_den() >= 1
    }

    /// Creates a 1D kernel. The tap count must be odd and the denominator
    /// positive.
    pub fn new(data: Vec<i32>, den: u64) -> (r: Self)
        requires
            data@.len() % 2 == 1,
            data@.len() <= 0x7fff_ffff,
            den >= 1,
        ensures
            r.wf(),
            r.weights() == data@,
            r.spec_den() == den,
    {
        Self { data, den }
    }

    /// Returns the number of taps.
    pub fn len(&self) -> (r: usize)
        ensures
            r == self.weights().len(),
    {
        self.data.len()
    }

    /// Returns a reference to the tap numerators.
    pub fn data(&self) -> (r: &[i32])
        ensures
            r@ == self.weights(),
    {
        self.data.as_slice()
    }

    /// Returns the denominator shared by all taps.
    pub fn den(&self) -> (r: u64)
        ensures
            r == self.spec_den(),
    {
        self.den
    }

    /// The same taps as a `1 x len` (single-row) 2D kernel.
    fn as_row_kernel(&self) -> (r: Kernel)
        requires
            self.wf(),
        ensures
            r.wf(),
            r.spec_width() == self.weights().len(),
            r.spec_height() == 1,
            r.weights() == self.weights(),
            r.spec_den() == self.spec_den(),
    {
        let k = self.copy_taps();
        Kernel::new(self.data.len(), 1, k, self.den)
    }

    /// The same taps as a `len x 1` (single-column) 2D kernel.
    fn as_column_kernel(&self) -> (r: Kernel)
        requires
            self.wf(),
        ensures
            r.wf(),
            r.spec_width() == 1,
            r.spec_height() == self.weights().len(),
            r.weights() == self.weights(),
            r.spec_den() == self.spec_den(),
    {
        let k = self.copy_taps();
        Kernel::new(1, self.data.len(), k, self.den)
    }

    /// A fresh copy of the tap numerators.
    fn copy_taps(&self) -> (r: Vec<i32>)
        ensures
            r@ == self.weights(),
    {
        let n = self.data.len();
        let mut taps: Vec<i32> = Vec::new();
        let mut i: usize = 0;
        while i < n
            invariant
                i <= n,
                n == self.weights().len(),
                taps@.len() == i,
                forall|j: int| 0 <= j < i ==> taps@[j] == self.weights()[j],
            decreases n - i,
        {
            taps.push(self.data[i]);
            i = i + 1;
        }
        proof {
            assert(taps@ =~= self.weights());
        }
        taps
    }
}

/// Relies on rayon: `into_par_iter` over the row range, `flat_map` with a
/// closure that only calls the verified `Matrix1::convolve_row`, and
/// `collect`, which returns the flattened rows in row order (rayon's
/// documentation shows parallel `collect` equal to the sequential one).
/// The concatenation of the verified rows is exactly `convolve1_data`.
#[verifier::external_body]
fn convolve_rows_parallel1(m: &Matrix1, kernel: &Kernel, mode: BorderMode) -> (r: Vec<u8>)
    requires
        m.wf(),
        kernel.wf(),
        m.spec_width() <= 0x7fff_ffff,
        m.spec_height() <= 0x7fff_ffff,
    ensures
        r@ == convolve1_data(
            m@,
            m.spec_width(),
            m.spec_height(),
            kernel.weights(),
            kernel.spec_width(),
            kernel.spec_height(),
            kernel.spec_den(),
            mode,
        ),
{
    (0..m.height()).into_par_iter().flat_map(|y| m.convolve_row(y, kernel, mode)).collect()
}

impl Matrix1 {
    /// Applies a convolution kernel with a row-parallel worker fan-out.
    ///
    /// Each output row is computed independently, so the result is
    /// byte-identical to the sequential `convolve`: both contracts pin the
    /// output to the same `convolve1_data` sequence.
    pub fn convolve_parallel(&self, kernel: &Kernel, border_mode: BorderMode) -> (r: Matrix1)
        requires
            self.wf(),
            kernel.wf(),
            self.spec_width() <= 0x7fff_ffff,
            self.spec_height() <= 0x7fff_ffff,
        ensures
            r.wf(),
            r.spec_width() == self.spec_width(),
            r.spec_height() == self.spec_height(),
            r@ == convolve1_data(
                self@,
                self.spec_width(),
                self.spec_height(),
                kernel.weights(),
                kernel.spec_width(),
                kernel.spec_height(),
                kernel.spec_den(),
                border_mode,
            ),
    {
        let width = self.width();
        let height = self.height();
        let data = convolve_rows_parallel1(self, kernel, border_mode);
        proof {
            assert(data@.len() == width * height) by (nonlinear_arith)
                requires
                    data@.len() == (self.spec_width() * self.spec_height()) as nat,
                    width == self.spec_width(),
                    height == self.spec_height(),
            ;
        }
        Matrix1::new(width, height, data)
    }

    /// Applies horizontal 1D convolution: one pass of the separable filter.
    fn convolve_horizontal(&self, kernel: &Kernel1d, mode: BorderMode) -> (r: Matrix1)
        requires
            self.wf(),
            kernel.wf(),
            self.spec_width() <= 0x7fff_ffff,
            self.spec_height() <= 0x7fff_ffff,
        ensures
            r.wf(),
            r.spec_width() == self.spec_width(),
            r.spec_height() == self.spec_height(),
            r@ == convolve1_data(
                self@,
                self.spec_width(),
                self.spec_height(),
                kernel.weights(),
                kernel.weights().len() as int,
                1,
                kernel.spec_den(),
                mode,
            ),
    {
        let row = kernel.as_row_kernel();
        self.convolve(&row, mode)
    }

    /// Applies vertical 1D convolution: one pass of the separable filter.
    fn convolve_vertical(&self, kernel: &Kernel1d, mode: BorderMode) -> (r: Matrix1)
        requires
            self.wf(),
            kernel.wf(),
            self.spec_width() <= 0x7fff_ffff,
            self.spec_height() <= 0x7fff_ffff,
        ensures
            r.wf(),
            r.spec_width() == self.spec_width(),
            r.spec_height() == self.spec_height(),
            r@ == convolve1_data(
                self@,
                self.spec_width(),
                self.spec_height(),
                kernel.weights(),
                1,
                kernel.weights().len() as int,
                kernel.spec_den(),
                mode,
            ),
    {
        let col = kernel.as_column_kernel();
        self.convolve(&col, mode)
    }

    /// Applies a separable convolution: a horizontal pass followed by a
    /// vertical pass. The intermediate buffer between the passes is stored
    /// at 8-bit precision — each pass applies the full clamp-and-truncate
    /// policy — which is the documented, deliberately lossy behavior of the
    /// two-pass path.
    pub fn convolve_separable(
        &self,
        kernel_x: &Kernel1d,
        kernel_y: &Kernel1d,
        border_mode: BorderMode,
    ) -> (r: Matrix1)
        requires
            self.wf(),
            kernel_x.wf(),
            kernel_y.wf(),
            self.spec_width() <= 0x7fff_ffff,
            self.spec_height() <= 0x7fff_ffff,
        ensures
            r.wf(),
            r.spec_width() == self.spec_width(),
            r.spec_height() == self.spec_height(),
            r@ == convolve1_data(
                convolve1_data(
                    self@,
                    self.spec_width(),
                    self.spec_height(),
                    kernel_x.weights(),
                    kernel_x.weights().len() as int,
                    1,
                    kernel_x.spec_den(),
                    border_mode,
                ),
                self.spec_width(),
                self.spec_height(),
                kernel_y.weights(),
                1,
                kernel_y.weights().len() as int,
                kernel_y.spec_den(),
                border_mode,
            ),
    {
        let temp = self.convolve_horizontal(kernel_x, border_mode);
        temp.convolve_vertical(kernel_y, border_mode)
    }
}

/// The source sample that filtering uses for channel `c` of coordinate
/// `(x, y)` of a three-channel buffer, after border resolution.
pub open spec fn border_sample3(
    data: Seq<u8>,
    w: int,
    h: int,
    mode: BorderMode,
    x: int,
    y: int,
    c: int,
) -> int {
    match mode {
        BorderMode::Zero => if 0 <= x < w && 0 <= y < h {
            data[(y * w + x) * 3 + c] as int
        } else {
            0
        },
        BorderMode::Replicate => data[(clamp_coord_spec(y, h) * w + clamp_coord_spec(x, w)) * 3
            + c] as int,
        BorderMode::Reflect => data[(reflect_coord_spec(y, h) * w + reflect_coord_spec(x, w)) * 3
            + c] as int,
        BorderMode::Wrap => data[(wrap_coord_spec(y, h) * w + wrap_coord_spec(x, w)) * 3
            + c] as int,
    }
}

/// Contribution of tap `j` to channel `c` of output pixel `(x, y)`.
pub open spec fn conv_tap3(
    data: Seq<u8>,
    w: int,
    h: int,
    knum: Seq<i32>,
    kw: int,
    kh: int,
    mode: BorderMode,
    x: int,
    y: int,
    c: int,
    j: int,
) -> int {
    border_sample3(data, w, h, mode, x + j % kw - kw / 2, y + j / kw - kh / 2, c) * knum[j]
}

/// Sum of the contributions of the first `j` taps to channel `c`.
pub open spec fn conv_acc3(
    data: Seq<u8>,
    w: int,
    h: int,
    knum: Seq<i32>,
    kw: int,
    kh: int,
    mode: BorderMode,
    x: int,
    y: int,
    c: int,
    j: int,
) -> int
    decreases j,
{
    if j <= 0 {
        0
    } else {
        conv_acc3(data, w, h, knum, kw, kh, mode, x, y, c, j - 1) + conv_tap3(
            data,
            w,
            h,
            knum,
            kw,
            kh,
            mode,
            x,
            y,
            c,
            j - 1,
        )
    }
}

/// The filtered value of channel `c` of output pixel `(x, y)` of a
/// three-channel buffer: the kernel is applied to each channel
/// independently.
pub open spec fn conv_pixel3(
    data: Seq<u8>,
    w: int,
    h: int,
    knum: Seq<i32>,
    kw: int,
    kh: int,
    den: int,
    mode: BorderMode,
    x: int,
    y: int,
    c: int,
) -> int {
    clamp_quotient(conv_acc3(data, w, h, knum, kw, kh, mode, x, y, c, kw * kh), den)
}

/// The whole filtered three-channel buffer, row-major and
/// channel-interleaved.
pub open spec fn convolve3_data(
    data: Seq<u8>,
    w: int,
    h: int,
    knum: Seq<i32>,
    kw: int,
    kh: int,
    den: int,
    mode: BorderMode,
) -> Seq<u8> {
    Seq::new(
        (w * h * 3) as nat,
        |k: int| conv_pixel3(data, w, h, knum, kw, kh, den, mode, (k / 3) % w, (k / 3) / w, k % 3) as u8,
    )
}

impl Matrix3 {
    /// Gets one channel of a pixel with border handling.
    fn get_pixel_with_border(&self, x: i64, y: i64, c: usize, mode: BorderMode) -> (r: u8)
        requires
            self.wf(),
            1 <= self.spec_width() <= 0x7fff_ffff,
            1 <= self.spec_height() <= 0x7fff_ffff,
            c < 3,
        ensures
            r as int == border_sample3(
                self@,
                self.spec_width(),
                self.spec_height(),
                mode,
                x as int,
                y as int,
                c as int,
            ),
    {
        let w = self.width() as i64;
        let h = self.height() as i64;
        match mode {
            BorderMode::Zero => {
                if x < 0 || x >= w || y < 0 || y >= h {
                    0
                } else {
                    self.sample_at(x as usize, y as usize, c)
                }
            },
            BorderMode::Replicate => self.sample_at(clamp_idx(x, w), clamp_idx(y, h), c),
            BorderMode::Reflect => self.sample_at(reflect_idx(x, w), reflect_idx(y, h), c),
            BorderMode::Wrap => self.sample_at(wrap_idx(x, w), wrap_idx(y, h), c),
        }
    }

    /// Convolves one channel of a single pixel.
    fn convolve_pixel(&self, x: i64, y: i64, c: usize, kernel: &Kernel, mode: BorderMode) -> (r:
        u8)
        requires
            self.wf(),
            kernel.wf(),
            self.spec_width() <= 0x7fff_ffff,
            self.spec_height() <= 0x7fff_ffff,
            0 <= x < self.spec_width(),
            0 <= y < self.spec_height(),
            c < 3,
        ensures
            r as int == conv_pixel3(
                self@,
                self.spec_width(),
                self.spec_height(),
                kernel.weights(),
                kernel.spec_width(),
                kernel.spec_height(),
                kernel.spec_den(),
                mode,
                x as int,
                y as int,
                c as int,
            ),
    {
        let kw = kernel.width();
        let kh = kernel.height();
        let taps = kw * kh;
        let half_w = (kw / 2) as i64;
        let half_h = (kh / 2) as i64;
        let mut acc: i128 = 0;
        let mut j: usize = 0;
        while j < taps
            invariant
                self.wf(),
                kernel.wf(),
                self.spec_width() <= 0x7fff_ffff,
                self.spec_height() <= 0x7fff_ffff,
                0 <= x < self.spec_width(),
                0 <= y < self.spec_height(),
                c < 3,
                kw == kernel.spec_width(),
                kh == kernel.spec_height(),
                taps == kw * kh,
                half_w == kw as int / 2,
                half_h == kh as int / 2,
                j <= taps,
                acc == conv_acc3(
                    self@,
                    self.spec_width(),
                    self.spec_height(),
                    kernel.weights(),
                    kw as int,
                    kh as int,
                    mode,
                    x as int,
                    y as int,
                    c as int,
                    j as int,
                ),
                -(j as int) * 0x7f_8000_0000 <= acc <= (j as int) * 0x7f_8000_0000,
            decreases taps - j,
        {
            let kx = j % kw;
            let ky = j / kw;
            proof {
                lemma_fundamental_div_mod(j as int, kw as int);
                vstd::arithmetic::div_mod::lemma_remainder_upper(j as int, kw as int);
                assert(ky as int <= kh as int) by (nonlinear_arith)
                    requires
                        ky as int == j as int / kw as int,
                        j as int <= kw as int * kh as int,
                        kw as int >= 1,
                        j as int == (j as int / kw as int) * kw as int + (j as int % kw as int),
                        0 <= j as int % kw as int,
                ;
            }
            let sx = x + kx as i64 - half_w;
            let sy = y + ky as i64 - half_h;
            let sample = self.get_pixel_with_border(sx, sy, c, mode);
            let weight = kernel.weight_at(j);
            proof {
                assert(-0x7f_8000_0000 <= (sample as int) * (weight as int) <= 0x7f_8000_0000)
                    by (nonlinear_arith)
                    requires
                        0 <= sample as int <= 255,
                        -0x8000_0000 <= weight as int <= 0x7fff_ffff,
                ;
                vstd::arithmetic::mul::lemma_mul_inequality(
                    j as int + 1,
                    taps as int,
                    0x7f_8000_0000,
                );
                assert((taps as int) * 0x7f_8000_0000 < i128::MAX) by (nonlinear_arith)
                    requires
                        taps as int <= 0xffff_ffff_ffff_ffff,
                ;
            }
            acc = acc + (sample as i128) * (weight as i128);
            j = j + 1;
        }
        let den = kernel.den() as i128;
        let v: i128 = if acc <= 0 {
            0
        } else if acc >= 255 * den {
            255
        } else {
            proof {
                vstd::arithmetic::div_mod::lemma_div_pos_is_pos(acc as int, den as int);
                vstd::arithmetic::div_mod::lemma_multiply_divide_lt(acc as int, den as int, 255);
            }
            acc / den
        };
        v as u8
    }

    /// One output row of the convolution, row `y`: `3 * width` interleaved
    /// bytes.
    pub(crate) fn convolve_row(&self, y: usize, kernel: &Kernel, mode: BorderMode) -> (row: Vec<
        u8,
    >)
        requires
            self.wf(),
            kernel.wf(),
            self.spec_width() <= 0x7fff_ffff,
            self.spec_height() <= 0x7fff_ffff,
            y < self.spec_height(),
        ensures
            row@.len() == self.spec_width() * 3,
            forall|k: int|
                0 <= k < row@.len() ==> row@[k] as int == conv_pixel3(
                    self@,
                    self.spec_width(),
                    self.spec_height(),
                    kernel.weights(),
                    kernel.spec_width(),
                    kernel.spec_height(),
                    kernel.spec_den(),
                    mode,
                    k / 3,
                    y as int,
                    k % 3,
                ),
    {
        let width = self.width();
        let mut row: Vec<u8> = Vec::new();
        let mut x: usize = 0;
        while x < width
            invariant
                self.wf(),
                kernel.wf(),
                self.spec_width() <= 0x7fff_ffff,
                self.spec_height() <= 0x7fff_ffff,
                y < self.spec_height(),
                width == self.spec_width(),
                x <= width,
                row@.len() == x * 3,
                forall|k: int|
                    0 <= k < row@.len() ==> row@[k] as int == conv_pixel3(
                        self@,
                        self.spec_width(),
                        self.spec_height(),
                        kernel.weights(),
                        kernel.spec_width(),
                        kernel.spec_height(),
                        kernel.spec_den(),
                        mode,
                        k / 3,
                        y as int,
                        k % 3,
                    ),
            decreases width - x,
        {
            let r = self.convolve_pixel(x as i64, y as i64, 0, kernel, mode);
            let g = self.convolve_pixel(x as i64, y as i64, 1, kernel, mode);
            let b = self.convolve_pixel(x as i64, y as i64, 2, kernel, mode);
            row.push(r);
            row.push(g);
            row.push(b);
            proof {
                lemma_fundamental_div_mod_converse_div(x * 3, 3, x as int, 0);
                lemma_fundamental_div_mod_converse_mod(x * 3, 3, x as int, 0);
                lemma_fundamental_div_mod_converse_div(x * 3 + 1, 3, x as int, 1);
                lemma_fundamental_div_mod_converse_mod(x * 3 + 1, 3, x as int, 1);
                lemma_fundamental_div_mod_converse_div(x * 3 + 2, 3, x as int, 2);
                lemma_fundamental_div_mod_converse_mod(x * 3 + 2, 3, x as int, 2);
            }
            x = x + 1;
        }
        row
    }

    /// Applies a convolution kernel to the RGB image, producing a new buffer
    /// of the same dimensions. The kernel is applied independently to each
    /// channel, with the exact clamp-and-truncate policy per channel.
    pub fn convolve(&self, kernel: &Kernel, border_mode: BorderMode) -> (r: Matrix3)
        requires
            self.wf(),
            kernel.wf(),
            self.spec_width() <= 0x7fff_ffff,
            self.spec_height() <= 0x7fff_ffff,
        ensures
            r.wf(),
            r.spec_width() == self.spec_width(),
            r.spec_height() == self.spec_height(),
            r@ == convolve3_data(
                self@,
                self.spec_width(),
                self.spec_height(),
                kernel.weights(),
                kernel.spec_width(),
                kernel.spec_height(),
                kernel.spec_den(),
                border_mode,
            ),
    {
        let width = self.width();
        let height = self.height();
        let ghost out = convolve3_data(
            self@,
            self.spec_width(),
            self.spec_height(),
            kernel.weights(),
            kernel.spec_width(),
            kernel.spec_height(),
            kernel.spec_den(),
            border_mode,
        );
        let mut data: Vec<u8> = Vec::new();
        let mut y: usize = 0;
        while y < height
            invariant
                self.wf(),
                kernel.wf(),
                self.spec_width() <= 0x7fff_ffff,
                self.spec_height() <= 0x7fff_ffff,
                width == self.spec_width(),
                height == self.spec_height(),
                out == convolve3_data(
                    self@,
                    self.spec_width(),
                    self.spec_height(),
                    kernel.weights(),
                    kernel.spec_width(),
                    kernel.spec_height(),
                    kernel.spec_den(),
                    border_mode,
                ),
                out.len() == (width * height * 3) as nat,
                y <= height,
                data@.len() == y * (width * 3),
                forall|k: int| 0 <= k < data@.len() ==> data@[k] == out[k],
            decreases height - y,
        {
            let mut row = self.convolve_row(y, kernel, border_mode);
            proof {
                assert(row@.len() == width * 3);
                assert(y * (width * 3) + (width * 3) == (y + 1) * (width * 3)) by (nonlinear_arith);
                assert((y * (width * 3)) + (width * 3) <= (width * height * 3)) by (nonlinear_arith)
                    requires
                        y as int + 1 <= height as int,
                ;
                assert forall|kk: int| 0 <= kk < width * 3 implies out[y * (width * 3) + kk]
                    == row@[kk] by {
                    let k = y * (width * 3) + kk;
                    lemma_fundamental_div_mod(kk, 3);
                    let xx = kk / 3;
                    let cc = kk % 3;
                    assert(k == (y * width + xx) * 3 + cc) by (nonlinear_arith)
                        requires
                            k == y * (width as int * 3) + kk,
                            kk == xx * 3 + cc,
                    ;
                    assert(0 <= xx < width) by (nonlinear_arith)
                        requires
                            0 <= kk < width as int * 3,
                            xx == kk / 3,
                            kk == xx * 3 + cc,
                            0 <= cc < 3,
                    ;
                    lemma_fundamental_div_mod_converse_div(k, 3, y * width + xx, cc);
                    lemma_fundamental_div_mod_converse_mod(k, 3, y * width + xx, cc);
                    lemma_row_major_div_mod(xx, y as int, width as int);
                    lemma_row_major_index(xx, y as int, width as int, height as int);
                    assert((y * width + xx) * 3 + cc < width * height * 3) by (nonlinear_arith)
                        requires
                            0 <= y * width + xx < width as int * height as int,
                            0 <= cc < 3,
                    ;
                }
            }
            data.append(&mut row);
            y = y + 1;
        }
        proof {
            assert(data@.len() == out.len()) by (nonlinear_arith)
                requires
                    data@.len() == height * (width * 3),
                    out.len() == (width * height * 3) as nat,
            ;
            assert(data@ =~= out);
        }
        Matrix3::new(width, height, data)
    }
}

/// Relies on rayon: `into_par_iter` over the row range, `flat_map` with a
/// closure that only calls the verified `Matrix3::convolve_row`, and
/// `collect`, which returns the flattened rows in row order (rayon's
/// documentation shows parallel `collect` equal to the sequential one).
/// The concatenation of the verified rows is exactly `convolve3_data`.
#[verifier::external_body]
fn convolve_rows_parallel3(m: &Matrix3, kernel: &Kernel, mode: BorderMode) -> (r: Vec<u8>)
    requires
        m.wf(),
        kernel.wf(),
        m.spec_width() <= 0x7fff_ffff,
        m.spec_height() <= 0x7fff_ffff,
    ensures
        r@ == convolve3_data(
            m@,
            m.spec_width(),
            m.spec_height(),
            kernel.weights(),
            kernel.spec_width(),
            kernel.spec_height(),
            kernel.spec_den(),
            mode,
        ),
{
    (0..m.height()).into_par_iter().flat_map(|y| m.convolve_row(y, kernel, mode)).collect()
}

impl Matrix3 {
    /// Applies a convolution kernel with a row-parallel worker fan-out.
    ///
    /// Byte-identical to the sequential `convolve`: both contracts pin the
    /// output to the same `convolve3_data` sequence.
    pub fn convolve_parallel(&self, kernel: &Kernel, border_mode: BorderMode) -> (r: Matrix3)
        requires
            self.wf(),
            kernel.wf(),
            self.spec_width() <= 0x7fff_ffff,
            self.spec_height() <= 0x7fff_ffff,
        ensures
            r.wf(),
            r.spec_width() == self.spec_width(),
            r.spec_height() == self.spec_height(),
            r@ == convolve3_data(
                self@,
                self.spec_width(),
                self.spec_height(),
                kernel.weights(),
                kernel.spec_width(),
                kernel.spec_height(),
                kernel.spec_den(),
                border_mode,
            ),
    {
        let width = self.width();
        let height = self.height();
        let data = convolve_rows_parallel3(self, kernel, border_mode);
        proof {
            assert(data@.len() == width * height * 3) by (nonlinear_arith)
                requires
                    data@.len() == (self.spec_width() * self.spec_height() * 3) as nat,
                    width == self.spec_width(),
                    height == self.spec_height(),
            ;
        }
        Matrix3::new(width, height, data)
    }

    /// Applies horizontal 1D convolution: one pass of the separable filter.
    fn convolve_horizontal(&self, kernel: &Kernel1d, mode: BorderMode) -> (r: Matrix3)
        requires
            self.wf(),
            kernel.wf(),
            self.spec_width() <= 0x7fff_ffff,
            self.spec_height() <= 0x7fff_ffff,
        ensures
            r.wf(),
            r.spec_width() == self.spec_width(),
            r.spec_height() == self.spec_height(),
            r@ == convolve3_data(
                self@,
                self.spec_width(),
                self.spec_height(),
                kernel.weights(),
                kernel.weights().len() as int,
                1,
                kernel.spec_den(),
                mode,
            ),
    {
        let row = kernel.as_row_kernel();
        self.convolve(&row, mode)
    }

    /// Applies vertical 1D convolution: one pass of the separable filter.
    fn convolve_vertical(&self, kernel: &Kernel1d, mode: BorderMode) -> (r: Matrix3)
        requires
            self.wf(),
            kernel.wf(),
            self.spec_width() <= 0x7fff_ffff,
            self.spec_height() <= 0x7fff_ffff,
        ensures
            r.wf(),
            r.spec_width() == self.spec_width(),
            r.spec_height() == self.spec_height(),
            r@ == convolve3_data(
                self@,
                self.spec_width(),
                self.spec_height(),
                kernel.weights(),
                1,
                kernel.weights().len() as int,
                kernel.spec_den(),
                mode,
            ),
    {
        let col = kernel.as_column_kernel();
        self.convolve(&col, mode)
    }

    /// Applies a separable convolution: a horizontal pass followed by a
    /// vertical pass, with the intermediate buffer stored at 8-bit
    /// precision exactly as in the single-channel case.
    pub fn convolve_separable(
        &self,
        kernel_x: &Kernel1d,
        kernel_y: &Kernel1d,
        border_mode: BorderMode,
    ) -> (r: Matrix3)
        requires
            self.wf(),
            kernel_x.wf(),
            kernel_y.wf(),
            self.spec_width() <= 0x7fff_ffff,
            self.spec_height() <= 0x7fff_ffff,
        ensures
            r.wf(),
            r.spec_width() == self.spec_width(),
            r.spec_height() == self.spec_height(),
            r@ == convolve3_data(
                convolve3_data(
                    self@,
                    self.spec_width(),
                    self.spec_height(),
                    kernel_x.weights(),
                    kernel_x.weights().len() as int,
                    1,
                    kernel_x.spec_den(),
                    border_mode,
                ),
                self.spec_width(),
                self.spec_height(),
                kernel_y.weights(),
                1,
                kernel_y.weights().len() as int,
                kernel_y.spec_den(),
                border_mode,
            ),
    {
        let temp = self.convolve_horizontal(kernel_x, border_mode);
        temp.convolve_vertical(kernel_y, border_mode)
    }
}

/// For a coordinate that is already inside the image, every border policy
/// samples the true pixel.
pub proof fn lemma_in_range_sample1(
    data: Seq<u8>,
    w: int,
    h: int,
    mode: BorderMode,
    x: int,
    y: int,
)
    requires
        0 <= x < w,
        0 <= y < h,
    ensures
        border_sample1(data, w, h, mode, x, y) == data[y * w + x] as int,
{
    vstd::arithmetic::div_mod::lemma_small_mod(x as nat, w as nat);
    vstd::arithmetic::div_mod::lemma_small_mod(y as nat, h as nat);
}

/// For a coordinate that is already inside the image, every border policy
/// samples the true pixel (three-channel form).
pub proof fn lemma_in_range_sample3(
    data: Seq<u8>,
    w: int,
    h: int,
    mode: BorderMode,
    x: int,
    y: int,
    c: int,
)
    requires
        0 <= x < w,
        0 <= y < h,
    ensures
        border_sample3(data, w, h, mode, x, y, c) == data[(y * w + x) * 3 + c] as int,
{
    vstd::arithmetic::div_mod::lemma_small_mod(x as nat, w as nat);
    vstd::arithmetic::div_mod::lemma_small_mod(y as nat, h as nat);
}

/// The row-major position of the center tap of a `kw * kh` kernel, and its
/// decomposition.
proof fn lemma_center_tap(kw: int, kh: int)
    requires
        kw >= 1,
        kh >= 1,
    ensures
        0 <= (kh / 2) * kw + kw / 2 < kw * kh,
        ((kh / 2) * kw + kw / 2) % kw == kw / 2,
        ((kh / 2) * kw + kw / 2) / kw == kh / 2,
{
    vstd::arithmetic::div_mod::lemma_remainder_upper(kw, 2);
    vstd::arithmetic::div_mod::lemma_remainder_upper(kh, 2);
    vstd::arithmetic::div_mod::lemma_div_pos_is_pos(kw, 2);
    vstd::arithmetic::div_mod::lemma_div_pos_is_pos(kh, 2);
    assert(0 <= (kh / 2) * kw + kw / 2 < kw * kh) by (nonlinear_arith)
        requires
            0 <= kw / 2 < kw,
            0 <= kh / 2 < kh,
    ;
    lemma_fundamental_div_mod_converse_mod((kh / 2) * kw + kw / 2, kw, kh / 2, kw / 2);
    lemma_fundamental_div_mod_converse_div((kh / 2) * kw + kw / 2, kw, kh / 2, kw / 2);
}

/// With an identity kernel — the center tap holds the denominator, every
/// other tap is zero — the partial sums collapse to either nothing or the
/// center sample.
proof fn lemma_identity_acc1(
    data: Seq<u8>,
    w: int,
    h: int,
    knum: Seq<i32>,
    kw: int,
    kh: int,
    den: int,
    mode: BorderMode,
    x: int,
    y: int,
    j: int,
)
    requires
        kw >= 1,
        kh >= 1,
        knum.len() == kw * kh,
        knum[(kh / 2) * kw + kw / 2] == den,
        forall|t: int|
            0 <= t < knum.len() && t != (kh / 2) * kw + kw / 2 ==> knum[t] == 0,
        0 <= x < w,
        0 <= y < h,
        0 <= j <= knum.len(),
    ensures
        conv_acc1(data, w, h, knum, kw, kh, mode, x, y, j) == if j > (kh / 2) * kw + kw / 2 {
            den * (data[y * w + x] as int)
        } else {
            0
        },
    decreases j,
{
    lemma_center_tap(kw, kh);
    if j > 0 {
        lemma_identity_acc1(data, w, h, knum, kw, kh, den, mode, x, y, j - 1);
        let j0 = (kh / 2) * kw + kw / 2;
        if j - 1 == j0 {
            lemma_in_range_sample1(data, w, h, mode, x, y);
            assert(conv_tap1(data, w, h, knum, kw, kh, mode, x, y, j0) == (data[y * w + x] as int)
                * den);
        }
    }
}

/// An identity kernel leaves a pixel unchanged, under every border mode:
/// only the center tap contributes, it samples the pixel itself, and the
/// clamp-and-truncate step returns an in-range byte as it is.
pub proof fn lemma_identity_kernel_pixel1(
    data: Seq<u8>,
    w: int,
    h: int,
    knum: Seq<i32>,
    kw: int,
    kh: int,
    den: int,
    mode: BorderMode,
    x: int,
    y: int,
)
    requires
        kw >= 1,
        kh >= 1,
        den >= 1,
        knum.len() == kw * kh,
        knum[(kh / 2) * kw + kw / 2] == den,
        forall|t: int|
            0 <= t < knum.len() && t != (kh / 2) * kw + kw / 2 ==> knum[t] == 0,
        0 <= x < w,
        0 <= y < h,
    ensures
        conv_pixel1(data, w, h, knum, kw, kh, den, mode, x, y) == data[y * w + x] as int,
{
    lemma_center_tap(kw, kh);
    lemma_identity_acc1(data, w, h, knum, kw, kh, den, mode, x, y, kw * kh);
    let v = data[y * w + x] as int;
    let acc = conv_acc1(data, w, h, knum, kw, kh, mode, x, y, kw * kh);
    assert(acc == den * v);
    if v == 0 {
        assert(acc == 0) by (nonlinear_arith)
            requires
                acc == den * v,
                v == 0,
        ;
        assert(clamp_quotient(acc, den) == 0);
    } else {
        assert(acc > 0 && acc <= 255 * den && den * v == v * den) by (nonlinear_arith)
            requires
                acc == den * v,
                den >= 1,
                0 < v <= 255,
        ;
        if v == 255 {
            assert(clamp_quotient(acc, den) == 255);
        } else {
            assert(acc < 255 * den) by (nonlinear_arith)
                requires
                    acc == den * v,
                    den >= 1,
                    0 < v < 255,
            ;
            vstd::arithmetic::div_mod::lemma_div_multiples_vanish(v, den);
            assert(clamp_quotient(acc, den) == v);
        }
    }
}

/// The same law for one channel of a three-channel buffer.
proof fn lemma_identity_acc3(
    data: Seq<u8>,
    w: int,
    h: int,
    knum: Seq<i32>,
    kw: int,
    kh: int,
    den: int,
    mode: BorderMode,
    x: int,
    y: int,
    c: int,
    j: int,
)
    requires
        kw >= 1,
        kh >= 1,
        knum.len() == kw * kh,
        knum[(kh / 2) * kw + kw / 2] == den,
        forall|t: int|
            0 <= t < knum.len() && t != (kh / 2) * kw + kw / 2 ==> knum[t] == 0,
        0 <= x < w,
        0 <= y < h,
        0 <= j <= knum.len(),
    ensures
        conv_acc3(data, w, h, knum, kw, kh, mode, x, y, c, j) == if j > (kh / 2) * kw + kw / 2 {
            den * (data[(y * w + x) * 3 + c] as int)
        } else {
            0
        },
    decreases j,
{
    lemma_center_tap(kw, kh);
    if j > 0 {
        lemma_identity_acc3(data, w, h, knum, kw, kh, den, mode, x, y, c, j - 1);
        let j0 = (kh / 2) * kw + kw / 2;
        if j - 1 == j0 {
            lemma_in_range_sample3(data, w, h, mode, x, y, c);
            assert(conv_tap3(data, w, h, knum, kw, kh, mode, x, y, c, j0) == (data[(y * w + x) * 3
                + c] as int) * den);
        }
    }
}

/// An identity kernel leaves one channel of a pixel unchanged, under every
/// border mode (three-channel form).
pub proof fn lemma_identity_kernel_pixel3(
    data: Seq<u8>,
    w: int,
    h: int,
    knum: Seq<i32>,
    kw: int,
    kh: int,
    den: int,
    mode: BorderMode,
    x: int,
    y: int,
    c: int,
)
    requires
        kw >= 1,
        kh >= 1,
        den >= 1,
        knum.len() == kw * kh,
        knum[(kh / 2) * kw + kw / 2] == den,
        forall|t: int|
            0 <= t < knum.len() && t != (kh / 2) * kw + kw / 2 ==> knum[t] == 0,
        0 <= x < w,
        0 <= y < h,
    ensures
        conv_pixel3(data, w, h, knum, kw, kh, den, mode, x, y, c) == data[(y * w + x) * 3
            + c] as int,
{
    lemma_center_tap(kw, kh);
    lemma_identity_acc3(data, w, h, knum, kw, kh, den, mode, x, y, c, kw * kh);
    let v = data[(y * w + x) * 3 + c] as int;
    let acc = conv_acc3(data, w, h, knum, kw, kh, mode, x, y, c, kw * kh);
    assert(acc == den * v);
    if v == 0 {
        assert(acc == 0) by (nonlinear_arith)
            requires
                acc == den * v,
                v == 0,
        ;
        assert(clamp_quotient(acc, den) == 0);
    } else {
        assert(acc > 0 && acc <= 255 * den && den * v == v * den) by (nonlinear_arith)
            requires
                acc == den * v,
                den >= 1,
                0 < v <= 255,
        ;
        if v == 255 {
            assert(clamp_quotient(acc, den) == 255);
        } else {
            assert(acc < 255 * den) by (nonlinear_arith)
                requires
                    acc == den * v,
                    den >= 1,
                    0 < v < 255,
            ;
            vstd::arithmetic::div_mod::lemma_div_multiples_vanish(v, den);
            assert(clamp_quotient(acc, den) == v);
        }
    }
}

/// Convolving a single-channel buffer with an identity kernel — all taps
/// zero except the center tap, which equals the denominator — returns the
/// buffer unchanged, under every border mode. With the center tap at one
/// and denominator one this covers the literal identity kernel, and it also
/// shows that a box blur of size one is the identity transform.
pub proof fn lemma_identity_convolve1(
    data: Seq<u8>,
    w: int,
    h: int,
    knum: Seq<i32>,
    kw: int,
    kh: int,
    den: int,
    mode: BorderMode,
)
    requires
        kw >= 1,
        kh >= 1,
        den >= 1,
        knum.len() == kw * kh,
        knum[(kh / 2) * kw + kw / 2] == den,
        forall|t: int|
            0 <= t < knum.len() && t != (kh / 2) * kw + kw / 2 ==> knum[t] == 0,
        data.len() == w * h,
        w >= 0,
        h >= 0,
    ensures
        convolve1_data(data, w, h, knum, kw, kh, den, mode) == data,
{
    let out = convolve1_data(data, w, h, knum, kw, kh, den, mode);
    assert forall|k: int| 0 <= k < data.len() implies out[k] == data[k] by {
        assert(w >= 1 && h >= 1) by (nonlinear_arith)
            requires
                0 <= k < w * h,
                w >= 0,
                h >= 0,
        ;
        let x = k % w;
        let y = k / w;
        vstd::arithmetic::div_mod::lemma_mod_bound(k, w);
        vstd::arithmetic::div_mod::lemma_div_pos_is_pos(k, w);
        vstd::arithmetic::div_mod::lemma_multiply_divide_lt(k, w, h);
        lemma_identity_kernel_pixel1(data, w, h, knum, kw, kh, den, mode, x, y);
        lemma_fundamental_div_mod(k, w);
    }
    assert(out =~= data);
}

/// Convolving a three-channel buffer with an identity kernel returns the
/// buffer unchanged, under every border mode.
pub proof fn lemma_identity_convolve3(
    data: Seq<u8>,
    w: int,
    h: int,
    knum: Seq<i32>,
    kw: int,
    kh: int,
    den: int,
    mode: BorderMode,
)
    requires
        kw >= 1,
        kh >= 1,
        den >= 1,
        knum.len() == kw * kh,
        knum[(kh / 2) * kw + kw / 2] == den,
        forall|t: int|
            0 <= t < knum.len() && t != (kh / 2) * kw + kw / 2 ==> knum[t] == 0,
        data.len() == w * h * 3,
        w >= 0,
        h >= 0,
    ensures
        convolve3_data(data, w, h, knum, kw, kh, den, mode) == data,
{
    let out = convolve3_data(data, w, h, knum, kw, kh, den, mode);
    assert forall|k: int| 0 <= k < data.len() implies out[k] == data[k] by {
        let p = k / 3;
        let c = k % 3;
        vstd::arithmetic::div_mod::lemma_mod_bound(k, 3);
        vstd::arithmetic::div_mod::lemma_div_pos_is_pos(k, 3);
        assert(0 <= p < w * h) by (nonlinear_arith)
            requires
                0 <= k < w * h * 3,
                k == 3 * p + c,
                0 <= c < 3,
        ;
        assert(w >= 1 && h >= 1) by (nonlinear_arith)
            requires
                0 <= p < w * h,
                w >= 0,
                h >= 0,
        ;
        let x = p % w;
        let y = p / w;
        vstd::arithmetic::div_mod::lemma_mod_bound(p, w);
        vstd::arithmetic::div_mod::lemma_div_pos_is_pos(p, w);
        vstd::arithmetic::div_mod::lemma_multiply_divide_lt(p, w, h);
        lemma_identity_kernel_pixel3(data, w, h, knum, kw, kh, den, mode, x, y, c);
        lemma_fundamental_div_mod(k, 3);
        lemma_fundamental_div_mod(p, w);
        assert((y * w + x) * 3 + c == k) by (nonlinear_arith)
            requires
                k == 3 * p + c,
                p == y * w + x,
        ;
    }
    assert(out =~= data);
}

/// Parallel and sequential convolution are byte-identical: both contracts
/// pin the output to the same sequence, so any two buffers that satisfy
/// them for the same image, kernel and border mode are equal.
pub proof fn lemma_parallel_matches_sequential1(
    a: Seq<u8>,
    b: Seq<u8>,
    data: Seq<u8>,
    w: int,
    h: int,
    knum: Seq<i32>,
    kw: int,
    kh: int,
    den: int,
    mode: BorderMode,
)
    requires
        a == convolve1_data(data, w, h, knum, kw, kh, den, mode),
        b == convolve1_data(data, w, h, knum, kw, kh, den, mode),
    ensures
        a == b,
{
}

/// Parallel and sequential convolution are byte-identical (three-channel
/// form).
pub proof fn lemma_parallel_matches_sequential3(
    a: Seq<u8>,
    b: Seq<u8>,
    data: Seq<u8>,
    w: int,
    h: int,
    knum: Seq<i32>,
    kw: int,
    kh: int,
    den: int,
    mode: BorderMode,
)
    requires
        a == convolve3_data(data, w, h, knum, kw, kh, den, mode),
        b == convolve3_data(data, w, h, knum, kw, kh, den, mode),
    ensures
        a == b,
{
}

/// Every border-resolved sample of a nonempty buffer is a byte value.
proof fn lemma_border_sample1_range(
    data: Seq<u8>,
    w: int,
    h: int,
    mode: BorderMode,
    x: int,
    y: int,
)
    requires
        w >= 1,
        h >= 1,
        data.len() == w * h,
    ensures
        0 <= border_sample1(data, w, h, mode, x, y) <= 255,
{
    match mode {
        BorderMode::Zero => {
            if 0 <= x < w && 0 <= y < h {
                lemma_row_major_index(x, y, w, h);
            }
        },
        BorderMode::Replicate => {
            lemma_row_major_index(clamp_coord_spec(x, w), clamp_coord_spec(y, h), w, h);
        },
        BorderMode::Reflect => {
            lemma_row_major_index(reflect_coord_spec(x, w), reflect_coord_spec(y, h), w, h);
        },
        BorderMode::Wrap => {
            vstd::arithmetic::div_mod::lemma_mod_bound(x, w);
            vstd::arithmetic::div_mod::lemma_mod_bound(y, h);
            lemma_row_major_index(wrap_coord_spec(x, w), wrap_coord_spec(y, h), w, h);
        },
    }
}

/// With nonnegative weights, the partial sums of a convolution are
/// nonnegative and at most 255 times the partial weight sum.
proof fn lemma_conv_acc1_bounds(
    data: Seq<u8>,
    w: int,
    h: int,
    knum: Seq<i32>,
    kw: int,
    kh: int,
    mode: BorderMode,
    x: int,
    y: int,
    j: int,
)
    requires
        w >= 1,
        h >= 1,
        data.len() == w * h,
        kw >= 1,
        0 <= j <= knum.len(),
        forall|t: int| 0 <= t < knum.len() ==> knum[t] >= 0,
    ensures
        0 <= conv_acc1(data, w, h, knum, kw, kh, mode, x, y, j) <= 255 * weight_sum(knum, j),
    decreases j,
{
    if j > 0 {
        lemma_conv_acc1_bounds(data, w, h, knum, kw, kh, mode, x, y, j - 1);
        let sx = x + (j - 1) % kw - kw / 2;
        let sy = y + (j - 1) / kw - kh / 2;
        lemma_border_sample1_range(data, w, h, mode, sx, sy);
        let sample = border_sample1(data, w, h, mode, sx, sy);
        assert(0 <= sample * knum[j - 1] <= 255 * knum[j - 1]) by (nonlinear_arith)
            requires
                0 <= sample <= 255,
                knum[j - 1] >= 0,
        ;
        assert(255 * weight_sum(knum, j - 1) + 255 * knum[j - 1] == 255 * weight_sum(knum, j));
    }
}

/// The coordinate a border policy resolves a row to (the row itself for
/// zero-fill, which synthesizes values instead of remapping).
pub open spec fn resolved_row(mode: BorderMode, y: int, h: int) -> int {
    match mode {
        BorderMode::Zero => y,
        BorderMode::Replicate => clamp_coord_spec(y, h),
        BorderMode::Reflect => reflect_coord_spec(y, h),
        BorderMode::Wrap => wrap_coord_spec(y, h),
    }
}

/// For the remapping border policies, a single-row convolution over row
/// `y` equals the same convolution over the resolved row: each tap resolves
/// the row coordinate the same way, and resolution is idempotent.
proof fn lemma_hrow_acc_resolved(
    data: Seq<u8>,
    w: int,
    h: int,
    kx: Seq<i32>,
    kxlen: int,
    mode: BorderMode,
    x: int,
    y: int,
    j: int,
)
    requires
        w >= 1,
        h >= 1,
        kxlen >= 1,
        kx.len() == kxlen,
        mode != BorderMode::Zero || 0 <= y < h,
        0 <= j <= kx.len(),
    ensures
        conv_acc1(data, w, h, kx, kxlen, 1, mode, x, y, j) == conv_acc1(
            data,
            w,
            h,
            kx,
            kxlen,
            1,
            mode,
            x,
            resolved_row(mode, y, h),
            j,
        ),
    decreases j,
{
    let ry = resolved_row(mode, y, h);
    if mode == BorderMode::Wrap {
        vstd::arithmetic::div_mod::lemma_mod_bound(y, h);
        vstd::arithmetic::div_mod::lemma_small_mod((y % h) as nat, h as nat);
    }
    assert(resolved_row(mode, ry, h) == ry) by {
        match mode {
            BorderMode::Zero => {},
            BorderMode::Replicate => {},
            BorderMode::Reflect => {},
            BorderMode::Wrap => {},
        }
    }
    if j > 0 {
        lemma_hrow_acc_resolved(data, w, h, kx, kxlen, mode, x, y, j - 1);
        let sx = x + (j - 1) % kxlen - kxlen / 2;
        assert((j - 1) / kxlen == 0) by {
            vstd::arithmetic::div_mod::lemma_basic_div(j - 1, kxlen);
        }
        assert(border_sample1(data, w, h, mode, sx, y) == border_sample1(data, w, h, mode, sx, ry));
    }
}

/// With the zero-fill policy, a single-row convolution over an out-of-range
/// row sums to zero: every tap samples outside the image.
proof fn lemma_hrow_acc_zero(
    data: Seq<u8>,
    w: int,
    h: int,
    kx: Seq<i32>,
    kxlen: int,
    x: int,
    y: int,
    j: int,
)
    requires
        kxlen >= 1,
        kx.len() == kxlen,
        y < 0 || y >= h,
        0 <= j <= kx.len(),
    ensures
        conv_acc1(data, w, h, kx, kxlen, 1, BorderMode::Zero, x, y, j) == 0,
    decreases j,
{
    if j > 0 {
        lemma_hrow_acc_zero(data, w, h, kx, kxlen, x, y, j - 1);
        let sx = x + (j - 1) % kxlen - kxlen / 2;
        assert((j - 1) / kxlen == 0) by {
            vstd::arithmetic::div_mod::lemma_basic_div(j - 1, kxlen);
        }
        let sample = border_sample1(data, w, h, BorderMode::Zero, sx, y);
        assert(sample == 0);
        assert(sample * kx[j - 1] == 0) by (nonlinear_arith)
            requires
                sample == 0,
        ;
    }
}

/// The border-resolved sample that the vertical pass reads from the
/// intermediate buffer at row `yr` is exactly the floor of the horizontal
/// row sum over `kx_den`: the remainder lies in `[0, kx_den)`.
proof fn lemma_intermediate_sample(
    data: Seq<u8>,
    w: int,
    h: int,
    kx: Seq<i32>,
    kx_den: int,
    mode: BorderMode,
    x: int,
    yr: int,
)
    requires
        w >= 1,
        h >= 1,
        data.len() == w * h,
        kx.len() >= 1,
        forall|t: int| 0 <= t < kx.len() ==> kx[t] >= 0,
        weight_sum(kx, kx.len() as int) == kx_den,
        kx_den >= 1,
        0 <= x < w,
    ensures
        ({
            let t = convolve1_data(data, w, h, kx, kx.len() as int, 1, kx_den, mode);
            let tv = border_sample1(t, w, h, mode, x, yr);
            let ss = conv_acc1(data, w, h, kx, kx.len() as int, 1, mode, x, yr, kx.len() as int);
            0 <= ss - kx_den * tv < kx_den
        }),
{
    let kxlen = kx.len() as int;
    let t = convolve1_data(data, w, h, kx, kxlen, 1, kx_den, mode);
    let tv = border_sample1(t, w, h, mode, x, yr);
    let ss = conv_acc1(data, w, h, kx, kxlen, 1, mode, x, yr, kxlen);
    if mode == BorderMode::Zero && !(0 <= yr < h) {
        lemma_hrow_acc_zero(data, w, h, kx, kxlen, x, yr, kxlen);
        assert(tv == 0);
        assert(ss - kx_den * 0 == 0) by (nonlinear_arith)
            requires
                ss == 0,
        ;
    } else {
        let ry = resolved_row(mode, yr, h);
        if mode == BorderMode::Wrap {
            vstd::arithmetic::div_mod::lemma_mod_bound(yr, h);
            vstd::arithmetic::div_mod::lemma_small_mod(x as nat, w as nat);
        }
        assert(0 <= ry < h);
        // The x coordinate is already in range, so every policy keeps it.
        lemma_row_major_index(x, ry, w, h);
        lemma_row_major_div_mod(x, ry, w);
        assert(tv == t[ry * w + x] as int);
        let pix = conv_pixel1(data, w, h, kx, kxlen, 1, kx_den, mode, x, ry);
        lemma_clamp_quotient_range(
            conv_acc1(data, w, h, kx, kxlen, 1, mode, x, ry, kxlen),
            kx_den,
        );
        assert(tv == pix);
        // The row sum over the resolved row is the row sum over `yr`.
        lemma_hrow_acc_resolved(data, w, h, kx, kxlen, mode, x, yr, kxlen);
        let ssr = conv_acc1(data, w, h, kx, kxlen, 1, mode, x, ry, kxlen);
        assert(ssr == ss);
        // The clamp never bites: the row sum is within [0, 255 * kx_den].
        lemma_conv_acc1_bounds(data, w, h, kx, kxlen, 1, mode, x, ry, kxlen);
        vstd::arithmetic::div_mod::lemma_fundamental_div_mod(ss, kx_den);
        vstd::arithmetic::div_mod::lemma_mod_bound(ss, kx_den);
        if ss <= 0 {
            assert(pix == 0);
            assert(ss == 0);
            assert(ss - kx_den * 0 == 0) by (nonlinear_arith)
                requires
                    ss == 0,
            ;
        } else if ss >= 255 * kx_den {
            assert(ss == 255 * kx_den);
            assert(pix == 255);
            assert(ss - kx_den * 255 == 0) by (nonlinear_arith)
                requires
                    ss == 255 * kx_den,
            ;
        } else {
            assert(pix == ss / kx_den);
            assert(ss - kx_den * (ss / kx_den) == ss % kx_den);
        }
    }
}

/// Within row `d` of an outer-product kernel, the direct accumulator grows
/// by the row factor times the horizontal row sum: tap `d * kxlen + i`
/// weighs `kx[i] * ky[d]` and samples the same point as horizontal tap `i`
/// on that source row.
proof fn lemma_direct_row(
    data: Seq<u8>,
    w: int,
    h: int,
    kx: Seq<i32>,
    ky: Seq<i32>,
    outer: Seq<i32>,
    mode: BorderMode,
    x: int,
    y: int,
    d: int,
    i: int,
)
    requires
        kx.len() >= 1,
        ky.len() >= 1,
        outer.len() == kx.len() * ky.len(),
        forall|j: int|
            0 <= j < outer.len() ==> outer[j] == kx[j % (kx.len() as int)] * ky[j / (
            kx.len() as int)],
        0 <= d < ky.len(),
        0 <= i <= kx.len(),
    ensures
        conv_acc1(
            data,
            w,
            h,
            outer,
            kx.len() as int,
            ky.len() as int,
            mode,
            x,
            y,
            d * kx.len() + i,
        ) == conv_acc1(data, w, h, outer, kx.len() as int, ky.len() as int, mode, x, y, d * kx.len())
            + ky[d] * conv_acc1(
            data,
            w,
            h,
            kx,
            kx.len() as int,
            1,
            mode,
            x,
            y + d - ky.len() / 2,
            i,
        ),
    decreases i,
{
    let kxlen = kx.len() as int;
    let kylen = ky.len() as int;
    let yrow = y + d - kylen / 2;
    if i == 0 {
        assert(ky[d] * 0 == 0) by (nonlinear_arith);
    } else {
        lemma_direct_row(data, w, h, kx, ky, outer, mode, x, y, d, i - 1);
        let j = d * kxlen + (i - 1);
        lemma_fundamental_div_mod_converse_mod(j, kxlen, d, i - 1);
        lemma_fundamental_div_mod_converse_div(j, kxlen, d, i - 1);
        assert(0 <= j < kxlen * kylen) by (nonlinear_arith)
            requires
                0 <= d < kylen,
                0 <= i - 1 < kxlen,
                j == d * kxlen + (i - 1),
        ;
        vstd::arithmetic::div_mod::lemma_small_mod((i - 1) as nat, kxlen as nat);
        vstd::arithmetic::div_mod::lemma_basic_div(i - 1, kxlen);
        let sample = border_sample1(data, w, h, mode, x + (i - 1) - kxlen / 2, yrow);
        assert(conv_tap1(data, w, h, outer, kxlen, kylen, mode, x, y, j) == sample * (kx[i - 1]
            * ky[d]));
        assert(conv_tap1(data, w, h, kx, kxlen, 1, mode, x, yrow, i - 1) == sample * kx[i - 1]);
        let hprev = conv_acc1(data, w, h, kx, kxlen, 1, mode, x, yrow, i - 1);
        assert(ky[d] * hprev + sample * (kx[i - 1] * ky[d]) == ky[d] * (hprev + sample * kx[i
            - 1])) by (nonlinear_arith);
        assert(d * kxlen + i - 1 == j);
    }
}

/// Over the whole kernel, the direct accumulator equals the denominator of
/// the horizontal factor times the vertical accumulator on the intermediate
/// buffer, up to a nonnegative remainder of less than `kx_den` per row
/// weight: the quantization loss of storing each intermediate row at 8-bit
/// precision.
proof fn lemma_direct_vs_vertical(
    data: Seq<u8>,
    w: int,
    h: int,
    kx: Seq<i32>,
    kx_den: int,
    ky: Seq<i32>,
    outer: Seq<i32>,
    mode: BorderMode,
    x: int,
    y: int,
    d: int,
)
    requires
        w >= 1,
        h >= 1,
        data.len() == w * h,
        kx.len() >= 1,
        ky.len() >= 1,
        forall|t: int| 0 <= t < kx.len() ==> kx[t] >= 0,
        forall|t: int| 0 <= t < ky.len() ==> ky[t] >= 0,
        weight_sum(kx, kx.len() as int) == kx_den,
        kx_den >= 1,
        outer.len() == kx.len() * ky.len(),
        forall|j: int|
            0 <= j < outer.len() ==> outer[j] == kx[j % (kx.len() as int)] * ky[j / (
            kx.len() as int)],
        0 <= x < w,
        0 <= d <= ky.len(),
    ensures
        ({
            let t = convolve1_data(data, w, h, kx, kx.len() as int, 1, kx_den, mode);
            let dd = conv_acc1(
                data,
                w,
                h,
                outer,
                kx.len() as int,
                ky.len() as int,
                mode,
                x,
                y,
                d * kx.len(),
            );
            let vv = conv_acc1(t, w, h, ky, 1, ky.len() as int, mode, x, y, d);
            0 <= dd - kx_den * vv <= weight_sum(ky, d) * (kx_den - 1)
        }),
    decreases d,
{
    let kxlen = kx.len() as int;
    let kylen = ky.len() as int;
    let t = convolve1_data(data, w, h, kx, kxlen, 1, kx_den, mode);
    if d == 0 {
        assert(d * kxlen == 0) by (nonlinear_arith)
            requires
                d == 0,
        ;
        assert(kx_den * 0 == 0) by (nonlinear_arith);
        assert(weight_sum(ky, 0) * (kx_den - 1) == 0) by (nonlinear_arith);
    } else {
        lemma_direct_vs_vertical(data, w, h, kx, kx_den, ky, outer, mode, x, y, d - 1);
        let yrow = y + (d - 1) - kylen / 2;
        // The direct accumulator grows by `ky[d-1]` times the row sum.
        lemma_direct_row(data, w, h, kx, ky, outer, mode, x, y, d - 1, kxlen);
        assert((d - 1) * kxlen + kxlen == d * kxlen) by (nonlinear_arith);
        let ss = conv_acc1(data, w, h, kx, kxlen, 1, mode, x, yrow, kxlen);
        // The vertical accumulator grows by `ky[d-1]` times the resolved
        // intermediate sample at that row.
        lemma_fundamental_div_mod_converse_mod(d - 1, 1, d - 1, 0);
        lemma_fundamental_div_mod_converse_div(d - 1, 1, d - 1, 0);
        let tv = border_sample1(t, w, h, mode, x, yrow);
        assert(conv_tap1(t, w, h, ky, 1, kylen, mode, x, y, d - 1) == tv * ky[d - 1]);
        // The intermediate sample is the floor of the row sum.
        lemma_intermediate_sample(data, w, h, kx, kx_den, mode, x, yrow);
        let rem = ss - kx_den * tv;
        let dd_prev = conv_acc1(data, w, h, outer, kxlen, kylen, mode, x, y, (d - 1) * kxlen);
        let vv_prev = conv_acc1(t, w, h, ky, 1, kylen, mode, x, y, d - 1);
        let dd = conv_acc1(data, w, h, outer, kxlen, kylen, mode, x, y, d * kxlen);
        let vv = conv_acc1(t, w, h, ky, 1, kylen, mode, x, y, d);
        assert(dd == dd_prev + ky[d - 1] * ss);
        assert(vv == vv_prev + tv * ky[d - 1]);
        assert(dd - kx_den * vv == (dd_prev - kx_den * vv_prev) + ky[d - 1] * rem)
            by (nonlinear_arith)
            requires
                dd == dd_prev + ky[d - 1] * ss,
                vv == vv_prev + tv * ky[d - 1],
                rem == ss - kx_den * tv,
        ;
        assert(0 <= ky[d - 1] * rem <= ky[d - 1] * (kx_den - 1)) by (nonlinear_arith)
            requires
                ky[d - 1] >= 0,
                0 <= rem <= kx_den - 1,
        ;
        assert(weight_sum(ky, d) * (kx_den - 1) == weight_sum(ky, d - 1) * (kx_den - 1) + ky[d
            - 1] * (kx_den - 1)) by (nonlinear_arith)
            requires
                weight_sum(ky, d) == weight_sum(ky, d - 1) + ky[d - 1],
        ;
    }
}

/// An accumulated value between zero and 255 denominators, clamped and
/// truncated, is exactly its floor over the denominator.
proof fn lemma_clamp_is_floor(acc: int, den: int)
    requires
        den >= 1,
        0 <= acc <= 255 * den,
    ensures
        clamp_quotient(acc, den) == acc / den,
{
    if acc <= 0 {
        assert(0int / den == 0) by {
            vstd::arithmetic::div_mod::lemma_div_of0(den);
        }
    } else if acc >= 255 * den {
        vstd::arithmetic::div_mod::lemma_div_multiples_vanish(255, den);
    }
}

/// Two-pass separable convolution matches direct convolution within one
/// unit per pixel. For 1D factors with nonnegative taps that each sum to
/// their denominator (unit-sum kernels, such as `[1/4, 1/2, 1/4]`), and the
/// 2D kernel whose tap `(i, j)` weighs `kx[i] * ky[j]` over
/// `kx_den * ky_den`, the horizontal-then-vertical two-pass result of a
/// pixel is the direct result or one less: the only loss is the 8-bit
/// truncation of the intermediate buffer between the passes, which costs
/// strictly less than one output unit.
pub proof fn lemma_separable_within_one(
    data: Seq<u8>,
    w: int,
    h: int,
    kx: Seq<i32>,
    kx_den: int,
    ky: Seq<i32>,
    ky_den: int,
    outer: Seq<i32>,
    mode: BorderMode,
    x: int,
    y: int,
)
    requires
        w >= 1,
        h >= 1,
        data.len() == w * h,
        kx.len() >= 1,
        ky.len() >= 1,
        forall|t: int| 0 <= t < kx.len() ==> kx[t] >= 0,
        forall|t: int| 0 <= t < ky.len() ==> ky[t] >= 0,
        weight_sum(kx, kx.len() as int) == kx_den,
        weight_sum(ky, ky.len() as int) == ky_den,
        kx_den >= 1,
        ky_den >= 1,
        outer.len() == kx.len() * ky.len(),
        forall|j: int|
            0 <= j < outer.len() ==> outer[j] == kx[j % (kx.len() as int)] * ky[j / (
            kx.len() as int)],
        0 <= x < w,
        0 <= y < h,
    ensures
        ({
            let sep = conv_pixel1(
                convolve1_data(data, w, h, kx, kx.len() as int, 1, kx_den, mode),
                w,
                h,
                ky,
                1,
                ky.len() as int,
                ky_den,
                mode,
                x,
                y,
            );
            let direct = conv_pixel1(
                data,
                w,
                h,
                outer,
                kx.len() as int,
                ky.len() as int,
                kx_den * ky_den,
                mode,
                x,
                y,
            );
            sep <= direct <= sep + 1
        }),
{
    let kxlen = kx.len() as int;
    let kylen = ky.len() as int;
    let den = kx_den * ky_den;
    let t = convolve1_data(data, w, h, kx, kxlen, 1, kx_den, mode);
    let vv = conv_acc1(t, w, h, ky, 1, kylen, mode, x, y, kylen);
    let dd = conv_acc1(data, w, h, outer, kxlen, kylen, mode, x, y, kxlen * kylen);
    lemma_direct_vs_vertical(data, w, h, kx, kx_den, ky, outer, mode, x, y, kylen);
    assert(kylen * kxlen == kxlen * kylen) by (nonlinear_arith);
    let rr = dd - kx_den * vv;
    assert(0 <= rr <= ky_den * (kx_den - 1));
    assert(ky_den * (kx_den - 1) == den - ky_den) by (nonlinear_arith)
        requires
            den == kx_den * ky_den,
    ;
    // The vertical accumulator is a unit-sum combination of bytes.
    assert(t.len() == w * h) by (nonlinear_arith)
        requires
            t.len() == (w * h) as nat,
            w >= 1,
            h >= 1,
    ;
    lemma_conv_acc1_bounds(t, w, h, ky, 1, kylen, mode, x, y, kylen);
    assert(0 <= vv <= 255 * ky_den);
    let q = vv / ky_den;
    let s = vv % ky_den;
    lemma_fundamental_div_mod(vv, ky_den);
    vstd::arithmetic::div_mod::lemma_mod_bound(vv, ky_den);
    vstd::arithmetic::div_mod::lemma_div_pos_is_pos(vv, ky_den);
    vstd::arithmetic::div_mod::lemma_multiply_divide_le(vv, ky_den, 255);
    // sep is exactly the floor of the vertical accumulator.
    lemma_clamp_is_floor(vv, ky_den);
    assert(conv_pixel1(t, w, h, ky, 1, kylen, ky_den, mode, x, y) == q);
    // The direct accumulator decomposes over the separable floor.
    let slack = kx_den * s + rr;
    assert(dd == q * den + slack && 0 <= slack && slack < 2 * den) by (nonlinear_arith)
        requires
            vv == ky_den * q + s,
            0 <= s < ky_den,
            dd == kx_den * vv + rr,
            0 <= rr <= den - ky_den,
            den == kx_den * ky_den,
            kx_den >= 1,
            ky_den >= 1,
            slack == kx_den * s + rr,
        ;
    let fd = dd / den;
    assert(den >= 1) by (nonlinear_arith)
        requires
            kx_den >= 1,
            ky_den >= 1,
            den == kx_den * ky_den,
    ;
    if slack < den {
        lemma_fundamental_div_mod_converse_div(dd, den, q, slack);
        lemma_fundamental_div_mod_converse_mod(dd, den, q, slack);
        assert(fd == q);
    } else {
        assert(dd == (q + 1) * den + (slack - den)) by (nonlinear_arith)
            requires
                dd == q * den + slack,
        ;
        lemma_fundamental_div_mod_converse_div(dd, den, q + 1, slack - den);
        assert(fd == q + 1);
    }
    // q is at most 255, and q + 1 can only be reached with a remainder to
    // spare, so the direct floor never exceeds 255.
    if fd == q + 1 && q == 255 {
        assert(s == 0) by (nonlinear_arith)
            requires
                vv == ky_den * q + s,
                0 <= s < ky_den,
                vv <= 255 * ky_den,
                q == 255,
        ;
        assert(slack < den) by (nonlinear_arith)
            requires
                slack == kx_den * s + rr,
                s == 0,
                0 <= rr <= den - ky_den,
                ky_den >= 1,
        ;
        assert(false);
    }
    assert(0 <= dd) by (nonlinear_arith)
        requires
            dd == kx_den * vv + rr,
            vv >= 0,
            rr >= 0,
            kx_den >= 1,
    ;
    // direct is exactly the floor of the direct accumulator.
    if dd <= 0 {
        assert(fd == 0) by {
            vstd::arithmetic::div_mod::lemma_div_of0(den);
        }
        assert(clamp_quotient(dd, den) == 0);
    } else if dd >= 255 * den {
        vstd::arithmetic::div_mod::lemma_div_is_ordered(255 * den, dd, den);
        vstd::arithmetic::div_mod::lemma_div_multiples_vanish(255, den);
        assert(fd >= 255);
        assert(fd <= 255);
        assert(clamp_quotient(dd, den) == 255);
    } else {
        assert(clamp_quotient(dd, den) == fd);
    }
    assert(conv_pixel1(data, w, h, outer, kxlen, kylen, den, mode, x, y) == fd);
}

/// One channel of an interleaved three-channel buffer, as a single-channel
/// plane.
pub open spec fn channel_of(data: Seq<u8>, w: int, h: int, c: int) -> Seq<u8> {
    Seq::new((w * h) as nat, |i: int| data[3 * i + c])
}

/// A border-resolved sample of one channel of a three-channel buffer is
/// the border-resolved sample of that channel's plane.
proof fn lemma_channel_border_sample(
    data: Seq<u8>,
    w: int,
    h: int,
    mode: BorderMode,
    x: int,
    y: int,
    c: int,
)
    requires
        w >= 1,
        h >= 1,
    ensures
        border_sample3(data, w, h, mode, x, y, c) == border_sample1(
            channel_of(data, w, h, c),
            w,
            h,
            mode,
            x,
            y,
        ),
{
    let chan = channel_of(data, w, h, c);
    match mode {
        BorderMode::Zero => {
            if 0 <= x < w && 0 <= y < h {
                lemma_row_major_index(x, y, w, h);
                assert(chan[y * w + x] == data[3 * (y * w + x) + c]);
            }
        },
        BorderMode::Replicate => {
            lemma_row_major_index(clamp_coord_spec(x, w), clamp_coord_spec(y, h), w, h);
            let i = clamp_coord_spec(y, h) * w + clamp_coord_spec(x, w);
            assert(chan[i] == data[3 * i + c]);
        },
        BorderMode::Reflect => {
            lemma_row_major_index(reflect_coord_spec(x, w), reflect_coord_spec(y, h), w, h);
            let i = reflect_coord_spec(y, h) * w + reflect_coord_spec(x, w);
            assert(chan[i] == data[3 * i + c]);
        },
        BorderMode::Wrap => {
            vstd::arithmetic::div_mod::lemma_mod_bound(x, w);
            vstd::arithmetic::div_mod::lemma_mod_bound(y, h);
            lemma_row_major_index(wrap_coord_spec(x, w), wrap_coord_spec(y, h), w, h);
            let i = wrap_coord_spec(y, h) * w + wrap_coord_spec(x, w);
            assert(chan[i] == data[3 * i + c]);
        },
    }
}

/// A convolution accumulator over one channel of a three-channel buffer is
/// the accumulator over that channel's plane.
proof fn lemma_channel_acc(
    data: Seq<u8>,
    w: int,
    h: int,
    knum: Seq<i32>,
    kw: int,
    kh: int,
    mode: BorderMode,
    x: int,
    y: int,
    c: int,
    j: int,
)
    requires
        w >= 1,
        h >= 1,
        kw >= 1,
        0 <= j <= knum.len(),
    ensures
        conv_acc3(data, w, h, knum, kw, kh, mode, x, y, c, j) == conv_acc1(
            channel_of(data, w, h, c),
            w,
            h,
            knum,
            kw,
            kh,
            mode,
            x,
            y,
            j,
        ),
    decreases j,
{
    if j > 0 {
        lemma_channel_acc(data, w, h, knum, kw, kh, mode, x, y, c, j - 1);
        lemma_channel_border_sample(
            data,
            w,
            h,
            mode,
            x + (j - 1) % kw - kw / 2,
            y + (j - 1) / kw - kh / 2,
            c,
        );
    }
}

/// The channel plane of a filtered three-channel buffer is the filtered
/// channel plane: convolution commutes with extracting a channel.
proof fn lemma_channel_convolve(
    data: Seq<u8>,
    w: int,
    h: int,
    knum: Seq<i32>,
    kw: int,
    kh: int,
    den: int,
    mode: BorderMode,
    c: int,
)
    requires
        w >= 1,
        h >= 1,
        kw >= 1,
        knum.len() == kw * kh,
        0 <= c < 3,
    ensures
        channel_of(convolve3_data(data, w, h, knum, kw, kh, den, mode), w, h, c) == convolve1_data(
            channel_of(data, w, h, c),
            w,
            h,
            knum,
            kw,
            kh,
            den,
            mode,
        ),
{
    let lhs = channel_of(convolve3_data(data, w, h, knum, kw, kh, den, mode), w, h, c);
    let rhs = convolve1_data(channel_of(data, w, h, c), w, h, knum, kw, kh, den, mode);
    assert forall|k: int| 0 <= k < lhs.len() implies lhs[k] == rhs[k] by {
        assert(0 <= 3 * k + c < w * h * 3) by (nonlinear_arith)
            requires
                0 <= k < w * h,
                0 <= c < 3,
        ;
        lemma_fundamental_div_mod_converse_div(3 * k + c, 3, k, c);
        lemma_fundamental_div_mod_converse_mod(3 * k + c, 3, k, c);
        lemma_channel_acc(data, w, h, knum, kw, kh, mode, k % w, k / w, c, kw * kh);
    }
    assert(lhs =~= rhs);
}

/// Two-pass separable convolution matches direct convolution within one
/// unit per pixel on three-channel buffers as well: the kernel is applied
/// per channel, and each channel plane obeys the single-channel law.
pub proof fn lemma_separable_within_one3(
    data: Seq<u8>,
    w: int,
    h: int,
    kx: Seq<i32>,
    kx_den: int,
    ky: Seq<i32>,
    ky_den: int,
    outer: Seq<i32>,
    mode: BorderMode,
    x: int,
    y: int,
    c: int,
)
    requires
        w >= 1,
        h >= 1,
        data.len() == w * h * 3,
        kx.len() >= 1,
        ky.len() >= 1,
        forall|t: int| 0 <= t < kx.len() ==> kx[t] >= 0,
        forall|t: int| 0 <= t < ky.len() ==> ky[t] >= 0,
        weight_sum(kx, kx.len() as int) == kx_den,
        weight_sum(ky, ky.len() as int) == ky_den,
        kx_den >= 1,
        ky_den >= 1,
        outer.len() == kx.len() * ky.len(),
        forall|j: int|
            0 <= j < outer.len() ==> outer[j] == kx[j % (kx.len() as int)] * ky[j / (
            kx.len() as int)],
        0 <= x < w,
        0 <= y < h,
        0 <= c < 3,
    ensures
        ({
            let sep = conv_pixel3(
                convolve3_data(data, w, h, kx, kx.len() as int, 1, kx_den, mode),
                w,
                h,
                ky,
                1,
                ky.len() as int,
                ky_den,
                mode,
                x,
                y,
                c,
            );
            let direct = conv_pixel3(
                data,
                w,
                h,
                outer,
                kx.len() as int,
                ky.len() as int,
                kx_den * ky_den,
                mode,
                x,
                y,
                c,
            );
            sep <= direct <= sep + 1
        }),
{
    let kxlen = kx.len() as int;
    let kylen = ky.len() as int;
    let chan = channel_of(data, w, h, c);
    let t3 = convolve3_data(data, w, h, kx, kxlen, 1, kx_den, mode);
    // The vertical pass over the three-channel intermediate equals the
    // vertical pass over the filtered channel plane.
    lemma_channel_acc(t3, w, h, ky, 1, kylen, mode, x, y, c, kylen);
    lemma_channel_convolve(data, w, h, kx, kxlen, 1, kx_den, mode, c);
    assert(conv_acc3(t3, w, h, ky, 1, kylen, mode, x, y, c, kylen) == conv_acc1(
        convolve1_data(chan, w, h, kx, kxlen, 1, kx_den, mode),
        w,
        h,
        ky,
        1,
        kylen,
        mode,
        x,
        y,
        kylen,
    ));
    // The direct pass equals the direct pass over the channel plane.
    assert(kxlen * kylen == outer.len());
    lemma_channel_acc(data, w, h, outer, kxlen, kylen, mode, x, y, c, kxlen * kylen);
    // The channel plane has w * h samples, so the single-channel law
    // applies to it.
    assert(chan.len() == w * h) by (nonlinear_arith)
        requires
            chan.len() == (w * h) as nat,
            w >= 1,
            h >= 1,
    ;
    lemma_separable_within_one(chan, w, h, kx, kx_den, ky, ky_den, outer, mode, x, y);
}

} // verus!
