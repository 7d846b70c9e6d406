//! Pixel-buffer types for single-channel and three-channel image data.
//!
//! Both buffers store their samples in one contiguous row-major `Vec<u8>`;
//! the three-channel buffer interleaves its channels (`R, G, B, R, G, B, ...`).
//! The view of a buffer is the mathematical sequence of its bytes, and
//! well-formedness ties the sequence length to `width * height * channels`.

use vstd::prelude::*;

verus! {

/// Row-major position of pixel `(x, y)` inside a `w * h` grid.
pub proof fn lemma_row_major_index(x: int, y: int, w: int, h: int)
    requires
        0 <= x < w,
        0 <= y < h,
    ensures
        0 <= y * w + x < w * h,
{
    assert(0 <= y * w + x < w * h) by (nonlinear_arith)
        requires
            0 <= x < w,
            0 <= y < h,
    ;
}

/// A single-channel (grayscale) matrix: one byte per pixel, row-major.
pub struct Matrix1 {
    width: usize,
    height: usize,
    data: Vec<u8>,
}

/// A three-channel (RGB) matrix: three interleaved bytes per pixel, row-major.
pub struct Matrix3 {
    width: usize,
    height: usize,
    data: Vec<u8>,
}

impl View for Matrix1 {
    type V = Seq<u8>;

    closed spec fn view(&self) -> Seq<u8> {
        self.data@
    }
}

impl View for Matrix3 {
    type V = Seq<u8>;

    closed spec fn view(&self) -> Seq<u8> {
        self.data@
    }
}

impl Matrix1 {
    /// The width, for use in specifications.
    pub closed spec fn spec_width(&self) -> int {
        self.width as int
    }

    /// The height, for use in specifications.
    pub closed spec fn spec_height(&self) -> int {
        self.height as int
    }

    /// The byte buffer holds exactly one byte per pixel.
    pub open spec fn wf(&self) -> bool {
        &&& self@.len() == self.spec_width() * self.spec_height()
        &&& self.spec_width() * self.spec_height() <= usize::MAX
    }

    /// Creates a matrix from raw pixel data.
    ///
    /// The data length must match `width * height`; a mismatched buffer is a
    /// construction error (`DataLengthMismatch`) and is excluded here.
    pub fn new(width: usize, height: usize, data: Vec<u8>) -> (r: Self)
        requires
            data@.len() == width * height,
        ensures
            r.wf(),
            r.spec_width() == width,
            r.spec_height() == height,
            r@ == data@,
    {
        proof {
            vstd::std_specs::vec::axiom_spec_len(&data);
        }
        Self { width, height, data }
    }

    /// Creates a matrix filled with zeros.
    pub fn zeros(width: usize, height: usize) -> (r: Self)
        requires
            width * height <= usize::MAX,
        ensures
            r.wf(),
            r.spec_width() == width,
            r.spec_height() == height,
            forall|i: int| 0 <= i < r@.len() ==> r@[i] == 0u8,
    {
        let n = width * height;
        let data = filled_bytes(n, 0);
        Self { width, height, data }
    }

    /// Returns the width of the matrix.
    pub fn width(&self) -> (r: usize)
        ensures
            r == self.spec_width(),
    {
        self.width
    }

    /// Returns the height of the matrix.
    pub fn height(&self) -> (r: usize)
        ensures
            r == self.spec_height(),
    {
        self.height
    }

    /// Returns the dimensions as (width, height).
    pub fn dimensions(&self) -> (r: (usize, usize))
        ensures
            r.0 == self.spec_width(),
            r.1 == self.spec_height(),
    {
        (self.width, self.height)
    }

    /// Returns a reference to the raw pixel data.
    pub fn data(&self) -> (r: &[u8])
        ensures
            r@ == self@,
    {
        self.data.as_slice()
    }

    /// Gets the value at the specified pixel location, or `None` when the
    /// coordinates lie outside the matrix.
    pub fn get_pixel(&self, x: usize, y: usize) -> (r: Option<u8>)
        requires
            self.wf(),
        ensures
            x < self.spec_width() && y < self.spec_height() ==> r == Some(
                self@[y * self.spec_width() + x],
            ),
            !(x < self.spec_width() && y < self.spec_height()) ==> r is None,
    {
        if x >= self.width || y >= self.height {
            return None;
        }
        proof {
            lemma_row_major_index(x as int, y as int, self.spec_width(), self.spec_height());
        }
        let idx = y * self.width + x;
        Some(self.data[idx])
    }

    /// Reads pixel `(x, y)` that is known to be inside the matrix.
    pub(crate) fn pixel_at(&self, x: usize, y: usize) -> (r: u8)
        requires
            self.wf(),
            x < self.spec_width(),
            y < self.spec_height(),
        ensures
            r == self@[y * self.spec_width() + x],
    {
        proof {
            lemma_row_major_index(x as int, y as int, self.spec_width(), self.spec_height());
        }
        let idx = y * self.width + x;
        self.data[idx]
    }

    /// Sets the value at the specified pixel location.
    ///
    /// Returns true when the pixel was inside the matrix and was written,
    /// false when the coordinates were out of bounds and nothing changed.
    pub fn set_pixel(&mut self, x: usize, y: usize, value: u8) -> (ok: bool)
        requires
            old(self).wf(),
        ensures
            final(self).wf(),
            final(self).spec_width() == old(self).spec_width(),
            final(self).spec_height() == old(self).spec_height(),
            ok == (x < old(self).spec_width() && y < old(self).spec_height()),
            ok ==> final(self)@ == old(self)@.update(y * old(self).spec_width() + x, value),
            !ok ==> final(self)@ == old(self)@,
    {
        if x >= self.width || y >= self.height {
            return false;
        }
        proof {
            lemma_row_major_index(x as int, y as int, self.spec_width(), self.spec_height());
        }
        let idx = y * self.width + x;
        self.data.set(idx, value);
        true
    }

    /// Consumes the matrix and returns the raw data.
    pub fn into_raw(self) -> (r: Vec<u8>)
        ensures
            r@ == self@,
    {
        self.data
    }

    /// Reads the byte at linear position `i`.
    pub(crate) fn byte_at(&self, i: usize) -> (r: u8)
        requires
            i < self@.len(),
        ensures
            r == self@[i as int],
    {
        self.data[i]
    }

    /// Returns a mutable reference to the raw pixel data.
    ///
    /// The reference starts at the current bytes, and whatever the caller
    /// leaves behind becomes the matrix data; a caller that changes the
    /// length leaves the matrix ill-formed, exactly as replacing the buffer
    /// of a raw struct would.
    pub fn data_mut(&mut self) -> (r: &mut Vec<u8>)
        ensures
            r@ == old(self)@,
            final(self)@ == final(r)@,
            final(self).spec_width() == old(self).spec_width(),
            final(self).spec_height() == old(self).spec_height(),
    {
        &mut self.data
    }
}

impl Matrix3 {
    /// The width, for use in specifications.
    pub closed spec fn spec_width(&self) -> int {
        self.width as int
    }

    /// The height, for use in specifications.
    pub closed spec fn spec_height(&self) -> int {
        self.height as int
    }

    /// The byte buffer holds exactly three interleaved bytes per pixel.
    pub open spec fn wf(&self) -> bool {
        &&& self@.len() == self.spec_width() * self.spec_height() * 3
        &&& self.spec_width() * self.spec_height() * 3 <= usize::MAX
    }

    /// Creates a matrix from raw pixel data in `R, G, B` interleaved order.
    ///
    /// The data length must match `width * height * 3`; a mismatched buffer
    /// is a construction error (`DataLengthMismatch`) and is excluded here.
    pub fn new(width: usize, height: usize, data: Vec<u8>) -> (r: Self)
        requires
            data@.len() == width * height * 3,
        ensures
            r.wf(),
            r.spec_width() == width,
            r.spec_height() == height,
            r@ == data@,
    {
        proof {
            vstd::std_specs::vec::axiom_spec_len(&data);
        }
        Self { width, height, data }
    }

    /// Creates a matrix filled with zeros.
    pub fn zeros(width: usize, height: usize) -> (r: Self)
        requires
            width * height * 3 <= usize::MAX,
        ensures
            r.wf(),
            r.spec_width() == width,
            r.spec_height() == height,
            forall|i: int| 0 <= i < r@.len() ==> r@[i] == 0u8,
    {
        let n = width * height * 3;
        let data = filled_bytes(n, 0);
        Self { width, height, data }
    }

    /// Returns the width of the matrix.
    pub fn width(&self) -> (r: usize)
        ensures
            r == self.spec_width(),
    {
        self.width
    }

    /// Returns the height of the matrix.
    pub fn height(&self) -> (r: usize)
        ensures
            r == self.spec_height(),
    {
        self.height
    }

    /// Returns the dimensions as (width, height).
    pub fn dimensions(&self) -> (r: (usize, usize))
        ensures
            r.0 == self.spec_width(),
            r.1 == self.spec_height(),
    {
        (self.width, self.height)
    }

    /// Returns a reference to the raw pixel data.
    pub fn data(&self) -> (r: &[u8])
        ensures
            r@ == self@,
    {
        self.data.as_slice()
    }

    /// Gets the RGB values at the specified pixel location, or `None` when
    /// the coordinates lie outside the matrix.
    pub fn get_pixel(&self, x: usize, y: usize) -> (r: Option<(u8, u8, u8)>)
        requires
            self.wf(),
        ensures
            x < self.spec_width() && y < self.spec_height() ==> r == Some(
                (
                    self@[(y * self.spec_width() + x) * 3],
                    self@[(y * self.spec_width() + x) * 3 + 1],
                    self@[(y * self.spec_width() + x) * 3 + 2],
                ),
            ),
            !(x < self.spec_width() && y < self.spec_height()) ==> r is None,
    {
        if x >= self.width || y >= self.height {
            return None;
        }
        proof {
            lemma_row_major_index(x as int, y as int, self.spec_width(), self.spec_height());
        }
        let idx = (y * self.width + x) * 3;
        Some((self.data[idx], self.data[idx + 1], self.data[idx + 2]))
    }

    /// Reads channel `c` of pixel `(x, y)` that is known to be inside the
    /// matrix.
    pub(crate) fn sample_at(&self, x: usize, y: usize, c: usize) -> (r: u8)
        requires
            self.wf(),
            x < self.spec_width(),
            y < self.spec_height(),
            c < 3,
        ensures
            r == self@[(y * self.spec_width() + x) * 3 + c],
    {
        proof {
            lemma_row_major_index(x as int, y as int, self.spec_width(), self.spec_height());
        }
        let idx = (y * self.width + x) * 3 + c;
        self.data[idx]
    }

    /// Sets the RGB values at the specified pixel location.
    ///
    /// Returns true when the pixel was inside the matrix and was written,
    /// false when the coordinates were out of bounds and nothing changed.
    pub fn set_pixel(&mut self, x: usize, y: usize, r: u8, g: u8, b: u8) -> (ok: bool)
        requires
            old(self).wf(),
        ensures
            final(self).wf(),
            final(self).spec_width() == old(self).spec_width(),
            final(self).spec_height() == old(self).spec_height(),
            ok == (x < old(self).spec_width() && y < old(self).spec_height()),
            ok ==> final(self)@ == old(self)@.update(
                (y * old(self).spec_width() + x) * 3,
                r,
            ).update((y * old(self).spec_width() + x) * 3 + 1, g).update(
                (y * old(self).spec_width() + x) * 3 + 2,
                b,
            ),
            !ok ==> final(self)@ == old(self)@,
    {
        if x >= self.width || y >= self.height {
            return false;
        }
        proof {
            lemma_row_major_index(x as int, y as int, self.spec_width(), self.spec_height());
        }
        let idx = (y * self.width + x) * 3;
        self.data.set(idx, r);
        self.data.set(idx + 1, g);
        self.data.set(idx + 2, b);
        true
    }

    /// Consumes the matrix and returns the raw data.
    pub fn into_raw(self) -> (r: Vec<u8>)
        ensures
            r@ == self@,
    {
        self.data
    }

    /// Reads the byte at linear position `i`.
    pub(crate) fn byte_at(&self, i: usize) -> (r: u8)
        requires
            i < self@.len(),
        ensures
            r == self@[i as int],
    {
        self.data[i]
    }

    /// Returns a mutable reference to the raw pixel data.
    ///
    /// The reference starts at the current bytes, and whatever the caller
    /// leaves behind becomes the matrix data; a caller that changes the
    /// length leaves the matrix ill-formed, exactly as replacing the buffer
    /// of a raw struct would.
    pub fn data_mut(&mut self) -> (r: &mut Vec<u8>)
        ensures
            r@ == old(self)@,
            final(self)@ == final(r)@,
            final(self).spec_width() == old(self).spec_width(),
            final(self).spec_height() == old(self).spec_height(),
    {
        &mut self.data
    }
}

/// A byte vector of length `n` with every element equal to `value`.
pub(crate) fn filled_bytes(n: usize, value: u8) -> (r: Vec<u8>)
    ensures
        r@.len() == n,
        forall|i: int| 0 <= i < n ==> r@[i] == value,
{
    let mut data: Vec<u8> = Vec::new();
    let mut i: usize = 0;
    while i < n
        invariant
            i <= n,
            data@.len() == i,
            forall|j: int| 0 <= j < i ==> data@[j] == value,
        decreases n - i,
    {
        data.push(value);
        i = i + 1;
    }
    data
}

} // verus!
