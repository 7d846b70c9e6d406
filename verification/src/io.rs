//! The image-I/O error taxonomy and the pixel-format conversions used when
//! decoded image data is brought into the three-channel buffer layout.
//!
//! File reading, file writing and the codecs themselves live outside this
//! library; what is verified here is every byte-level conversion between
//! decoded pixel formats and the interleaved RGB layout.

use vstd::prelude::*;

verus! {

use vstd::string::StringExecFns;

/// Errors that can occur during image I/O operations.
#[derive(Debug)]
pub enum ImageError {
    /// I/O error occurred
    Io(String),
    /// JPEG decoding error
    JpegDecode(String),
    /// PNG decoding error
    PngDecode(String),
    /// JPEG encoding error
    JpegEncode(String),
    /// PNG encoding error
    PngEncode(String),
    /// Unsupported pixel format
    UnsupportedFormat(String),
}

impl ImageError {
    /// The human-readable message for this error: a fixed prefix naming the
    /// failed operation, followed by the underlying detail.
    pub fn message(&self) -> (r: String)
        ensures
            match self {
                ImageError::Io(e) => r@ == "I/O error: "@ + e@,
                ImageError::JpegDecode(e) => r@ == "JPEG decode error: "@ + e@,
                ImageError::PngDecode(e) => r@ == "PNG decode error: "@ + e@,
                ImageError::JpegEncode(e) => r@ == "JPEG encode error: "@ + e@,
                ImageError::PngEncode(e) => r@ == "PNG encode error: "@ + e@,
                ImageError::UnsupportedFormat(e) => r@ == "Unsupported format: "@ + e@,
            },
    {
        match self {
            ImageError::Io(e) => "I/O error: ".to_owned().concat(e.as_str()),
            ImageError::JpegDecode(e) => "JPEG decode error: ".to_owned().concat(e.as_str()),
            ImageError::PngDecode(e) => "PNG decode error: ".to_owned().concat(e.as_str()),
            ImageError::JpegEncode(e) => "JPEG encode error: ".to_owned().concat(e.as_str()),
            ImageError::PngEncode(e) => "PNG encode error: ".to_owned().concat(e.as_str()),
            ImageError::UnsupportedFormat(e) => "Unsupported format: ".to_owned().concat(
                e.as_str(),
            ),
        }
    }
}

/// Expands single-channel pixels to interleaved RGB by replicating each
/// gray byte across the three channels.
pub fn gray_to_rgb(gray: &Vec<u8>) -> (r: Vec<u8>)
    requires
        gray@.len() * 3 <= usize::MAX,
    ensures
        r@.len() == gray@.len() * 3,
        forall|k: int| 0 <= k < r@.len() ==> r@[k] == gray@[k / 3],
{
    let n = gray.len();
    let mut rgb: Vec<u8> = Vec::new();
    let mut i: usize = 0;
    while i < n
        invariant
            n == gray@.len(),
            n * 3 <= usize::MAX,
            i <= n,
            rgb@.len() == i * 3,
            forall|k: int| 0 <= k < rgb@.len() ==> rgb@[k] == gray@[k / 3],
        decreases n - i,
    {
        let v = gray[i];
        rgb.push(v);
        rgb.push(v);
        rgb.push(v);
        proof {
            crate::transform::lemma_triple_index(i as int);
        }
        i = i + 1;
    }
    rgb
}

/// Strips the alpha channel from interleaved RGBA pixels, keeping the RGB
/// bytes of each complete four-byte pixel.
pub fn rgba_to_rgb(data: &Vec<u8>) -> (r: Vec<u8>)
    ensures
        r@.len() == (data@.len() / 4) * 3,
        forall|k: int| 0 <= k < r@.len() ==> r@[k] == data@[4 * (k / 3) + k % 3],
{
    let n = data.len() / 4;
    proof {
        vstd::std_specs::vec::axiom_spec_len(data);
        vstd::arithmetic::div_mod::lemma_fundamental_div_mod(data@.len() as int, 4);
    }
    let mut rgb: Vec<u8> = Vec::new();
    let mut i: usize = 0;
    while i < n
        invariant
            n == data@.len() / 4,
            4 * n <= data@.len(),
            data@.len() <= usize::MAX,
            i <= n,
            rgb@.len() == i * 3,
            forall|k: int| 0 <= k < rgb@.len() ==> rgb@[k] == data@[4 * (k / 3) + k % 3],
        decreases n - i,
    {
        rgb.push(data[4 * i]);
        rgb.push(data[4 * i + 1]);
        rgb.push(data[4 * i + 2]);
        proof {
            crate::transform::lemma_triple_index(i as int);
        }
        i = i + 1;
    }
    rgb
}

/// Expands gray-with-alpha pixel pairs to interleaved RGB, replicating the
/// gray byte of each complete pair and dropping its alpha byte.
pub fn gray_alpha_to_rgb(data: &Vec<u8>) -> (r: Vec<u8>)
    requires
        data@.len() * 3 <= usize::MAX,
    ensures
        r@.len() == (data@.len() / 2) * 3,
        forall|k: int| 0 <= k < r@.len() ==> r@[k] == data@[2 * (k / 3)],
{
    let n = data.len() / 2;
    proof {
        vstd::arithmetic::div_mod::lemma_fundamental_div_mod(data@.len() as int, 2);
    }
    let mut rgb: Vec<u8> = Vec::new();
    let mut i: usize = 0;
    while i < n
        invariant
            n == data@.len() / 2,
            2 * n <= data@.len(),
            data@.len() * 3 <= usize::MAX,
            i <= n,
            rgb@.len() == i * 3,
            forall|k: int| 0 <= k < rgb@.len() ==> rgb@[k] == data@[2 * (k / 3)],
        decreases n - i,
    {
        let v = data[2 * i];
        rgb.push(v);
        rgb.push(v);
        rgb.push(v);
        proof {
            crate::transform::lemma_triple_index(i as int);
        }
        i = i + 1;
    }
    rgb
}

/// One channel of the CMYK-to-RGB conversion: the channel byte `c` and the
/// key byte `k` give `(255 - c) * (255 - k) / 255`, truncated.
pub open spec fn cmyk_channel(c: u8, k: u8) -> int {
    (255 - c) * (255 - k) / 255
}

/// Converts interleaved CMYK pixels to interleaved RGB: each channel of a
/// complete four-byte pixel becomes `(255 - channel) * (255 - key) / 255`.
pub fn cmyk_to_rgb(data: &Vec<u8>) -> (r: Vec<u8>)
    ensures
        r@.len() == (data@.len() / 4) * 3,
        forall|k: int|
            0 <= k < r@.len() ==> r@[k] as int == cmyk_channel(
                data@[4 * (k / 3) + k % 3],
                data@[4 * (k / 3) + 3],
            ),
{
    let n = data.len() / 4;
    proof {
        vstd::std_specs::vec::axiom_spec_len(data);
        vstd::arithmetic::div_mod::lemma_fundamental_div_mod(data@.len() as int, 4);
    }
    let mut rgb: Vec<u8> = Vec::new();
    let mut i: usize = 0;
    while i < n
        invariant
            n == data@.len() / 4,
            4 * n <= data@.len(),
            data@.len() <= usize::MAX,
            i <= n,
            rgb@.len() == i * 3,
            forall|k: int|
                0 <= k < rgb@.len() ==> rgb@[k] as int == cmyk_channel(
                    data@[4 * (k / 3) + k % 3],
                    data@[4 * (k / 3) + 3],
                ),
        decreases n - i,
    {
        let key = data[4 * i + 3];
        rgb.push(cmyk_channel_value(data[4 * i], key));
        rgb.push(cmyk_channel_value(data[4 * i + 1], key));
        rgb.push(cmyk_channel_value(data[4 * i + 2], key));
        proof {
            crate::transform::lemma_triple_index(i as int);
        }
        i = i + 1;
    }
    rgb
}

/// Computes one CMYK channel conversion exactly.
fn cmyk_channel_value(c: u8, k: u8) -> (r: u8)
    ensures
        r as int == cmyk_channel(c, k),
{
    proof {
        assert((255 - c as int) * (255 - k as int) <= 65025) by (nonlinear_arith)
            requires
                0 <= c as int <= 255,
                0 <= k as int <= 255,
        ;
    }
    let prod: u32 = (255 - c as u32) * (255 - k as u32);
    proof {
        vstd::arithmetic::div_mod::lemma_div_pos_is_pos(prod as int, 255);
        vstd::arithmetic::div_mod::lemma_div_is_ordered(prod as int, 65025int, 255);
    }
    (prod / 255) as u8
}

} // verus!
