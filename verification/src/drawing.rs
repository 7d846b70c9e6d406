//! Color values and hex-string parsing, plus the drawing-target trait that
//! both pixel-buffer types implement.

use vstd::prelude::*;

verus! {

use crate::color::luminosity_gray;
use crate::matrix::{Matrix1, Matrix3};
use vstd::string::StringSliceAdditionalSpecFns;

/// Represents a color value that can be used for both grayscale and RGB
/// images.
#[derive(Debug, Clone, Copy, PartialEq, Eq, Structural)]
pub enum Color {
    /// Grayscale color (single channel)
    Gray(u8),
    /// RGB color (three channels)
    Rgb(u8, u8, u8),
}

/// Error type for hex color parsing.
#[derive(Debug, Clone, Copy, PartialEq, Eq, Structural)]
pub enum HexParseError {
    /// Invalid hex string length (expected 3 or 6 characters)
    InvalidLength(usize),
    /// Invalid hex character
    InvalidHexChar(char),
}

/// Whether the byte is an ASCII hexadecimal digit.
pub open spec fn is_hex_digit(b: u8) -> bool {
    (48 <= b <= 57) || (97 <= b <= 102) || (65 <= b <= 70)
}

/// The numeric value of an ASCII hexadecimal digit.
pub open spec fn hex_digit_value(b: u8) -> int {
    if 48 <= b <= 57 {
        b - 48
    } else if 97 <= b <= 102 {
        b - 87
    } else {
        b - 55
    }
}

/// The hex digits of the color string: everything after one optional
/// leading `#`.
pub open spec fn hex_body(bytes: Seq<u8>) -> Seq<u8> {
    if bytes.len() > 0 && bytes[0] == 35u8 {
        bytes.subrange(1, bytes.len() as int)
    } else {
        bytes
    }
}

/// What parsing a hex color string returns: a 3-digit body expands each
/// digit `d` to the channel byte `17 d`, a 6-digit body pairs digits into
/// channel bytes, any other length is an `InvalidLength` error, and the
/// first non-hex digit (in reading order) is an `InvalidHexChar` error.
pub open spec fn from_hex_spec(bytes: Seq<u8>) -> Result<Color, HexParseError> {
    let s = hex_body(bytes);
    if s.len() == 3 {
        if !is_hex_digit(s[0]) {
            Err(HexParseError::InvalidHexChar(s[0] as char))
        } else if !is_hex_digit(s[1]) {
            Err(HexParseError::InvalidHexChar(s[1] as char))
        } else if !is_hex_digit(s[2]) {
            Err(HexParseError::InvalidHexChar(s[2] as char))
        } else {
            Ok(
                Color::Rgb(
                    (17 * hex_digit_value(s[0])) as u8,
                    (17 * hex_digit_value(s[1])) as u8,
                    (17 * hex_digit_value(s[2])) as u8,
                ),
            )
        }
    } else if s.len() == 6 {
        if !is_hex_digit(s[0]) {
            Err(HexParseError::InvalidHexChar(s[0] as char))
        } else if !is_hex_digit(s[1]) {
            Err(HexParseError::InvalidHexChar(s[1] as char))
        } else if !is_hex_digit(s[2]) {
            Err(HexParseError::InvalidHexChar(s[2] as char))
        } else if !is_hex_digit(s[3]) {
            Err(HexParseError::InvalidHexChar(s[3] as char))
        } else if !is_hex_digit(s[4]) {
            Err(HexParseError::InvalidHexChar(s[4] as char))
        } else if !is_hex_digit(s[5]) {
            Err(HexParseError::InvalidHexChar(s[5] as char))
        } else {
            Ok(
                Color::Rgb(
                    (16 * hex_digit_value(s[0]) + hex_digit_value(s[1])) as u8,
                    (16 * hex_digit_value(s[2]) + hex_digit_value(s[3])) as u8,
                    (16 * hex_digit_value(s[4]) + hex_digit_value(s[5])) as u8,
                ),
            )
        }
    } else {
        Err(HexParseError::InvalidLength(s.len() as usize))
    }
}

/// The gray value of a color: a gray color as it is, an RGB color through
/// the truncated luminosity formula.
pub open spec fn color_gray(c: Color) -> int {
    match c {
        Color::Gray(v) => v as int,
        Color::Rgb(r, g, b) => luminosity_gray(r, g, b),
    }
}

/// The RGB triple of a color: an RGB color as it is, a gray color
/// replicated across the channels.
pub open spec fn color_rgb(c: Color) -> (u8, u8, u8) {
    match c {
        Color::Gray(v) => (v, v, v),
        Color::Rgb(r, g, b) => (r, g, b),
    }
}

impl Color {
    /// Creates a new grayscale color.
    pub fn gray(value: u8) -> (c: Self)
        ensures
            c == Color::Gray(value),
    {
        Color::Gray(value)
    }

    /// Creates a new RGB color.
    pub fn rgb(r: u8, g: u8, b: u8) -> (c: Self)
        ensures
            c == Color::Rgb(r, g, b),
    {
        Color::Rgb(r, g, b)
    }

    /// Creates a black color.
    pub fn black() -> (c: Self)
        ensures
            c == Color::Rgb(0, 0, 0),
    {
        Color::Rgb(0, 0, 0)
    }

    /// Creates a white color.
    pub fn white() -> (c: Self)
        ensures
            c == Color::Rgb(255, 255, 255),
    {
        Color::Rgb(255, 255, 255)
    }

    /// Converts the color to grayscale if it's RGB, using the truncated
    /// luminosity formula.
    pub fn to_gray(&self) -> (v: u8)
        ensures
            v as int == color_gray(*self),
    {
        match self {
            Color::Gray(v) => *v,
            Color::Rgb(r, g, b) => crate::color::gray_of(
                crate::color::GrayscaleMethod::Luminosity,
                *r,
                *g,
                *b,
            ),
        }
    }

    /// Gets RGB values, converting from grayscale if necessary.
    pub fn to_rgb(&self) -> (t: (u8, u8, u8))
        ensures
            t == color_rgb(*self),
    {
        match self {
            Color::Gray(v) => (*v, *v, *v),
            Color::Rgb(r, g, b) => (*r, *g, *b),
        }
    }

    /// Creates a color from a hex string: `"#RRGGBB"`, `"RRGGBB"`, `"#RGB"`
    /// or `"RGB"`. A 3-digit body expands each digit `d` to `17 d` (so `F`
    /// becomes `FF`). Any other length fails with `InvalidLength`, and the
    /// first non-hex digit fails with `InvalidHexChar`.
    pub fn from_hex(hex: &str) -> (r: Result<Color, HexParseError>)
        ensures
            r == from_hex_spec(hex.spec_bytes()),
    {
        let bytes = hex.as_bytes();
        let total = bytes.len();
        let start: usize = if total > 0 && bytes[0] == 35 {
            1
        } else {
            0
        };
        let n = total - start;
        proof {
            assert(hex_body(bytes@) =~= bytes@.subrange(start as int, total as int));
        }
        if n == 3 {
            let d0 = parse_hex_digit(bytes[start])?;
            let d1 = parse_hex_digit(bytes[start + 1])?;
            let d2 = parse_hex_digit(bytes[start + 2])?;
            Ok(Color::Rgb(17 * d0, 17 * d1, 17 * d2))
        } else if n == 6 {
            let d0 = parse_hex_digit(bytes[start])?;
            let d1 = parse_hex_digit(bytes[start + 1])?;
            let d2 = parse_hex_digit(bytes[start + 2])?;
            let d3 = parse_hex_digit(bytes[start + 3])?;
            let d4 = parse_hex_digit(bytes[start + 4])?;
            let d5 = parse_hex_digit(bytes[start + 5])?;
            Ok(Color::Rgb(16 * d0 + d1, 16 * d2 + d3, 16 * d4 + d5))
        } else {
            Err(HexParseError::InvalidLength(n))
        }
    }
}

impl core::str::FromStr for Color {
    type Err = HexParseError;

    fn from_str(s: &str) -> Result<Self, Self::Err> {
        Color::from_hex(s)
    }
}

/// Parses a single hexadecimal digit (`0-9`, `a-f`, `A-F`).
pub fn parse_hex_digit(byte: u8) -> (r: Result<u8, HexParseError>)
    ensures
        is_hex_digit(byte) ==> r == Ok::<u8, HexParseError>((hex_digit_value(byte)) as u8),
        !is_hex_digit(byte) ==> r == Err::<u8, HexParseError>(
            HexParseError::InvalidHexChar(byte as char),
        ),
{
    if byte >= 48 && byte <= 57 {
        Ok(byte - 48)
    } else if byte >= 97 && byte <= 102 {
        Ok(byte - 87)
    } else if byte >= 65 && byte <= 70 {
        Ok(byte - 55)
    } else {
        Err(HexParseError::InvalidHexChar(byte as char))
    }
}

/// Parses a two-digit hexadecimal byte (`"00"` to `"FF"`).
pub fn parse_hex_byte(hex: &str) -> (r: Result<u8, HexParseError>)
    ensures
        hex.spec_bytes().len() != 2 ==> r == Err::<u8, HexParseError>(
            HexParseError::InvalidLength(hex.spec_bytes().len() as usize),
        ),
        hex.spec_bytes().len() == 2 && !is_hex_digit(hex.spec_bytes()[0]) ==> r == Err::<
            u8,
            HexParseError,
        >(HexParseError::InvalidHexChar(hex.spec_bytes()[0] as char)),
        hex.spec_bytes().len() == 2 && is_hex_digit(hex.spec_bytes()[0]) && !is_hex_digit(
            hex.spec_bytes()[1],
        ) ==> r == Err::<u8, HexParseError>(
            HexParseError::InvalidHexChar(hex.spec_bytes()[1] as char),
        ),
        hex.spec_bytes().len() == 2 && is_hex_digit(hex.spec_bytes()[0]) && is_hex_digit(
            hex.spec_bytes()[1],
        ) ==> r == Ok::<u8, HexParseError>(
            (16 * hex_digit_value(hex.spec_bytes()[0]) + hex_digit_value(
                hex.spec_bytes()[1],
            )) as u8,
        ),
{
    let bytes = hex.as_bytes();
    if bytes.len() != 2 {
        return Err(HexParseError::InvalidLength(bytes.len()));
    }
    let high = parse_hex_digit(bytes[0])?;
    let low = parse_hex_digit(bytes[1])?;
    Ok(16 * high + low)
}

/// The buffer with the channel bytes of pixel `(x, y)` replaced by `px`
/// (one entry per channel), every other byte unchanged.
pub open spec fn paint_pixel(data: Seq<u8>, w: int, x: int, y: int, px: Seq<u8>) -> Seq<u8> {
    Seq::new(
        data.len(),
        |k: int|
            if (y * w + x) * px.len() <= k < (y * w + x) * px.len() + px.len() {
                px[k - (y * w + x) * px.len()]
            } else {
                data[k]
            },
    )
}

/// Trait for types that can be drawn on.
///
/// This trait is implemented by both `Matrix1` (grayscale) and `Matrix3`
/// (RGB) to provide a unified drawing API: a pixel write succeeds exactly
/// when the coordinates are in bounds, and then replaces exactly the
/// targeted pixel's channel bytes with the color's rendering.
pub trait DrawTarget {
    /// The target is in a drawable state.
    spec fn draw_wf(&self) -> bool;

    /// The width, for use in specifications.
    spec fn draw_width(&self) -> int;

    /// The height, for use in specifications.
    spec fn draw_height(&self) -> int;

    /// The target's bytes, row-major and channel-interleaved.
    spec fn draw_data(&self) -> Seq<u8>;

    /// The channel bytes that painting `color` writes into one pixel of
    /// this kind of target.
    spec fn painted(color: Color) -> Seq<u8>;

    /// Returns the width of the drawing target.
    fn width(&self) -> (r: usize)
        requires
            self.draw_wf(),
        ensures
            r == self.draw_width(),
    ;

    /// Returns the height of the drawing target.
    fn height(&self) -> (r: usize)
        requires
            self.draw_wf(),
        ensures
            r == self.draw_height(),
    ;

    /// Sets a pixel at the specified location with the given color.
    ///
    /// Returns true if the pixel was set successfully, false if the
    /// coordinates are out of bounds and nothing changed.
    fn set_pixel_color(&mut self, x: usize, y: usize, color: Color) -> (ok: bool)
        requires
            old(self).draw_wf(),
        ensures
            final(self).draw_wf(),
            final(self).draw_width() == old(self).draw_width(),
            final(self).draw_height() == old(self).draw_height(),
            ok == (x < old(self).draw_width() && y < old(self).draw_height()),
            ok ==> final(self).draw_data() == paint_pixel(
                old(self).draw_data(),
                old(self).draw_width(),
                x as int,
                y as int,
                Self::painted(color),
            ),
            !ok ==> final(self).draw_data() == old(self).draw_data(),
    ;
}

impl DrawTarget for Matrix1 {
    open spec fn draw_wf(&self) -> bool {
        self.wf()
    }

    open spec fn draw_width(&self) -> int {
        self.spec_width()
    }

    open spec fn draw_height(&self) -> int {
        self.spec_height()
    }

    open spec fn draw_data(&self) -> Seq<u8> {
        self@
    }

    open spec fn painted(color: Color) -> Seq<u8> {
        seq![color_gray(color) as u8]
    }

    fn width(&self) -> usize {
        self.width()
    }

    fn height(&self) -> usize {
        self.height()
    }

    fn set_pixel_color(&mut self, x: usize, y: usize, color: Color) -> bool {
        let v = color.to_gray();
        let ok = self.set_pixel(x, y, v);
        proof {
            if ok {
                crate::matrix::lemma_row_major_index(
                    x as int,
                    y as int,
                    old(self).spec_width(),
                    old(self).spec_height(),
                );
                let px = seq![color_gray(color) as u8];
                let idx = (y as int) * old(self).spec_width() + x as int;
                assert(idx * px.len() == idx) by (nonlinear_arith)
                    requires
                        px.len() == 1,
                ;
                assert(self@ =~= paint_pixel(
                    old(self)@,
                    old(self).spec_width(),
                    x as int,
                    y as int,
                    px,
                ));
            }
        }
        ok
    }
}

impl DrawTarget for Matrix3 {
    open spec fn draw_wf(&self) -> bool {
        self.wf()
    }

    open spec fn draw_width(&self) -> int {
        self.spec_width()
    }

    open spec fn draw_height(&self) -> int {
        self.spec_height()
    }

    open spec fn draw_data(&self) -> Seq<u8> {
        self@
    }

    open spec fn painted(color: Color) -> Seq<u8> {
        seq![color_rgb(color).0, color_rgb(color).1, color_rgb(color).2]
    }

    fn set_pixel_color(&mut self, x: usize, y: usize, color: Color) -> bool {
        let (r, g, b) = color.to_rgb();
        let ok = self.set_pixel(x, y, r, g, b);
        proof {
            if ok {
                crate::matrix::lemma_row_major_index(
                    x as int,
                    y as int,
                    old(self).spec_width(),
                    old(self).spec_height(),
                );
                let px = seq![color_rgb(color).0, color_rgb(color).1, color_rgb(color).2];
                let idx = (y as int) * old(self).spec_width() + x as int;
                assert(idx * px.len() == idx * 3) by (nonlinear_arith)
                    requires
                        px.len() == 3,
                ;
                assert(self@ =~= paint_pixel(
                    old(self)@,
                    old(self).spec_width(),
                    x as int,
                    y as int,
                    px,
                ));
            }
        }
        ok
    }

    fn width(&self) -> usize {
        self.width()
    }

    fn height(&self) -> usize {
        self.height()
    }
}

} // verus!
