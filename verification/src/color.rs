//! The two pixel encodings of the panel and the default conversions between them.
use vstd::prelude::*;

verus! {

/// A pixel position; the origin is the top left corner.
#[derive(Clone, Copy, Debug, PartialEq, Eq, Structural)]
pub struct Point {
    pub x: i32,
    pub y: i32,
}

impl Point {
    pub fn new(x: i32, y: i32) -> (p: Point)
        ensures
            p.x == x,
            p.y == y,
    {
        Point { x, y }
    }
}

/// A colour for one pixel position.
#[derive(Clone, Copy, Debug)]
pub struct Pixel<C>(pub Point, pub C);

/// One bit per pixel.
#[derive(Clone, Copy, Debug, PartialEq, Eq, Structural)]
pub enum BinaryColor {
    Off,
    On,
}

/// Two bits per pixel: luma 0 is the darkest level, luma 3 the lightest.
#[derive(Clone, Copy, Debug, PartialEq, Eq, Structural)]
pub enum Gray2 {
    Black,
    Dark,
    Light,
    White,
}

/// Which encoding the byte planes hold.
#[derive(Clone, Copy, Debug, PartialEq, Eq, Structural)]
pub enum ColorInBuf {
    Binary,
    Gray,
}

/// A pixel encoding that the byte planes can hold.
pub trait Encoding {
    /// The tag of the encoding.
    spec fn tag() -> ColorInBuf;
}

impl Encoding for BinaryColor {
    open spec fn tag() -> ColorInBuf {
        ColorInBuf::Binary
    }
}

impl Encoding for Gray2 {
    open spec fn tag() -> ColorInBuf {
        ColorInBuf::Gray
    }
}

impl BinaryColor {
    pub open spec fn lit(self) -> bool {
        self == BinaryColor::On
    }

    pub open spec fn of(lit: bool) -> BinaryColor {
        if lit {
            BinaryColor::On
        } else {
            BinaryColor::Off
        }
    }

    pub fn is_on(self) -> (on: bool)
        ensures
            on == self.lit(),
    {
        match self {
            BinaryColor::On => true,
            BinaryColor::Off => false,
        }
    }

    pub fn from_bool(lit: bool) -> (c: BinaryColor)
        ensures
            c == BinaryColor::of(lit),
    {
        if lit {
            BinaryColor::On
        } else {
            BinaryColor::Off
        }
    }
}

impl Gray2 {
    /// The luma level, 0 to 3.
    pub open spec fn level(self) -> int {
        match self {
            Gray2::Black => 0,
            Gray2::Dark => 1,
            Gray2::Light => 2,
            Gray2::White => 3,
        }
    }

    /// The colour with luma `level % 4`.
    pub open spec fn of(level: int) -> Gray2 {
        let l = level % 4;
        if l == 0 {
            Gray2::Black
        } else if l == 1 {
            Gray2::Dark
        } else if l == 2 {
            Gray2::Light
        } else {
            Gray2::White
        }
    }

    /// The colour of a luma value; only the two low bits count.
    pub fn new(luma: u8) -> (c: Gray2)
        ensures
            c == Gray2::of(luma as int),
    {
        let l: u8 = luma % 4;
        if l == 0 {
            Gray2::Black
        } else if l == 1 {
            Gray2::Dark
        } else if l == 2 {
            Gray2::Light
        } else {
            Gray2::White
        }
    }

    pub fn luma(self) -> (l: u8)
        ensures
            l == self.level(),
    {
        match self {
            Gray2::Black => 0,
            Gray2::Dark => 1,
            Gray2::Light => 2,
            Gray2::White => 3,
        }
    }
}

/// The default reading of a gray level as one bit: the two light levels are on.
pub open spec fn binary_of_gray(c: Gray2) -> BinaryColor {
    BinaryColor::of(c.level() >= 2)
}

/// The default reading of one bit as a gray level: white when on, black when off.
pub open spec fn gray_of_binary(c: BinaryColor) -> Gray2 {
    if c.lit() {
        Gray2::White
    } else {
        Gray2::Black
    }
}

/// `BinaryColor::from(Gray2)` of embedded-graphics-core, on plain values: the
/// gray colour is built from the two low bits of `luma`, and the result is on
/// exactly when that luma is at least the half level, 2.
#[verifier::external_body]
fn threshold_luma(luma: u8) -> (on: bool)
    ensures
        on == (luma % 4 >= 2),
{
    embedded_graphics_core::pixelcolor::BinaryColor::from(
        embedded_graphics_core::pixelcolor::Gray2::new(luma),
    ).is_on()
}

/// `Gray2::from(BinaryColor)` of embedded-graphics-core, on plain values: on
/// becomes white (luma 3), off becomes black (luma 0).
#[verifier::external_body]
fn spread_bit(on: bool) -> (luma: u8)
    ensures
        luma == if on { 3u8 } else { 0u8 },
{
    embedded_graphics_core::pixelcolor::GrayColor::luma(
        &embedded_graphics_core::pixelcolor::Gray2::from(
            embedded_graphics_core::pixelcolor::BinaryColor::from(on),
        ),
    )
}

/// Default conversion from gray to binary.
pub fn binary_from_gray(c: Gray2) -> (b: BinaryColor)
    ensures
        b == binary_of_gray(c),
{
    BinaryColor::from_bool(threshold_luma(c.luma()))
}

/// Default conversion from binary to gray.
pub fn gray_from_binary(c: BinaryColor) -> (g: Gray2)
    ensures
        g == gray_of_binary(c),
{
    Gray2::new(spread_bit(c.is_on()))
}

} // verus!
