//! The four byte planes of the panel and pixel addressing over them.
//!
//! The panel is driven by two controllers. The master half holds columns 0 to
//! 399, the slave half columns 392 to 791; the eight columns 392 to 399 lie in
//! both. Each half has a primary and a secondary plane of 50 bytes per row,
//! bit 7 of a byte being its leftmost pixel.
use vstd::prelude::*;
use crate::color::{BinaryColor, Gray2, Pixel, Point};

verus! {

/// Panel width in pixels.
pub const WIDTH: u32 = 792;

/// Panel height in pixels.
pub const HIGH: u32 = 272;

/// Bytes in one plane: 50 bytes for each of the 272 rows.
pub const PLANE_LEN: usize = 13600;

/// Whether `(x, y)` is a pixel of the panel.
pub open spec fn in_screen(x: int, y: int) -> bool {
    0 <= x < 792 && 0 <= y < 272
}

/// Whether column `x` of the panel lies in the master half.
pub open spec fn in_master(x: int) -> bool {
    x < 400
}

/// Whether column `x` of the panel lies in the slave half.
pub open spec fn in_slave(x: int) -> bool {
    x >= 392
}

/// Byte of a master plane that holds pixel `(x, y)`.
pub open spec fn master_index(x: int, y: int) -> int {
    50 * y + x / 8
}

/// Byte of a slave plane that holds pixel `(x, y)`.
pub open spec fn slave_index(x: int, y: int) -> int {
    50 * y + (x - 392) / 8
}

/// Bit of its byte that holds column `x`; the same in both halves.
pub open spec fn shift_of(x: int) -> u8 {
    (7 - x % 8) as u8
}

/// Whether bit `shift` of `byte` is set.
pub open spec fn bit_of(byte: u8, shift: u8) -> bool {
    byte & (1u8 << shift) != 0
}

/// `byte` with bit `shift` set or cleared.
pub open spec fn with_bit(byte: u8, shift: u8, on: bool) -> u8 {
    if on {
        byte | (1u8 << shift)
    } else {
        byte & !(1u8 << shift)
    }
}

/// Whether a plane shows a set bit for the pixel stored at `index`, `shift`.
pub open spec fn plane_bit(plane: Seq<u8>, index: int, shift: u8) -> bool {
    bit_of(plane[index], shift)
}

/// `plane` with the bit at `index`, `shift` set or cleared.
pub open spec fn plane_put(plane: Seq<u8>, index: int, shift: u8, on: bool) -> Seq<u8> {
    plane.update(index, with_bit(plane[index], shift, on))
}

/// Primary bit of a luma level: set for levels 1 and 3.
pub open spec fn primary_of(c: Gray2) -> bool {
    c.level() % 2 == 1
}

/// Secondary bit of a luma level: set for levels 2 and 3.
pub open spec fn secondary_of(c: Gray2) -> bool {
    c.level() >= 2
}

/// The gray level that a primary and a secondary bit encode.
pub open spec fn gray_of_bits(primary: bool, secondary: bool) -> Gray2 {
    if primary {
        if secondary {
            Gray2::White
        } else {
            Gray2::Dark
        }
    } else {
        if secondary {
            Gray2::Light
        } else {
            Gray2::Black
        }
    }
}

/// What a set or cleared bit does to the bits of a byte.
pub proof fn lemma_with_bit(byte: u8, shift: u8, on: bool, other: u8)
    requires
        shift < 8,
        other < 8,
    ensures
        bit_of(with_bit(byte, shift, on), other) == if other == shift {
            on
        } else {
            bit_of(byte, other)
        },
{
    assert(bit_of(byte | (1u8 << shift), other) == (other == shift || bit_of(byte, other)))
        by (bit_vector)
        requires
            shift < 8,
            other < 8,
    ;
    assert(bit_of(byte & !(1u8 << shift), other) == (other != shift && bit_of(byte, other)))
        by (bit_vector)
        requires
            shift < 8,
            other < 8,
    ;
}

/// Sets or clears bit `offset` of `value`.
pub fn set_binary_value(color: BinaryColor, offset: u8, value: &mut u8)
    requires
        offset < 8,
    ensures
        *final(value) == with_bit(*old(value), offset, color.lit()),
{
    if color.is_on() {
        *value = *value | (1u8 << offset);
    } else {
        *value = *value & !(1u8 << offset);
    }
}

/// Writes the two bits of a luma level at `offset` of a primary and a secondary byte.
pub fn set_gray_value(color: Gray2, offset: u8, bw_value: &mut u8, r_value: &mut u8)
    requires
        offset < 8,
    ensures
        *final(bw_value) == with_bit(*old(bw_value), offset, primary_of(color)),
        *final(r_value) == with_bit(*old(r_value), offset, secondary_of(color)),
{
    match color.luma() {
        0 => {
            *bw_value = *bw_value & !(1u8 << offset);
            *r_value = *r_value & !(1u8 << offset);
        },
        1 => {
            *bw_value = *bw_value | (1u8 << offset);
            *r_value = *r_value & !(1u8 << offset);
        },
        2 => {
            *bw_value = *bw_value & !(1u8 << offset);
            *r_value = *r_value | (1u8 << offset);
        },
        _ => {
            *bw_value = *bw_value | (1u8 << offset);
            *r_value = *r_value | (1u8 << offset);
        },
    }
}

/// Reads bit `offset` of `value` as a binary colour.
pub fn get_binary_from_value(offset: u8, value: u8) -> (c: BinaryColor)
    requires
        offset < 8,
    ensures
        c == BinaryColor::of(bit_of(value, offset)),
{
    if value & (1u8 << offset) != 0 {
        BinaryColor::On
    } else {
        BinaryColor::Off
    }
}

/// Reads the luma level that bit `offset` of a primary and a secondary byte encode.
pub fn get_gray_from_values(offset: u8, bw_value: u8, r_value: u8) -> (c: Gray2)
    requires
        offset < 8,
    ensures
        c == gray_of_bits(bit_of(bw_value, offset), bit_of(r_value, offset)),
{
    let primary = bw_value & (1u8 << offset) != 0;
    let secondary = r_value & (1u8 << offset) != 0;
    if primary {
        if secondary {
            Gray2::White
        } else {
            Gray2::Dark
        }
    } else {
        if secondary {
            Gray2::Light
        } else {
            Gray2::Black
        }
    }
}

/// Whether a point lies on the panel.
pub fn is_point_in_screen(point: Point) -> (inside: bool)
    ensures
        inside == in_screen(point.x as int, point.y as int),
{
    point.x >= 0 && point.x < 792 && point.y >= 0 && point.y < 272
}

/// The contents of the four byte planes.
pub struct Planes {
    pub master_primary: Seq<u8>,
    pub slave_primary: Seq<u8>,
    pub master_secondary: Seq<u8>,
    pub slave_secondary: Seq<u8>,
}

impl Planes {
    /// Every plane has its fixed length.
    pub open spec fn wf(self) -> bool {
        &&& self.master_primary.len() == 13600
        &&& self.slave_primary.len() == 13600
        &&& self.master_secondary.len() == 13600
        &&& self.slave_secondary.len() == 13600
    }

    /// The planes of a blank panel: every bit set.
    pub open spec fn blank() -> Planes {
        Planes {
            master_primary: Seq::new(13600, |i: int| 0xffu8),
            slave_primary: Seq::new(13600, |i: int| 0xffu8),
            master_secondary: Seq::new(13600, |i: int| 0xffu8),
            slave_secondary: Seq::new(13600, |i: int| 0xffu8),
        }
    }

    /// Primary bit of pixel `(x, y)` in the master half.
    pub open spec fn master_primary_bit(self, x: int, y: int) -> bool {
        plane_bit(self.master_primary, master_index(x, y), shift_of(x))
    }

    /// Primary bit of pixel `(x, y)` in the slave half.
    pub open spec fn slave_primary_bit(self, x: int, y: int) -> bool {
        plane_bit(self.slave_primary, slave_index(x, y), shift_of(x))
    }

    /// Secondary bit of pixel `(x, y)` in the master half.
    pub open spec fn master_secondary_bit(self, x: int, y: int) -> bool {
        plane_bit(self.master_secondary, master_index(x, y), shift_of(x))
    }

    /// Secondary bit of pixel `(x, y)` in the slave half.
    pub open spec fn slave_secondary_bit(self, x: int, y: int) -> bool {
        plane_bit(self.slave_secondary, slave_index(x, y), shift_of(x))
    }

    /// Binary colour of pixel `(x, y)` as the master half holds it.
    pub open spec fn master_binary(self, x: int, y: int) -> BinaryColor {
        BinaryColor::of(self.master_primary_bit(x, y))
    }

    /// Binary colour of pixel `(x, y)` as the slave half holds it.
    pub open spec fn slave_binary(self, x: int, y: int) -> BinaryColor {
        BinaryColor::of(self.slave_primary_bit(x, y))
    }

    /// Gray level of pixel `(x, y)` as the master half holds it.
    pub open spec fn master_gray(self, x: int, y: int) -> Gray2 {
        gray_of_bits(self.master_primary_bit(x, y), self.master_secondary_bit(x, y))
    }

    /// Gray level of pixel `(x, y)` as the slave half holds it.
    pub open spec fn slave_gray(self, x: int, y: int) -> Gray2 {
        gray_of_bits(self.slave_primary_bit(x, y), self.slave_secondary_bit(x, y))
    }

    /// Binary colour read for pixel `(x, y)`: from the master half wherever
    /// the master half holds the column, from the slave half elsewhere.
    pub open spec fn binary_at(self, x: int, y: int) -> BinaryColor {
        if in_master(x) {
            self.master_binary(x, y)
        } else {
            self.slave_binary(x, y)
        }
    }

    /// Gray level read for pixel `(x, y)`, with the same choice of half.
    pub open spec fn gray_at(self, x: int, y: int) -> Gray2 {
        if in_master(x) {
            self.master_gray(x, y)
        } else {
            self.slave_gray(x, y)
        }
    }

    /// Every half that holds pixel `(x, y)` holds binary colour `c` for it.
    pub open spec fn shows_binary(self, x: int, y: int, c: BinaryColor) -> bool {
        &&& in_master(x) ==> self.master_binary(x, y) == c
        &&& in_slave(x) ==> self.slave_binary(x, y) == c
    }

    /// Every half that holds pixel `(x, y)` holds gray level `c` for it.
    pub open spec fn shows_gray(self, x: int, y: int, c: Gray2) -> bool {
        &&& in_master(x) ==> self.master_gray(x, y) == c
        &&& in_slave(x) ==> self.slave_gray(x, y) == c
    }

    /// The planes after binary colour `c` is written to the panel pixel `(x, y)`:
    /// the primary bit changes in every half that holds the column.
    pub open spec fn with_binary(self, x: int, y: int, c: BinaryColor) -> Planes {
        Planes {
            master_primary: if in_master(x) {
                plane_put(self.master_primary, master_index(x, y), shift_of(x), c.lit())
            } else {
                self.master_primary
            },
            slave_primary: if in_slave(x) {
                plane_put(self.slave_primary, slave_index(x, y), shift_of(x), c.lit())
            } else {
                self.slave_primary
            },
            master_secondary: self.master_secondary,
            slave_secondary: self.slave_secondary,
        }
    }

    /// The planes after gray level `c` is written to the panel pixel `(x, y)`:
    /// the primary and the secondary bit change in every half that holds the column.
    pub open spec fn with_gray(self, x: int, y: int, c: Gray2) -> Planes {
        Planes {
            master_primary: if in_master(x) {
                plane_put(self.master_primary, master_index(x, y), shift_of(x), primary_of(c))
            } else {
                self.master_primary
            },
            slave_primary: if in_slave(x) {
                plane_put(self.slave_primary, slave_index(x, y), shift_of(x), primary_of(c))
            } else {
                self.slave_primary
            },
            master_secondary: if in_master(x) {
                plane_put(self.master_secondary, master_index(x, y), shift_of(x), secondary_of(c))
            } else {
                self.master_secondary
            },
            slave_secondary: if in_slave(x) {
                plane_put(self.slave_secondary, slave_index(x, y), shift_of(x), secondary_of(c))
            } else {
                self.slave_secondary
            },
        }
    }
}

/// A bit written into a master plane is read back, and the bit of every other
/// master pixel keeps its value.
pub proof fn lemma_master_put(plane: Seq<u8>, x: int, y: int, on: bool, x2: int, y2: int)
    requires
        plane.len() == 13600,
        in_screen(x, y) && in_master(x),
        in_screen(x2, y2) && in_master(x2),
    ensures
        plane_bit(
            plane_put(plane, master_index(x, y), shift_of(x), on),
            master_index(x2, y2),
            shift_of(x2),
        ) == if x2 == x && y2 == y {
            on
        } else {
            plane_bit(plane, master_index(x2, y2), shift_of(x2))
        },
{
    let i = master_index(x, y);
    let i2 = master_index(x2, y2);
    lemma_with_bit(plane[i], shift_of(x), on, shift_of(x2));
    if i == i2 && shift_of(x) == shift_of(x2) {
        assert(x / 8 == x2 / 8 && y == y2);
        assert(x == x2);
    }
}

/// A bit written into a slave plane is read back, and the bit of every other
/// slave pixel keeps its value.
pub proof fn lemma_slave_put(plane: Seq<u8>, x: int, y: int, on: bool, x2: int, y2: int)
    requires
        plane.len() == 13600,
        in_screen(x, y) && in_slave(x),
        in_screen(x2, y2) && in_slave(x2),
    ensures
        plane_bit(
            plane_put(plane, slave_index(x, y), shift_of(x), on),
            slave_index(x2, y2),
            shift_of(x2),
        ) == if x2 == x && y2 == y {
            on
        } else {
            plane_bit(plane, slave_index(x2, y2), shift_of(x2))
        },
{
    let i = slave_index(x, y);
    let i2 = slave_index(x2, y2);
    lemma_with_bit(plane[i], shift_of(x), on, shift_of(x2));
    if i == i2 && shift_of(x) == shift_of(x2) {
        assert((x - 392) / 8 == (x2 - 392) / 8 && y == y2);
        assert(x == x2);
    }
}

/// Writing a binary colour to a pixel shows it in every half that holds the
/// pixel, so it is read back, also in the columns that both halves hold.
pub proof fn lemma_binary_round_trip(planes: Planes, x: int, y: int, c: BinaryColor)
    requires
        planes.wf(),
        in_screen(x, y),
    ensures
        planes.with_binary(x, y, c).wf(),
        planes.with_binary(x, y, c).shows_binary(x, y, c),
        planes.with_binary(x, y, c).binary_at(x, y) == c,
{
    if in_master(x) {
        lemma_master_put(planes.master_primary, x, y, c.lit(), x, y);
    }
    if in_slave(x) {
        lemma_slave_put(planes.slave_primary, x, y, c.lit(), x, y);
    }
}

/// Writing a gray level to a pixel shows it in every half that holds the
/// pixel, so it is read back, also in the columns that both halves hold.
pub proof fn lemma_gray_round_trip(planes: Planes, x: int, y: int, c: Gray2)
    requires
        planes.wf(),
        in_screen(x, y),
    ensures
        planes.with_gray(x, y, c).wf(),
        planes.with_gray(x, y, c).shows_gray(x, y, c),
        planes.with_gray(x, y, c).gray_at(x, y) == c,
{
    if in_master(x) {
        lemma_master_put(planes.master_primary, x, y, primary_of(c), x, y);
        lemma_master_put(planes.master_secondary, x, y, secondary_of(c), x, y);
    }
    if in_slave(x) {
        lemma_slave_put(planes.slave_primary, x, y, primary_of(c), x, y);
        lemma_slave_put(planes.slave_secondary, x, y, secondary_of(c), x, y);
    }
}

/// Writing a binary colour to one pixel changes no bit of another pixel.
pub proof fn lemma_binary_frame(planes: Planes, x: int, y: int, c: BinaryColor, x2: int, y2: int)
    requires
        planes.wf(),
        in_screen(x, y),
        in_screen(x2, y2),
        x2 != x || y2 != y,
    ensures
        in_master(x2) ==> planes.with_binary(x, y, c).master_gray(x2, y2) == planes.master_gray(x2, y2),
        in_slave(x2) ==> planes.with_binary(x, y, c).slave_gray(x2, y2) == planes.slave_gray(x2, y2),
        in_master(x2) ==> planes.with_binary(x, y, c).master_binary(x2, y2) == planes.master_binary(x2, y2),
        in_slave(x2) ==> planes.with_binary(x, y, c).slave_binary(x2, y2) == planes.slave_binary(x2, y2),
{
    if in_master(x) && in_master(x2) {
        lemma_master_put(planes.master_primary, x, y, c.lit(), x2, y2);
    }
    if in_slave(x) && in_slave(x2) {
        lemma_slave_put(planes.slave_primary, x, y, c.lit(), x2, y2);
    }
}

/// Writing a gray level to one pixel changes no bit of another pixel.
pub proof fn lemma_gray_frame(planes: Planes, x: int, y: int, c: Gray2, x2: int, y2: int)
    requires
        planes.wf(),
        in_screen(x, y),
        in_screen(x2, y2),
        x2 != x || y2 != y,
    ensures
        in_master(x2) ==> planes.with_gray(x, y, c).master_gray(x2, y2) == planes.master_gray(x2, y2),
        in_slave(x2) ==> planes.with_gray(x, y, c).slave_gray(x2, y2) == planes.slave_gray(x2, y2),
        in_master(x2) ==> planes.with_gray(x, y, c).master_binary(x2, y2) == planes.master_binary(x2, y2),
        in_slave(x2) ==> planes.with_gray(x, y, c).slave_binary(x2, y2) == planes.slave_binary(x2, y2),
{
    if in_master(x) && in_master(x2) {
        lemma_master_put(planes.master_primary, x, y, primary_of(c), x2, y2);
        lemma_master_put(planes.master_secondary, x, y, secondary_of(c), x2, y2);
    }
    if in_slave(x) && in_slave(x2) {
        lemma_slave_put(planes.slave_primary, x, y, primary_of(c), x2, y2);
        lemma_slave_put(planes.slave_secondary, x, y, secondary_of(c), x2, y2);
    }
}

/// One of the four byte planes.
#[derive(Clone, Copy, Debug, PartialEq, Eq, Structural)]
pub enum Plane {
    MasterPrimary,
    SlavePrimary,
    MasterSecondary,
    SlaveSecondary,
}

impl Planes {
    /// The contents of one plane.
    pub open spec fn plane(self, which: Plane) -> Seq<u8> {
        match which {
            Plane::MasterPrimary => self.master_primary,
            Plane::SlavePrimary => self.slave_primary,
            Plane::MasterSecondary => self.master_secondary,
            Plane::SlaveSecondary => self.slave_secondary,
        }
    }

    /// The planes with both secondary planes cleared to zero.
    pub open spec fn with_secondary_cleared(self) -> Planes {
        Planes {
            master_primary: self.master_primary,
            slave_primary: self.slave_primary,
            master_secondary: Seq::new(13600, |i: int| 0u8),
            slave_secondary: Seq::new(13600, |i: int| 0u8),
        }
    }

    /// The planes with each primary plane copied over the secondary plane of its half.
    pub open spec fn with_secondary_from_primary(self) -> Planes {
        Planes {
            master_primary: self.master_primary,
            slave_primary: self.slave_primary,
            master_secondary: self.master_primary,
            slave_secondary: self.slave_primary,
        }
    }
}

/// The four byte planes that the panel is refreshed from.
pub struct Framebuffer {
    buffer0: Vec<u8>,
    buffer1: Vec<u8>,
    buffer2: Vec<u8>,
    buffer3: Vec<u8>,
}

impl View for Framebuffer {
    type V = Planes;

    closed spec fn view(&self) -> Planes {
        Planes {
            master_primary: self.buffer0@,
            slave_primary: self.buffer1@,
            master_secondary: self.buffer2@,
            slave_secondary: self.buffer3@,
        }
    }
}

/// A plane of `PLANE_LEN` bytes, each equal to `byte`.
fn filled_plane(byte: u8) -> (plane: Vec<u8>)
    ensures
        plane@ == Seq::new(13600, |i: int| byte),
{
    let mut plane: Vec<u8> = Vec::new();
    let mut i: usize = 0;
    while i < PLANE_LEN
        invariant
            i <= PLANE_LEN,
            plane@.len() == i,
            forall|j: int| 0 <= j < i ==> plane@[j] == byte,
        decreases PLANE_LEN - i,
    {
        plane.push(byte);
        i += 1;
    }
    assert(plane@ =~= Seq::new(13600, |i: int| byte));
    plane
}

impl Framebuffer {
    /// The planes of a blank panel: every bit set.
    pub fn new() -> (fb: Framebuffer)
        ensures
            fb@ == Planes::blank(),
            fb@.wf(),
    {
        Framebuffer {
            buffer0: filled_plane(0xff),
            buffer1: filled_plane(0xff),
            buffer2: filled_plane(0xff),
            buffer3: filled_plane(0xff),
        }
    }

    /// The bytes of one plane.
    pub fn plane(&self, which: Plane) -> (bytes: &Vec<u8>)
        ensures
            bytes@ == self@.plane(which),
    {
        match which {
            Plane::MasterPrimary => &self.buffer0,
            Plane::SlavePrimary => &self.buffer1,
            Plane::MasterSecondary => &self.buffer2,
            Plane::SlaveSecondary => &self.buffer3,
        }
    }

    /// Writes a binary colour to a pixel; a point off the panel changes nothing.
    pub fn set_binary(&mut self, point: Point, color: BinaryColor)
        requires
            old(self)@.wf(),
        ensures
            final(self)@.wf(),
            final(self)@ == if in_screen(point.x as int, point.y as int) {
                old(self)@.with_binary(point.x as int, point.y as int, color)
            } else {
                old(self)@
            },
    {
        if !is_point_in_screen(point) {
            return ;
        }
        if point.x < 50 * 8 {
            let buf_index = (50 * point.y + point.x / 8) as usize;
            let offset = (7 - point.x % 8) as u8;
            let mut value = self.buffer0[buf_index];
            set_binary_value(color, offset, &mut value);
            self.buffer0.set(buf_index, value);
        }
        if point.x >= 49 * 8 {
            let buf_index = (50 * point.y + (point.x - 49 * 8) / 8) as usize;
            let offset = (7 - (point.x - 49 * 8) % 8) as u8;
            let mut value = self.buffer1[buf_index];
            set_binary_value(color, offset, &mut value);
            self.buffer1.set(buf_index, value);
        }
    }

    /// Reads the binary colour of a pixel; `None` for a point off the panel.
    pub fn get_binary(&self, point: Point) -> (color: Option<BinaryColor>)
        requires
            self@.wf(),
        ensures
            color == if in_screen(point.x as int, point.y as int) {
                Some(self@.binary_at(point.x as int, point.y as int))
            } else {
                None
            },
    {
        if !is_point_in_screen(point) {
            return None;
        }
        if point.x < 50 * 8 {
            let buf_index = (50 * point.y + point.x / 8) as usize;
            let offset = (7 - point.x % 8) as u8;
            let value = self.buffer0[buf_index];
            Some(get_binary_from_value(offset, value))
        } else {
            let buf_index = (50 * point.y + (point.x - 49 * 8) / 8) as usize;
            let offset = (7 - (point.x - 49 * 8) % 8) as u8;
            let value = self.buffer1[buf_index];
            Some(get_binary_from_value(offset, value))
        }
    }

    /// Writes a gray level to a pixel; a point off the panel changes nothing.
    pub fn set_gray(&mut self, point: Point, color: Gray2)
        requires
            old(self)@.wf(),
        ensures
            final(self)@.wf(),
            final(self)@ == if in_screen(point.x as int, point.y as int) {
                old(self)@.with_gray(point.x as int, point.y as int, color)
            } else {
                old(self)@
            },
    {
        if !is_point_in_screen(point) {
            return ;
        }
        if point.x < 50 * 8 {
            let buf_index = (50 * point.y + point.x / 8) as usize;
            let offset = (7 - point.x % 8) as u8;
            let mut bw_value = self.buffer0[buf_index];
            let mut r_value = self.buffer2[buf_index];
            set_gray_value(color, offset, &mut bw_value, &mut r_value);
            self.buffer0.set(buf_index, bw_value);
            self.buffer2.set(buf_index, r_value);
        }
        if point.x >= 49 * 8 {
            let buf_index = (50 * point.y + (point.x - 49 * 8) / 8) as usize;
            let offset = (7 - (point.x - 49 * 8) % 8) as u8;
            let mut bw_value = self.buffer1[buf_index];
            let mut r_value = self.buffer3[buf_index];
            set_gray_value(color, offset, &mut bw_value, &mut r_value);
            self.buffer1.set(buf_index, bw_value);
            self.buffer3.set(buf_index, r_value);
        }
    }

    /// Reads the gray level of a pixel; `None` for a point off the panel.
    pub fn get_gray(&self, point: Point) -> (color: Option<Gray2>)
        requires
            self@.wf(),
        ensures
            color == if in_screen(point.x as int, point.y as int) {
                Some(self@.gray_at(point.x as int, point.y as int))
            } else {
                None
            },
    {
        if !is_point_in_screen(point) {
            return None;
        }
        if point.x < 50 * 8 {
            let buf_index = (50 * point.y + point.x / 8) as usize;
            let offset = (7 - point.x % 8) as u8;
            let bw_value = self.buffer0[buf_index];
            let r_value = self.buffer2[buf_index];
            Some(get_gray_from_values(offset, bw_value, r_value))
        } else {
            let buf_index = (50 * point.y + (point.x - 49 * 8) / 8) as usize;
            let offset = (7 - (point.x - 49 * 8) % 8) as u8;
            let bw_value = self.buffer1[buf_index];
            let r_value = self.buffer3[buf_index];
            Some(get_gray_from_values(offset, bw_value, r_value))
        }
    }

    /// Clears both secondary planes to zero.
    pub fn clear_secondary(&mut self)
        requires
            old(self)@.wf(),
        ensures
            final(self)@.wf(),
            final(self)@ == old(self)@.with_secondary_cleared(),
    {
        self.buffer2 = filled_plane(0);
        self.buffer3 = filled_plane(0);
    }

    /// Copies each primary plane over the secondary plane of its half.
    pub fn copy_primary_to_secondary(&mut self)
        requires
            old(self)@.wf(),
        ensures
            final(self)@.wf(),
            final(self)@ == old(self)@.with_secondary_from_primary(),
    {
        self.buffer2 = self.buffer0.clone();
        self.buffer3 = self.buffer1.clone();
    }
}

/// Whether pixel `(x2, y2)` comes before pixel `(x, y)` in a walk that goes
/// through the columns from the left and through each column from the top.
pub open spec fn walked(x2: int, y2: int, x: int, y: int) -> bool {
    x2 < x || (x2 == x && y2 < y)
}

/// Whether `after` is `before` rewritten from the binary to the gray
/// encoding by `f`: every pixel holds, in every half that holds it, a gray
/// level that `f` gives for the binary colour that was read for it.
pub open spec fn remapped_to_gray<F: Fn(BinaryColor) -> Gray2>(
    f: F,
    before: Planes,
    after: Planes,
) -> bool {
    &&& after.wf()
    &&& forall|x: int, y: int|
        in_screen(x, y) ==> call_ensures(f, (before.binary_at(x, y),), #[trigger] after.gray_at(x, y))
            && after.shows_gray(x, y, after.gray_at(x, y))
}

/// Whether `after` is `before` rewritten from the gray to the binary
/// encoding by `f`: every pixel holds, in every half that holds it, a binary
/// colour that `f` gives for the gray level that was read for it, and the
/// secondary planes are as before.
pub open spec fn remapped_to_binary<F: Fn(Gray2) -> BinaryColor>(
    f: F,
    before: Planes,
    after: Planes,
) -> bool {
    &&& after.wf()
    &&& after.master_secondary == before.master_secondary
    &&& after.slave_secondary == before.slave_secondary
    &&& forall|x: int, y: int|
        in_screen(x, y) ==> call_ensures(f, (before.gray_at(x, y),), #[trigger] after.binary_at(x, y))
            && after.shows_binary(x, y, after.binary_at(x, y))
}

/// The planes after the pixels are drawn in order in the binary encoding;
/// pixels off the panel are left out.
pub open spec fn drawn_binary(planes: Planes, pixels: Seq<Pixel<BinaryColor>>) -> Planes
    decreases pixels.len(),
{
    if pixels.len() == 0 {
        planes
    } else {
        let earlier = drawn_binary(planes, pixels.drop_last());
        let Pixel(point, color) = pixels.last();
        if in_screen(point.x as int, point.y as int) {
            earlier.with_binary(point.x as int, point.y as int, color)
        } else {
            earlier
        }
    }
}

/// The planes after the pixels are drawn in order in the gray encoding;
/// pixels off the panel are left out.
pub open spec fn drawn_gray(planes: Planes, pixels: Seq<Pixel<Gray2>>) -> Planes
    decreases pixels.len(),
{
    if pixels.len() == 0 {
        planes
    } else {
        let earlier = drawn_gray(planes, pixels.drop_last());
        let Pixel(point, color) = pixels.last();
        if in_screen(point.x as int, point.y as int) {
            earlier.with_gray(point.x as int, point.y as int, color)
        } else {
            earlier
        }
    }
}

impl Framebuffer {
    /// Rewrites every pixel from the binary encoding to the gray encoding:
    /// each pixel gets a gray level that `f` gives for its binary colour, in
    /// every half that holds it.
    pub fn remap_to_gray<F: Fn(BinaryColor) -> Gray2>(&mut self, f: F)
        requires
            old(self)@.wf(),
            forall|c: BinaryColor| call_requires(f, (c,)),
        ensures
            remapped_to_gray(f, old(self)@, final(self)@),
    {
        let mut x: i32 = 0;
        while x < 792
            invariant
                0 <= x <= 792,
                self@.wf(),
                forall|c: BinaryColor| call_requires(f, (c,)),
                forall|x2: int, y2: int|
                    in_screen(x2, y2) && x2 < x ==> call_ensures(
                        f,
                        (old(self)@.binary_at(x2, y2),),
                        #[trigger] self@.gray_at(x2, y2),
                    ) && self@.shows_gray(x2, y2, self@.gray_at(x2, y2)),
                forall|x2: int, y2: int|
                    in_screen(x2, y2) && x2 >= x ==> #[trigger] self@.binary_at(x2, y2) == old(
                        self,
                    )@.binary_at(x2, y2),
            decreases 792 - x,
        {
            let mut y: i32 = 0;
            while y < 272
                invariant
                    0 <= x < 792,
                    0 <= y <= 272,
                    self@.wf(),
                    forall|c: BinaryColor| call_requires(f, (c,)),
                    forall|x2: int, y2: int|
                        in_screen(x2, y2) && walked(x2, y2, x as int, y as int) ==> call_ensures(
                            f,
                            (old(self)@.binary_at(x2, y2),),
                            #[trigger] self@.gray_at(x2, y2),
                        ) && self@.shows_gray(x2, y2, self@.gray_at(x2, y2)),
                    forall|x2: int, y2: int|
                        in_screen(x2, y2) && !walked(x2, y2, x as int, y as int)
                            ==> #[trigger] self@.binary_at(x2, y2) == old(self)@.binary_at(x2, y2),
                decreases 272 - y,
            {
                let point = Point::new(x, y);
                let ghost before = self@;
                match self.get_binary(point) {
                    Some(color) => {
                        let gray = f(color);
                        self.set_gray(point, gray);
                        proof {
                            lemma_gray_round_trip(before, x as int, y as int, gray);
                            assert forall|x2: int, y2: int|
                                in_screen(x2, y2) && walked(
                                    x2,
                                    y2,
                                    x as int,
                                    y as int + 1,
                                ) implies call_ensures(
                                f,
                                (old(self)@.binary_at(x2, y2),),
                                #[trigger] self@.gray_at(x2, y2),
                            ) && self@.shows_gray(x2, y2, self@.gray_at(x2, y2)) by {
                                if x2 != x || y2 != y {
                                    lemma_gray_frame(before, x as int, y as int, gray, x2, y2);
                                    assert(before.gray_at(x2, y2) == self@.gray_at(x2, y2));
                                }
                            }
                            assert forall|x2: int, y2: int|
                                in_screen(x2, y2) && !walked(
                                    x2,
                                    y2,
                                    x as int,
                                    y as int + 1,
                                ) implies #[trigger] self@.binary_at(x2, y2) == old(
                                self,
                            )@.binary_at(x2, y2) by {
                                lemma_gray_frame(before, x as int, y as int, gray, x2, y2);
                                assert(before.binary_at(x2, y2) == old(self)@.binary_at(x2, y2));
                            }
                        }
                    },
                    None => {},
                }
                y += 1;
            }
            x += 1;
        }
    }

    /// Rewrites every pixel from the gray encoding to the binary encoding:
    /// each pixel gets a binary colour that `f` gives for its gray level, in
    /// every half that holds it. The secondary planes keep their contents.
    pub fn remap_to_binary<F: Fn(Gray2) -> BinaryColor>(&mut self, f: F)
        requires
            old(self)@.wf(),
            forall|c: Gray2| call_requires(f, (c,)),
        ensures
            remapped_to_binary(f, old(self)@, final(self)@),
    {
        let mut x: i32 = 0;
        while x < 792
            invariant
                0 <= x <= 792,
                self@.wf(),
                self@.master_secondary == old(self)@.master_secondary,
                self@.slave_secondary == old(self)@.slave_secondary,
                forall|c: Gray2| call_requires(f, (c,)),
                forall|x2: int, y2: int|
                    in_screen(x2, y2) && x2 < x ==> call_ensures(
                        f,
                        (old(self)@.gray_at(x2, y2),),
                        #[trigger] self@.binary_at(x2, y2),
                    ) && self@.shows_binary(x2, y2, self@.binary_at(x2, y2)),
                forall|x2: int, y2: int|
                    in_screen(x2, y2) && x2 >= x ==> #[trigger] self@.gray_at(x2, y2) == old(
                        self,
                    )@.gray_at(x2, y2),
            decreases 792 - x,
        {
            let mut y: i32 = 0;
            while y < 272
                invariant
                    0 <= x < 792,
                    0 <= y <= 272,
                    self@.wf(),
                    self@.master_secondary == old(self)@.master_secondary,
                    self@.slave_secondary == old(self)@.slave_secondary,
                    forall|c: Gray2| call_requires(f, (c,)),
                    forall|x2: int, y2: int|
                        in_screen(x2, y2) && walked(x2, y2, x as int, y as int) ==> call_ensures(
                            f,
                            (old(self)@.gray_at(x2, y2),),
                            #[trigger] self@.binary_at(x2, y2),
                        ) && self@.shows_binary(x2, y2, self@.binary_at(x2, y2)),
                    forall|x2: int, y2: int|
                        in_screen(x2, y2) && !walked(x2, y2, x as int, y as int)
                            ==> #[trigger] self@.gray_at(x2, y2) == old(self)@.gray_at(x2, y2),
                decreases 272 - y,
            {
                let point = Point::new(x, y);
                let ghost before = self@;
                match self.get_gray(point) {
                    Some(color) => {
                        let binary = f(color);
                        self.set_binary(point, binary);
                        proof {
                            lemma_binary_round_trip(before, x as int, y as int, binary);
                            assert forall|x2: int, y2: int|
                                in_screen(x2, y2) && walked(
                                    x2,
                                    y2,
                                    x as int,
                                    y as int + 1,
                                ) implies call_ensures(
                                f,
                                (old(self)@.gray_at(x2, y2),),
                                #[trigger] self@.binary_at(x2, y2),
                            ) && self@.shows_binary(x2, y2, self@.binary_at(x2, y2)) by {
                                if x2 != x || y2 != y {
                                    lemma_binary_frame(before, x as int, y as int, binary, x2, y2);
                                    assert(before.binary_at(x2, y2) == self@.binary_at(x2, y2));
                                }
                            }
                            assert forall|x2: int, y2: int|
                                in_screen(x2, y2) && !walked(
                                    x2,
                                    y2,
                                    x as int,
                                    y as int + 1,
                                ) implies #[trigger] self@.gray_at(x2, y2) == old(
                                self,
                            )@.gray_at(x2, y2) by {
                                lemma_binary_frame(before, x as int, y as int, binary, x2, y2);
                                assert(before.gray_at(x2, y2) == old(self)@.gray_at(x2, y2));
                            }
                        }
                    },
                    None => {},
                }
                y += 1;
            }
            x += 1;
        }
    }
}

impl Framebuffer {
    /// Draws the pixels in order in the binary encoding.
    pub fn draw_binary(&mut self, pixels: &[Pixel<BinaryColor>])
        requires
            old(self)@.wf(),
        ensures
            final(self)@.wf(),
            final(self)@ == drawn_binary(old(self)@, pixels@),
    {
        let mut i: usize = 0;
        while i < pixels.len()
            invariant
                i <= pixels@.len(),
                self@.wf(),
                self@ == drawn_binary(old(self)@, pixels@.take(i as int)),
            decreases pixels@.len() - i,
        {
            let Pixel(point, color) = pixels[i];
            self.set_binary(point, color);
            proof {
                assert(pixels@.take(i + 1).drop_last() =~= pixels@.take(i as int));
            }
            i += 1;
        }
        proof {
            assert(pixels@.take(i as int) =~= pixels@);
        }
    }

    /// Draws the pixels in order in the gray encoding.
    pub fn draw_gray(&mut self, pixels: &[Pixel<Gray2>])
        requires
            old(self)@.wf(),
        ensures
            final(self)@.wf(),
            final(self)@ == drawn_gray(old(self)@, pixels@),
    {
        let mut i: usize = 0;
        while i < pixels.len()
            invariant
                i <= pixels@.len(),
                self@.wf(),
                self@ == drawn_gray(old(self)@, pixels@.take(i as int)),
            decreases pixels@.len() - i,
        {
            let Pixel(point, color) = pixels[i];
            self.set_gray(point, color);
            proof {
                assert(pixels@.take(i + 1).drop_last() =~= pixels@.take(i as int));
            }
            i += 1;
        }
        proof {
            assert(pixels@.take(i as int) =~= pixels@);
        }
    }
}

} // verus!
