use embedded_graphics_core::pixelcolor::GrayColor;
use waveshare_epd::color::{
    binary_from_gray, gray_from_binary, BinaryColor, Gray2, Pixel, Point,
};
use waveshare_epd::framebuffer::{
    get_binary_from_value, get_gray_from_values, is_point_in_screen, set_binary_value,
    set_gray_value, Framebuffer, Plane, HIGH, PLANE_LEN, WIDTH,
};

fn all_planes(fb: &Framebuffer) -> [Vec<u8>; 4] {
    [
        fb.plane(Plane::MasterPrimary).clone(),
        fb.plane(Plane::SlavePrimary).clone(),
        fb.plane(Plane::MasterSecondary).clone(),
        fb.plane(Plane::SlaveSecondary).clone(),
    ]
}

#[test]
fn geometry_constants() {
    assert_eq!(WIDTH, 792);
    assert_eq!(HIGH, 272);
    assert_eq!(PLANE_LEN, 13600);
}

#[test]
fn blank_planes_have_every_bit_set() {
    let fb = Framebuffer::new();
    for plane in all_planes(&fb) {
        assert_eq!(plane.len(), 13600);
        assert!(plane.iter().all(|b| *b == 0xff));
    }
    assert_eq!(fb.get_binary(Point::new(0, 0)), Some(BinaryColor::On));
    assert_eq!(fb.get_gray(Point::new(791, 271)), Some(Gray2::White));
}

#[test]
fn byte_helpers() {
    let mut value = 0b0000_0000u8;
    set_binary_value(BinaryColor::On, 7, &mut value);
    assert_eq!(value, 0b1000_0000);
    set_binary_value(BinaryColor::On, 0, &mut value);
    assert_eq!(value, 0b1000_0001);
    set_binary_value(BinaryColor::Off, 7, &mut value);
    assert_eq!(value, 0b0000_0001);
    assert_eq!(get_binary_from_value(0, value), BinaryColor::On);
    assert_eq!(get_binary_from_value(1, value), BinaryColor::Off);

    let mut bw = 0u8;
    let mut r = 0xffu8;
    set_gray_value(Gray2::new(1), 3, &mut bw, &mut r);
    assert_eq!((bw, r), (0b0000_1000, 0b1111_0111));
    set_gray_value(Gray2::new(2), 3, &mut bw, &mut r);
    assert_eq!((bw, r), (0, 0xff));
    set_gray_value(Gray2::new(3), 0, &mut bw, &mut r);
    assert_eq!((bw, r), (1, 0xff));
    set_gray_value(Gray2::new(0), 0, &mut bw, &mut r);
    assert_eq!((bw, r), (0, 0xfe));
    assert_eq!(get_gray_from_values(3, 0b1000, 0b1000), Gray2::White);
    assert_eq!(get_gray_from_values(3, 0b0000, 0b1000), Gray2::Light);
    assert_eq!(get_gray_from_values(3, 0b1000, 0b0000), Gray2::Dark);
    assert_eq!(get_gray_from_values(3, 0b0000, 0b0000), Gray2::Black);
}

#[test]
fn gray_levels() {
    assert_eq!(Gray2::new(0), Gray2::Black);
    assert_eq!(Gray2::new(1), Gray2::Dark);
    assert_eq!(Gray2::new(2), Gray2::Light);
    assert_eq!(Gray2::new(3), Gray2::White);
    assert_eq!(Gray2::new(255), Gray2::White);
    assert_eq!(Gray2::new(6), Gray2::Light);
    for luma in 0..4u8 {
        assert_eq!(Gray2::new(luma).luma(), luma);
    }
    assert!(BinaryColor::On.is_on());
    assert!(!BinaryColor::Off.is_on());
    assert_eq!(BinaryColor::from_bool(true), BinaryColor::On);
    assert_eq!(BinaryColor::from_bool(false), BinaryColor::Off);
}

#[test]
fn default_conversions() {
    assert_eq!(binary_from_gray(Gray2::Black), BinaryColor::Off);
    assert_eq!(binary_from_gray(Gray2::Dark), BinaryColor::Off);
    assert_eq!(binary_from_gray(Gray2::Light), BinaryColor::On);
    assert_eq!(binary_from_gray(Gray2::White), BinaryColor::On);
    assert_eq!(gray_from_binary(BinaryColor::On), Gray2::White);
    assert_eq!(gray_from_binary(BinaryColor::Off), Gray2::Black);
}

#[test]
fn default_conversions_match_embedded_graphics() {
    for luma in 0..4u8 {
        let theirs = embedded_graphics_core::pixelcolor::BinaryColor::from(
            embedded_graphics_core::pixelcolor::Gray2::new(luma),
        );
        assert_eq!(binary_from_gray(Gray2::new(luma)).is_on(), theirs.is_on());
    }
    for on in [false, true] {
        let theirs = embedded_graphics_core::pixelcolor::Gray2::from(
            embedded_graphics_core::pixelcolor::BinaryColor::from(on),
        );
        assert_eq!(gray_from_binary(BinaryColor::from_bool(on)).luma(), theirs.luma());
    }
}

#[test]
fn point_in_screen() {
    assert!(is_point_in_screen(Point::new(0, 0)));
    assert!(is_point_in_screen(Point::new(791, 271)));
    assert!(!is_point_in_screen(Point::new(792, 0)));
    assert!(!is_point_in_screen(Point::new(0, 272)));
    assert!(!is_point_in_screen(Point::new(-1, 0)));
    assert!(!is_point_in_screen(Point::new(0, -1)));
}

#[test]
fn binary_addressing_is_bit_exact() {
    let mut fb = Framebuffer::new();
    fb.set_binary(Point::new(0, 0), BinaryColor::Off);
    assert_eq!(fb.plane(Plane::MasterPrimary)[0], 0x7f);
    fb.set_binary(Point::new(7, 0), BinaryColor::Off);
    assert_eq!(fb.plane(Plane::MasterPrimary)[0], 0x7e);
    fb.set_binary(Point::new(8, 2), BinaryColor::Off);
    assert_eq!(fb.plane(Plane::MasterPrimary)[101], 0x7f);
    // the last column lies in the slave half only: byte 49 of its row
    fb.set_binary(Point::new(791, 271), BinaryColor::Off);
    assert_eq!(fb.plane(Plane::SlavePrimary)[50 * 271 + 49], 0xfe);
    // the first column of the slave half alone
    fb.set_binary(Point::new(400, 1), BinaryColor::Off);
    assert_eq!(fb.plane(Plane::SlavePrimary)[50 + 1], 0x7f);
    assert_eq!(fb.plane(Plane::MasterPrimary)[50 + 49], 0xff);
    // the last column of the master half alone
    fb.set_binary(Point::new(391, 1), BinaryColor::Off);
    assert_eq!(fb.plane(Plane::MasterPrimary)[50 + 48], 0xfe);
    assert_eq!(fb.plane(Plane::SlavePrimary)[50], 0xff);
    // nothing was written to the secondary planes
    assert!(fb.plane(Plane::MasterSecondary).iter().all(|b| *b == 0xff));
    assert!(fb.plane(Plane::SlaveSecondary).iter().all(|b| *b == 0xff));
}

#[test]
fn binary_round_trip_everywhere() {
    let mut fb = Framebuffer::new();
    for x in (0..792).step_by(7).chain(388..404).chain(784..792) {
        for y in [0, 1, 135, 270, 271] {
            let p = Point::new(x, y);
            fb.set_binary(p, BinaryColor::Off);
            assert_eq!(fb.get_binary(p), Some(BinaryColor::Off));
            fb.set_binary(p, BinaryColor::On);
            assert_eq!(fb.get_binary(p), Some(BinaryColor::On));
        }
    }
}

#[test]
fn gray_round_trip_all_levels() {
    let mut fb = Framebuffer::new();
    for x in (0..792).step_by(11).chain(388..404).chain(784..792) {
        for y in [0, 100, 271] {
            for luma in 0..4u8 {
                let p = Point::new(x, y);
                fb.set_gray(p, Gray2::new(luma));
                assert_eq!(fb.get_gray(p), Some(Gray2::new(luma)));
            }
        }
    }
}

#[test]
fn gray_encoding_table() {
    let mut fb = Framebuffer::new();
    let p = Point::new(3, 0);
    let bits = |fb: &Framebuffer| {
        (
            fb.plane(Plane::MasterPrimary)[0] & 0x10 != 0,
            fb.plane(Plane::MasterSecondary)[0] & 0x10 != 0,
        )
    };
    fb.set_gray(p, Gray2::new(0));
    assert_eq!(bits(&fb), (false, false));
    fb.set_gray(p, Gray2::new(1));
    assert_eq!(bits(&fb), (true, false));
    fb.set_gray(p, Gray2::new(2));
    assert_eq!(bits(&fb), (false, true));
    fb.set_gray(p, Gray2::new(3));
    assert_eq!(bits(&fb), (true, true));
}

#[test]
fn out_of_bounds_points() {
    let mut fb = Framebuffer::new();
    fb.set_gray(Point::new(10, 10), Gray2::new(1));
    let before = all_planes(&fb);
    for p in [
        Point::new(-1, 0),
        Point::new(792, 0),
        Point::new(0, -1),
        Point::new(0, 272),
        Point::new(i32::MIN, i32::MIN),
        Point::new(i32::MAX, i32::MAX),
        Point::new(1000, 5),
    ] {
        assert_eq!(fb.get_binary(p), None);
        assert_eq!(fb.get_gray(p), None);
        fb.set_binary(p, BinaryColor::Off);
        fb.set_gray(p, Gray2::new(0));
        assert_eq!(all_planes(&fb), before);
    }
}

#[test]
fn overlap_band_is_written_to_both_halves() {
    let mut fb = Framebuffer::new();
    let p = Point::new(395, 3);
    fb.set_binary(p, BinaryColor::Off);
    // master path: byte 49 of row 3, bit 7 - 3
    assert_eq!(fb.plane(Plane::MasterPrimary)[50 * 3 + 49], 0b1110_1111);
    // slave path: byte 0 of row 3, bit 7 - 3
    assert_eq!(fb.plane(Plane::SlavePrimary)[50 * 3], 0b1110_1111);
    assert_eq!(fb.get_binary(p), Some(BinaryColor::Off));

    fb.set_gray(p, Gray2::new(2));
    assert_eq!(fb.plane(Plane::MasterPrimary)[50 * 3 + 49], 0b1110_1111);
    assert_eq!(fb.plane(Plane::SlavePrimary)[50 * 3], 0b1110_1111);
    assert_eq!(fb.plane(Plane::MasterSecondary)[50 * 3 + 49], 0xff);
    assert_eq!(fb.plane(Plane::SlaveSecondary)[50 * 3], 0xff);
    fb.set_gray(p, Gray2::new(1));
    assert_eq!(fb.plane(Plane::MasterPrimary)[50 * 3 + 49], 0xff);
    assert_eq!(fb.plane(Plane::SlavePrimary)[50 * 3], 0xff);
    assert_eq!(fb.plane(Plane::MasterSecondary)[50 * 3 + 49], 0b1110_1111);
    assert_eq!(fb.plane(Plane::SlaveSecondary)[50 * 3], 0b1110_1111);
    for x in 392..400 {
        let q = Point::new(x, 200);
        fb.set_binary(q, BinaryColor::Off);
        let shift = 7 - (x % 8) as u8;
        assert_eq!(fb.plane(Plane::MasterPrimary)[50 * 200 + 49] & (1 << shift), 0);
        assert_eq!(fb.plane(Plane::SlavePrimary)[50 * 200] & (1 << shift), 0);
    }
}

#[test]
fn reads_in_the_overlap_band_come_from_the_master_half() {
    let mut fb = Framebuffer::new();
    // only the slave half knows column 400; writing it must not change what
    // is read for the shared column 399
    fb.set_binary(Point::new(400, 0), BinaryColor::Off);
    assert_eq!(fb.get_binary(Point::new(399, 0)), Some(BinaryColor::On));
    fb.set_binary(Point::new(399, 0), BinaryColor::Off);
    assert_eq!(fb.plane(Plane::MasterPrimary)[49], 0xfe);
    assert_eq!(fb.get_binary(Point::new(399, 0)), Some(BinaryColor::Off));
}

#[test]
fn writing_one_pixel_leaves_the_others() {
    let mut fb = Framebuffer::new();
    fb.set_gray(Point::new(396, 9), Gray2::new(0));
    for x in 380..410 {
        for y in 8..11 {
            let expect = if (x, y) == (396, 9) { Gray2::Black } else { Gray2::White };
            assert_eq!(fb.get_gray(Point::new(x, y)), Some(expect));
        }
    }
}

#[test]
fn secondary_planes_clear_and_copy() {
    let mut fb = Framebuffer::new();
    fb.set_binary(Point::new(5, 5), BinaryColor::Off);
    fb.set_binary(Point::new(700, 5), BinaryColor::Off);
    let primary = (
        fb.plane(Plane::MasterPrimary).clone(),
        fb.plane(Plane::SlavePrimary).clone(),
    );
    fb.clear_secondary();
    assert!(fb.plane(Plane::MasterSecondary).iter().all(|b| *b == 0));
    assert!(fb.plane(Plane::SlaveSecondary).iter().all(|b| *b == 0));
    assert_eq!(fb.plane(Plane::MasterSecondary).len(), 13600);
    assert_eq!(fb.plane(Plane::MasterPrimary), &primary.0);
    assert_eq!(fb.plane(Plane::SlavePrimary), &primary.1);
    fb.copy_primary_to_secondary();
    assert_eq!(fb.plane(Plane::MasterSecondary), &primary.0);
    assert_eq!(fb.plane(Plane::SlaveSecondary), &primary.1);
    assert_eq!(fb.plane(Plane::MasterPrimary), &primary.0);
    assert_eq!(fb.plane(Plane::SlavePrimary), &primary.1);
}

#[test]
fn remap_with_default_conversions() {
    let mut fb = Framebuffer::new();
    fb.set_binary(Point::new(10, 10), BinaryColor::Off);
    fb.set_binary(Point::new(395, 10), BinaryColor::Off);
    fb.set_binary(Point::new(500, 10), BinaryColor::Off);
    fb.remap_to_gray(gray_from_binary);
    for x in 0..792 {
        let expect = if x == 10 || x == 395 || x == 500 { Gray2::Black } else { Gray2::White };
        assert_eq!(fb.get_gray(Point::new(x, 10)), Some(expect));
    }
    // both halves agree on the shared column
    assert_eq!(fb.plane(Plane::MasterPrimary)[50 * 10 + 49], 0b1110_1111);
    assert_eq!(fb.plane(Plane::SlavePrimary)[50 * 10], 0b1110_1111);
    assert_eq!(fb.plane(Plane::MasterSecondary)[50 * 10 + 49], 0b1110_1111);
    assert_eq!(fb.plane(Plane::SlaveSecondary)[50 * 10], 0b1110_1111);

    fb.set_gray(Point::new(20, 20), Gray2::new(1));
    fb.set_gray(Point::new(21, 20), Gray2::new(2));
    let secondary = fb.plane(Plane::MasterSecondary).clone();
    fb.remap_to_binary(binary_from_gray);
    assert_eq!(fb.get_binary(Point::new(20, 20)), Some(BinaryColor::Off));
    assert_eq!(fb.get_binary(Point::new(21, 20)), Some(BinaryColor::On));
    assert_eq!(fb.get_binary(Point::new(10, 10)), Some(BinaryColor::Off));
    assert_eq!(fb.get_binary(Point::new(11, 10)), Some(BinaryColor::On));
    assert_eq!(fb.plane(Plane::MasterSecondary), &secondary);
}

#[test]
fn remap_with_a_custom_conversion() {
    let mut fb = Framebuffer::new();
    fb.set_binary(Point::new(1, 1), BinaryColor::Off);
    fb.remap_to_gray(|c: BinaryColor| if c.is_on() { Gray2::new(2) } else { Gray2::new(1) });
    assert_eq!(fb.get_gray(Point::new(1, 1)), Some(Gray2::Dark));
    assert_eq!(fb.get_gray(Point::new(2, 1)), Some(Gray2::Light));
    assert_eq!(fb.get_gray(Point::new(791, 271)), Some(Gray2::Light));
    fb.remap_to_binary(|c: Gray2| BinaryColor::from_bool(c.luma() == 1));
    assert_eq!(fb.get_binary(Point::new(1, 1)), Some(BinaryColor::On));
    assert_eq!(fb.get_binary(Point::new(2, 1)), Some(BinaryColor::Off));
}

#[test]
fn drawing_a_list_of_pixels() {
    let mut fb = Framebuffer::new();
    fb.draw_binary(&[
        Pixel(Point::new(0, 0), BinaryColor::Off),
        Pixel(Point::new(-5, 0), BinaryColor::Off),
        Pixel(Point::new(1, 0), BinaryColor::Off),
        Pixel(Point::new(0, 0), BinaryColor::On),
    ]);
    assert_eq!(fb.plane(Plane::MasterPrimary)[0], 0b1011_1111);
    fb.draw_gray(&[
        Pixel(Point::new(2, 0), Gray2::new(1)),
        Pixel(Point::new(900, 0), Gray2::new(1)),
    ]);
    assert_eq!(fb.get_gray(Point::new(2, 0)), Some(Gray2::Dark));
    assert_eq!(fb.plane(Plane::MasterSecondary)[0], 0b1101_1111);
}
