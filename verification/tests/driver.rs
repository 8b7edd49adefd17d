use waveshare_epd::color::{BinaryColor, ColorInBuf, Gray2, Pixel, Point};
use waveshare_epd::epd5in79::{
    DisplayMode, Epd5in79, Epd5in79Impl, BUSY_TIMEOUT, CHUNK_SIZE, LUT_DATA,
};
use waveshare_epd::error::{Error, TimeOutError, TransportError};
use waveshare_epd::framebuffer::Plane;
use waveshare_epd::hardware::{DelayStep, Line};
use waveshare_epd::simulator::{Record, Simulator};

/// What the record shows, with every transfer joined to its command.
#[derive(Debug, PartialEq, Eq, Clone)]
enum Seen {
    Line(Line, bool),
    Register(u8, Vec<u8>),
    Pause,
    Idle,
    Busy,
    Fault(TransportError),
}

fn seen(log: &[Record]) -> Vec<Seen> {
    let mut out = Vec::new();
    let mut data = false;
    for record in log {
        match record {
            Record::Drive { line: Line::DataCommand, on } => data = *on,
            Record::Drive { line: Line::ChipSelect, .. } => {}
            Record::Drive { line, on } => out.push(Seen::Line(*line, *on)),
            Record::Write { bytes } => {
                if data {
                    match out.last_mut() {
                        Some(Seen::Register(_, payload)) => payload.extend_from_slice(bytes),
                        _ => panic!("data without a command"),
                    }
                } else {
                    assert_eq!(bytes.len(), 1);
                    out.push(Seen::Register(bytes[0], Vec::new()));
                }
            }
            Record::Delay { step } => {
                assert_eq!(*step, DelayStep::Us(200));
                if out.last() == Some(&Seen::Busy) {
                    out.pop();
                } else {
                    out.push(Seen::Pause);
                }
            }
            Record::Sample { busy: true } => out.push(Seen::Busy),
            Record::Sample { busy: false } => out.push(Seen::Idle),
            Record::Fault { error } => out.push(Seen::Fault(*error)),
        }
    }
    out
}

fn reg(cmd: u8, data: &[u8]) -> Seen {
    Seen::Register(cmd, data.to_vec())
}

fn wake() -> Vec<Seen> {
    vec![
        Seen::Line(Line::Power, true),
        Seen::Line(Line::Reset, true),
        Seen::Pause,
        Seen::Line(Line::Reset, false),
        Seen::Pause,
        Seen::Line(Line::Reset, true),
        Seen::Pause,
        Seen::Idle,
    ]
}

fn sw_reset() -> Vec<Seen> {
    vec![reg(0x12, &[]), Seen::Idle]
}

fn address_window() -> Vec<Seen> {
    vec![
        reg(0x11, &[0x01]),
        reg(0x44, &[0x00, 0x31]),
        reg(0x45, &[0x0f, 0x01, 0x00, 0x00]),
        reg(0x4e, &[0x00]),
        reg(0x4f, &[0x0f, 0x01]),
        reg(0x91, &[0x00]),
        reg(0xc4, &[0x31, 0x00]),
        reg(0xc5, &[0x0f, 0x01, 0x00, 0x00]),
        reg(0xce, &[0x31]),
        reg(0xcf, &[0x0f, 0x01]),
    ]
}

fn refresh(control: u8) -> Vec<Seen> {
    vec![reg(0x22, &[control]), reg(0x20, &[]), Seen::Pause, Seen::Idle]
}

fn planes<C: waveshare_epd::color::Encoding>(
    view: &Epd5in79<Simulator, C>,
    commands: &[(u8, Plane)],
) -> Vec<Seen> {
    commands
        .iter()
        .map(|(cmd, which)| Seen::Register(*cmd, view.frame().plane(*which).clone()))
        .collect()
}

const ALL: [(u8, Plane); 4] = [
    (0x24, Plane::MasterPrimary),
    (0x26, Plane::MasterSecondary),
    (0xa4, Plane::SlavePrimary),
    (0xa6, Plane::SlaveSecondary),
];

fn count(log: &[Seen], cmd: u8) -> usize {
    log.iter().filter(|s| matches!(s, Seen::Register(c, _) if *c == cmd)).count()
}

#[test]
fn constants() {
    assert_eq!(CHUNK_SIZE, 4096);
    assert_eq!(BUSY_TIMEOUT, 5_000_000_000);
    assert_eq!(LUT_DATA.len(), 227);
    assert_eq!(LUT_DATA[43], 0x4a);
    assert_eq!(LUT_DATA[224], 0x02);
    assert_eq!(LUT_DATA.iter().map(|b| *b as u32).sum::<u32>(), 1682);
}

#[test]
fn a_new_driver_sleeps_and_is_blank() {
    let epd = Epd5in79Impl::new(Simulator::new(), false);
    assert!(epd.power_on_dur().is_none());
    assert_eq!(epd.color_in_buf(), ColorInBuf::Binary);
    assert_eq!(epd.initialized_for(), None);
    assert!(epd.hardware().log().is_empty());
    assert!(epd.frame().plane(Plane::SlaveSecondary).iter().all(|b| *b == 0xff));
    let view = epd.as_binary();
    assert_eq!(view.size(), (792, 272));
    assert_eq!(view.pixel(Point::new(0, 0)), Some(BinaryColor::On));
    assert_eq!(view.pixel(Point::new(792, 0)), None);
}

#[test]
fn full_refresh_from_sleep() {
    let mut view = Epd5in79Impl::new(Simulator::new(), false).as_binary();
    view.display_binary_full().unwrap();
    let mut expected = wake();
    expected.extend(sw_reset());
    expected.extend(address_window());
    expected.extend(planes(&view, &ALL));
    expected.extend(refresh(0xf7));
    assert_eq!(seen(view.hardware().log()), expected);
    assert_eq!(view.initialized_for(), Some(DisplayMode::Full));
    assert!(view.power_on_dur().is_some());
}

#[test]
fn planes_are_sent_in_chunks_of_4096_bytes() {
    let mut view = Epd5in79Impl::new(Simulator::new(), false).as_binary();
    view.display_binary_full().unwrap();
    let log = view.hardware().log();
    let at = log
        .iter()
        .position(|r| *r == Record::Write { bytes: vec![0x24] })
        .unwrap();
    let sizes: Vec<usize> = log[at + 2..at + 6]
        .iter()
        .map(|r| match r {
            Record::Write { bytes } => bytes.len(),
            _ => panic!("expected a transfer"),
        })
        .collect();
    assert_eq!(sizes, vec![4096, 4096, 4096, 1312]);
    assert_eq!(log[at + 1], Record::Drive { line: Line::DataCommand, on: true });
    assert_eq!(log[at + 6], Record::Drive { line: Line::DataCommand, on: false });
}

#[test]
fn end_to_end_line_then_full_refresh_then_gray() {
    let mut view = Epd5in79Impl::new(Simulator::new(), true).as_binary();
    let line: Vec<Pixel<BinaryColor>> =
        (0..792).map(|x| Pixel(Point::new(x, 10), BinaryColor::Off)).collect();
    view.draw_iter(&line);
    view.display_binary_full().unwrap();

    for which in [Plane::MasterPrimary, Plane::SlavePrimary] {
        let plane = view.frame().plane(which);
        for (i, byte) in plane.iter().enumerate() {
            let expect = if i / 50 == 10 { 0x00 } else { 0xff };
            assert_eq!(*byte, expect, "byte {} of {:?}", i, which);
        }
    }
    for which in [Plane::MasterSecondary, Plane::SlaveSecondary] {
        assert!(view.frame().plane(which).iter().all(|b| *b == 0));
    }
    let sent = seen(view.hardware().log());
    assert_eq!(
        sent.iter().find(|s| matches!(s, Seen::Register(0x24, _))),
        Some(&Seen::Register(0x24, view.frame().plane(Plane::MasterPrimary).clone()))
    );
    assert_eq!(
        sent.iter().find(|s| matches!(s, Seen::Register(0xa6, _))),
        Some(&Seen::Register(0xa6, vec![0; 13600]))
    );

    // one pass over every pixel, then none
    let calls = std::cell::Cell::new(0u32);
    let epd = view.release();
    let gray = epd.as_gray2_with(|c: BinaryColor| {
        calls.set(calls.get() + 1);
        if c.is_on() { Gray2::White } else { Gray2::Black }
    });
    assert_eq!(calls.get(), 792 * 272);
    for x in [0, 391, 392, 395, 399, 400, 791] {
        assert_eq!(gray.pixel(Point::new(x, 10)), Some(Gray2::Black));
        assert_eq!(gray.pixel(Point::new(x, 11)), Some(Gray2::White));
    }
    let before = gray.frame().plane(Plane::MasterSecondary).clone();
    let again = gray.release().as_gray2_with(|c: BinaryColor| {
        calls.set(calls.get() + 1);
        if c.is_on() { Gray2::White } else { Gray2::Black }
    });
    assert_eq!(calls.get(), 792 * 272);
    assert_eq!(again.frame().plane(Plane::MasterSecondary), &before);
}

#[test]
fn remap_is_skipped_for_the_encoding_in_the_planes() {
    let mut view = Epd5in79Impl::new(Simulator::new(), false).as_binary();
    view.draw_iter(&[Pixel(Point::new(3, 3), BinaryColor::Off)]);
    let snapshot: Vec<Vec<u8>> = ALL.iter().map(|(_, p)| view.frame().plane(*p).clone()).collect();
    let view = view.release().as_binary_with(|_c: Gray2| panic!("no pixel is converted"));
    let now: Vec<Vec<u8>> = ALL.iter().map(|(_, p)| view.frame().plane(*p).clone()).collect();
    assert_eq!(now, snapshot);
    let epd = view.release();
    assert_eq!(epd.color_in_buf(), ColorInBuf::Binary);
    let gray = epd.as_gray2();
    let snapshot: Vec<Vec<u8>> = ALL.iter().map(|(_, p)| gray.frame().plane(*p).clone()).collect();
    let gray = gray.release().as_gray2_with(|_c: BinaryColor| panic!("no pixel is converted"));
    let now: Vec<Vec<u8>> = ALL.iter().map(|(_, p)| gray.frame().plane(*p).clone()).collect();
    assert_eq!(now, snapshot);
    assert_eq!(gray.release().color_in_buf(), ColorInBuf::Gray);
}

#[test]
fn default_conversion_between_the_views() {
    let mut gray = Epd5in79Impl::new(Simulator::new(), false).as_gray2();
    gray.draw_iter(&[
        Pixel(Point::new(0, 0), Gray2::new(0)),
        Pixel(Point::new(1, 0), Gray2::new(1)),
        Pixel(Point::new(2, 0), Gray2::new(2)),
        Pixel(Point::new(3, 0), Gray2::new(3)),
        Pixel(Point::new(395, 0), Gray2::new(1)),
    ]);
    let binary = gray.release().as_binary();
    assert_eq!(binary.pixel(Point::new(0, 0)), Some(BinaryColor::Off));
    assert_eq!(binary.pixel(Point::new(1, 0)), Some(BinaryColor::Off));
    assert_eq!(binary.pixel(Point::new(2, 0)), Some(BinaryColor::On));
    assert_eq!(binary.pixel(Point::new(3, 0)), Some(BinaryColor::On));
    assert_eq!(binary.pixel(Point::new(395, 0)), Some(BinaryColor::Off));
    assert_eq!(binary.frame().plane(Plane::SlavePrimary)[0], 0b1110_1111);
    let gray = binary.release().as_gray2();
    assert_eq!(gray.pixel(Point::new(1, 0)), Some(Gray2::Black));
    assert_eq!(gray.pixel(Point::new(2, 0)), Some(Gray2::White));
}

#[test]
fn second_refresh_in_the_same_mode_skips_the_set_up() {
    let mut view = Epd5in79Impl::new(Simulator::new(), false).as_binary();
    view.display_binary_full().unwrap();
    let first = seen(view.hardware().log()).len();
    view.draw_iter(&[Pixel(Point::new(1, 1), BinaryColor::Off)]);
    view.display_binary_full().unwrap();
    let all = seen(view.hardware().log());
    assert_eq!(count(&all, 0x12), 1);
    assert_eq!(count(&all, 0x11), 1);
    let mut expected = planes(&view, &ALL);
    expected.extend(refresh(0xf7));
    assert_eq!(&all[first..], &expected[..]);
}

#[test]
fn switching_the_mode_sets_the_panel_up_again() {
    let mut view = Epd5in79Impl::new(Simulator::new(), false).as_binary();
    view.display_binary_full().unwrap();
    let first = seen(view.hardware().log()).len();
    view.display_binary_fast().unwrap();
    assert_eq!(view.initialized_for(), Some(DisplayMode::Fast));
    let all = seen(view.hardware().log());
    // awake already: no power or reset pulse, only the software reset
    let mut expected = sw_reset();
    expected.extend(vec![
        reg(0x18, &[0x80]),
        reg(0x22, &[0xb1]),
        reg(0x20, &[]),
        Seen::Idle,
        reg(0x1a, &[0x64, 0x00]),
        reg(0x22, &[0x91]),
        reg(0x20, &[]),
        Seen::Idle,
    ]);
    expected.extend(address_window());
    expected.extend(planes(&view, &ALL));
    expected.extend(refresh(0xc7));
    assert_eq!(&all[first..], &expected[..]);
    view.display_binary_fast().unwrap();
    view.display_binary_full().unwrap();
    let all = seen(view.hardware().log());
    assert_eq!(count(&all, 0x12), 3);
    assert_eq!(count(&all, 0x18), 1);
    assert_eq!(count(&all, 0x20), 6);
}

#[test]
fn partial_refresh() {
    let mut view = Epd5in79Impl::new(Simulator::new(), false).as_binary();
    view.draw_iter(&[Pixel(Point::new(9, 9), BinaryColor::Off)]);
    view.display_binary_partial().unwrap();
    assert_eq!(view.initialized_for(), Some(DisplayMode::Partial));
    assert_eq!(
        view.frame().plane(Plane::MasterSecondary),
        view.frame().plane(Plane::MasterPrimary)
    );
    assert_eq!(
        view.frame().plane(Plane::SlaveSecondary),
        view.frame().plane(Plane::SlavePrimary)
    );
    let mut expected = wake();
    expected.extend(sw_reset());
    expected.push(reg(0x3c, &[0x80]));
    expected.extend(address_window());
    expected.extend(planes(
        &view,
        &[(0x26, Plane::MasterPrimary), (0xa6, Plane::SlavePrimary)],
    ));
    expected.extend(planes(
        &view,
        &[(0x24, Plane::MasterPrimary), (0xa4, Plane::SlavePrimary)],
    ));
    expected.extend(refresh(0xff));
    assert_eq!(seen(view.hardware().log()), expected);

    // the next partial refresh sends the new image only
    let first = expected.len();
    let old_image = view.frame().plane(Plane::MasterPrimary).clone();
    view.draw_iter(&[Pixel(Point::new(10, 9), BinaryColor::Off)]);
    view.display_binary_partial().unwrap();
    assert_eq!(view.frame().plane(Plane::MasterSecondary), &old_image);
    let all = seen(view.hardware().log());
    let mut expected = planes(
        &view,
        &[(0x24, Plane::MasterPrimary), (0xa4, Plane::SlavePrimary)],
    );
    expected.extend(refresh(0xff));
    assert_eq!(&all[first..], &expected[..]);
}

#[test]
fn gray_refresh() {
    let mut view = Epd5in79Impl::new(Simulator::new(), false).as_gray2();
    view.draw_iter(&[Pixel(Point::new(9, 9), Gray2::new(1))]);
    view.display_gray2().unwrap();
    assert_eq!(view.initialized_for(), Some(DisplayMode::Gray2));
    let mut expected = wake();
    expected.extend(sw_reset());
    expected.push(reg(0x0c, &[0x8b, 0x9c, 0xa6, 0x0f]));
    expected.push(reg(0x3c, &[0x81]));
    expected.extend(address_window());
    expected.push(reg(0x32, &LUT_DATA));
    expected.push(reg(0x3f, &[0x22]));
    expected.push(reg(0x03, &[0x17]));
    expected.push(reg(0x04, &[0x41, 0xa8, 0x32]));
    expected.push(reg(0x2c, &[0x40]));
    expected.extend(planes(&view, &ALL));
    expected.extend(refresh(0xcf));
    assert_eq!(seen(view.hardware().log()), expected);
    // the secondary planes carry the gray bits and are sent as they are
    assert_eq!(view.frame().plane(Plane::MasterSecondary)[50 * 9 + 1], 0b1011_1111);
    let first = expected.len();
    view.display_gray2().unwrap();
    assert_eq!(seen(view.hardware().log()).len(), first + 4 + 4);
}

#[test]
fn deep_sleep_is_sent_once() {
    let mut view = Epd5in79Impl::new(Simulator::new(), false).as_binary();
    // asleep from the start: nothing to do
    view.deep_sleep().unwrap();
    assert!(view.hardware().log().is_empty());
    view.display_binary_full().unwrap();
    assert!(view.power_on_dur().is_some());
    let first = seen(view.hardware().log()).len();
    view.deep_sleep().unwrap();
    assert!(view.power_on_dur().is_none());
    assert_eq!(view.initialized_for(), None);
    let all = seen(view.hardware().log());
    assert_eq!(
        &all[first..],
        &[
            reg(0x10, &[0x03]),
            Seen::Line(Line::Power, false),
            Seen::Line(Line::Reset, false),
        ][..]
    );
    let len = view.hardware().log().len();
    view.deep_sleep().unwrap();
    assert_eq!(view.hardware().log().len(), len);
    assert!(view.power_on_dur().is_none());
    assert_eq!(count(&seen(view.hardware().log()), 0x10), 1);
}

#[test]
fn refresh_after_sleep_wakes_the_panel_again() {
    let mut view = Epd5in79Impl::new(Simulator::new(), false).as_binary();
    view.display_binary_full().unwrap();
    view.deep_sleep().unwrap();
    let first = seen(view.hardware().log()).len();
    view.display_binary_full().unwrap();
    let all = seen(view.hardware().log());
    assert_eq!(&all[first..first + 8], &wake()[..]);
    assert_eq!(count(&all, 0x12), 2);
}

#[test]
fn wait_busy_is_refused_while_asleep() {
    let mut view = Epd5in79Impl::new(Simulator::new(), false).as_binary();
    assert_eq!(view.wait_busy(), Err(Error::DeepSleep));
    assert!(view.hardware().log().is_empty());
    view.display_binary_full().unwrap();
    let len = view.hardware().log().len();
    assert_eq!(view.wait_busy(), Ok(()));
    assert_eq!(view.hardware().log().len(), len + 1);
    assert_eq!(view.hardware().log().last(), Some(&Record::Sample { busy: false }));
}

#[test]
fn busy_panel_is_waited_for() {
    let mut sim = Simulator::new();
    sim.set_busy_samples(5);
    let mut view = Epd5in79Impl::new(sim, false).as_binary();
    view.display_binary_full().unwrap();
    let log = view.hardware().log();
    let busy = log.iter().filter(|r| **r == Record::Sample { busy: true }).count();
    assert_eq!(busy, 5);
    // the polls all belong to the wait after the reset pulse
    assert_eq!(log[7], Record::Sample { busy: true });
    assert_eq!(log[8], Record::Delay { step: DelayStep::Us(200) });
    assert_eq!(log[17], Record::Sample { busy: false });
}

#[test]
fn a_stuck_busy_line_times_out_after_five_seconds() {
    let mut sim = Simulator::new();
    sim.set_stuck(true);
    let mut view = Epd5in79Impl::new(sim, false).as_binary();
    let r = view.display_binary_full();
    assert_eq!(
        r,
        Err(Error::TimeOut(TimeOutError { timeout: 5_000_000_000, elapsed: 5_000_000_000 }))
    );
    // the wait after the reset pulse gave up: the panel never woke
    assert!(view.power_on_dur().is_none());
    assert_eq!(view.initialized_for(), None);
    let log = view.hardware().log();
    assert_eq!(log.len(), 7 + 2 * 25_000 + 1);
    assert_eq!(log.last(), Some(&Record::Sample { busy: true }));
    assert_eq!(count(&seen(log), 0x12), 0);
}

#[test]
fn a_fault_ends_the_refresh_and_the_next_one_starts_over() {
    let mut sim = Simulator::new();
    // power, three reset levels, one sample, command select, reset command, one sample
    sim.fail_after(10, TransportError::Bus);
    let mut view = Epd5in79Impl::new(sim, false).as_binary();
    let r = view.display_binary_full();
    assert_eq!(r, Err(Error::Transport(TransportError::Bus)));
    let all = seen(view.hardware().log());
    let mut expected = wake();
    expected.extend(sw_reset());
    expected.push(reg(0x11, &[]));
    expected.push(Seen::Fault(TransportError::Bus));
    assert_eq!(all, expected);
    assert_eq!(view.initialized_for(), None);
    assert!(view.power_on_dur().is_some());
    let secondary = view.frame().plane(Plane::MasterSecondary).clone();
    assert!(secondary.iter().all(|b| *b == 0xff));

    let first = all.len();
    view.display_binary_full().unwrap();
    let all = seen(view.hardware().log());
    let mut expected = sw_reset();
    expected.extend(address_window());
    expected.extend(planes(&view, &ALL));
    expected.extend(refresh(0xf7));
    assert_eq!(&all[first..], &expected[..]);
}

#[test]
fn a_failed_reset_forgets_the_mode() {
    // count the operations on lines and bus of a first refresh
    let mut view = Epd5in79Impl::new(Simulator::new(), false).as_binary();
    view.display_binary_full().unwrap();
    let operations = view
        .hardware()
        .log()
        .iter()
        .filter(|r| !matches!(r, Record::Delay { .. }))
        .count() as u64;

    // the same again, and then the reset command of the next mode fails
    let mut sim = Simulator::new();
    sim.fail_after(operations + 1, TransportError::Bus);
    let mut view = Epd5in79Impl::new(sim, false).as_binary();
    view.display_binary_full().unwrap();
    assert_eq!(view.initialized_for(), Some(DisplayMode::Full));
    let first = seen(view.hardware().log()).len();
    assert_eq!(view.display_binary_fast(), Err(Error::Transport(TransportError::Bus)));
    assert_eq!(view.initialized_for(), None);
    assert!(view.power_on_dur().is_some());
    let all = seen(view.hardware().log());
    assert_eq!(&all[first..], &[Seen::Fault(TransportError::Bus)][..]);

    // the mode that was set up before the failure is set up again
    let first = all.len();
    view.display_binary_full().unwrap();
    let all = seen(view.hardware().log());
    assert_eq!(&all[first..first + 2], &sw_reset()[..]);
    assert_eq!(count(&all, 0x11), 2);
}

#[test]
fn shutdown_sends_the_panel_to_sleep_and_swallows_faults() {
    let mut view = Epd5in79Impl::new(Simulator::new(), true).as_gray2();
    view.display_gray2().unwrap();
    let sim = view.release().shutdown();
    let all = seen(sim.log());
    assert_eq!(
        &all[all.len() - 3..],
        &[
            reg(0x10, &[0x03]),
            Seen::Line(Line::Power, false),
            Seen::Line(Line::Reset, false),
        ][..]
    );

    // a sleeping panel is left alone
    let sim = Epd5in79Impl::new(Simulator::new(), true).shutdown();
    assert!(sim.log().is_empty());

    // a fault during the sleep command is not reported
    let mut view = Epd5in79Impl::new(Simulator::new(), false).as_binary();
    view.display_binary_full().unwrap();
    let len = view.hardware().log().len();
    let mut sim = view.release().shutdown();
    assert_eq!(sim.log().len(), len + 6);
    sim.clear_log();
    let mut view = Epd5in79Impl::new(sim, false).as_binary();
    view.display_binary_full().unwrap();
    let epd = view.release();
    let len = epd.hardware().log().len();
    let mut sim = epd.shutdown();
    assert_eq!(sim.log().len(), len + 6);
    sim.clear_log();
    sim.fail_after(0, TransportError::Output);
    let mut view = Epd5in79Impl::new(sim, false).as_binary();
    let _ = view.display_binary_full();
    view.display_binary_full().unwrap();
    let mut epd = view.release();
    assert!(epd.power_on_dur().is_some());
    let _ = &mut epd;
    let sim = epd.shutdown();
    assert_eq!(seen(sim.log()).last(), Some(&Seen::Line(Line::Reset, false)));
}

#[test]
fn drawing_through_a_view_clips() {
    let mut view = Epd5in79Impl::new(Simulator::new(), false).as_binary();
    view.draw_iter(&[
        Pixel(Point::new(-1, -1), BinaryColor::Off),
        Pixel(Point::new(792, 271), BinaryColor::Off),
        Pixel(Point::new(791, 272), BinaryColor::Off),
    ]);
    for (_, which) in ALL {
        assert!(view.frame().plane(which).iter().all(|b| *b == 0xff));
    }
    view.draw_iter(&[Pixel(Point::new(791, 271), BinaryColor::Off)]);
    assert_eq!(view.pixel(Point::new(791, 271)), Some(BinaryColor::Off));
    assert!(view.hardware().log().is_empty());
}
