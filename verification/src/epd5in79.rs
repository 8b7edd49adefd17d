//! The driver for the 5.79 inch panel.
//!
//! The panel shows two colour encodings, binary and four gray levels, from
//! the same byte planes. [`Epd5in79Impl`] owns the planes, the transport and
//! the state of the panel. To draw and refresh, it is turned into a view for
//! one encoding, [`Epd5in79`]; turning it into the view of the other encoding
//! rewrites every pixel. A view is turned back with `release`.
use std::marker::PhantomData;
use std::time::{Duration, Instant};
use vstd::prelude::*;
use crate::color::{
    BinaryColor, ColorInBuf, Encoding, Gray2, Pixel, Point, binary_from_gray, binary_of_gray,
    gray_from_binary, gray_of_binary,
};
use crate::error::Error;
use crate::framebuffer::{
    Framebuffer, Plane, Planes, drawn_binary, drawn_gray, in_screen, remapped_to_binary,
    remapped_to_gray,
};
use crate::hardware::{DelayStep, Event, Hardware, Line};
use crate::protocol::{
    Outcome, Step, chain, lemma_performed_empty, lemma_performed_nothing, lemma_progress_start,
    lemma_run_never_declined, lemma_stepped, outcome_of, performed, progressed, stepped,
};
use crate::spi_interface::{
    SpiInterface, command_data_plan, command_plan, drive, pause, wait_plan,
};

verus! {

/// `Instant` of std, a reading of the monotonic clock; nothing is known of
/// what it holds.
#[verifier::external_type_specification]
#[verifier::external_body]
pub struct ExInstant(Instant);

/// `Instant::now` of std: the current reading of the monotonic clock. Nothing
/// is claimed of the reading.
pub assume_specification[ Instant::now ]() -> (now: Instant);

/// `Instant::elapsed` of std: the time since the reading was taken. Nothing
/// is claimed of the value.
pub assume_specification[ Instant::elapsed ](since: &Instant) -> (elapsed: Duration);

/// Largest single transfer on the bus, in bytes.
pub const CHUNK_SIZE: usize = 4096;

/// Bound on every wait for the busy line: five seconds, in nanoseconds.
pub const BUSY_TIMEOUT: u64 = 5000000000;

/// The waveform table for the gray refresh.
pub const LUT_DATA: [u8; 227] = [
    0x00, 0x00, 0x00, 0x00, 0x00, 0x00, 0x00,
    0x00, 0x00, 0x00, 0x00, 0x00, 0x00, 0x00,
    0x00, 0x00, 0x00, 0x00, 0x00, 0x00, 0x00,
    0x00, 0x00, 0x00, 0x00, 0x00, 0x00, 0x00,
    0x00, 0x00, 0x00, 0x00, 0x00, 0x00, 0x00,
    0x00, 0x00, 0x00, 0x00, 0x00, 0x00, 0x00,
    0x01, 0x4A, 0x00, 0x00, 0x00, 0x01, 0x00,
    0x01, 0x82, 0x42, 0x00, 0x00, 0x10, 0x00,
    0x01, 0x8A, 0x00, 0x00, 0x00, 0x01, 0x00,
    0x00, 0x00, 0x00, 0x00, 0x00, 0x00, 0x00,
    0x00, 0x00, 0x00, 0x00, 0x00, 0x00, 0x00,
    0x00, 0x00, 0x00, 0x00, 0x00, 0x00, 0x00,
    0x01, 0x41, 0x00, 0x00, 0x00, 0x01, 0x00,
    0x01, 0x82, 0x42, 0x00, 0x00, 0x10, 0x00,
    0x01, 0x81, 0x00, 0x00, 0x00, 0x01, 0x00,
    0x00, 0x00, 0x00, 0x00, 0x00, 0x00, 0x00,
    0x00, 0x00, 0x00, 0x00, 0x00, 0x00, 0x00,
    0x00, 0x00, 0x00, 0x00, 0x00, 0x00, 0x00,
    0x01, 0x81, 0x00, 0x00, 0x00, 0x01, 0x00,
    0x01, 0x82, 0x42, 0x00, 0x00, 0x10, 0x00,
    0x01, 0x41, 0x00, 0x00, 0x00, 0x01, 0x00,
    0x00, 0x00, 0x00, 0x00, 0x00, 0x00, 0x00,
    0x00, 0x00, 0x00, 0x00, 0x00, 0x00, 0x00,
    0x00, 0x00, 0x00, 0x00, 0x00, 0x00, 0x00,
    0x01, 0x8A, 0x00, 0x00, 0x00, 0x01, 0x00,
    0x01, 0x82, 0x42, 0x00, 0x00, 0x10, 0x00,
    0x01, 0x4A, 0x00, 0x00, 0x00, 0x01, 0x00,
    0x00, 0x00, 0x00, 0x00, 0x00, 0x00, 0x00,
    0x00, 0x00, 0x00, 0x00, 0x00, 0x00, 0x00,
    0x00, 0x00, 0x00, 0x00, 0x00, 0x00, 0x00,
    0x00, 0x00, 0x00, 0x00, 0x00, 0x00, 0x00,
    0x00, 0x00, 0x00, 0x00, 0x00, 0x00, 0x00,
    0x02, 0x00, 0x00,
];

/// A refresh mode of the panel.
#[derive(Clone, Copy, Debug, PartialEq, Eq, Structural)]
pub enum DisplayMode {
    Full,
    Fast,
    Partial,
    Gray2,
}

/// What the driver knows of the panel and holds for it.
pub struct Panel {
    /// Whether the panel is powered and out of deep sleep.
    pub awake: bool,
    /// The encoding that the planes hold.
    pub color: ColorInBuf,
    /// The mode that the panel was last set up for; `None` while asleep.
    pub initialized_for: Option<DisplayMode>,
    /// The byte planes.
    pub planes: Planes,
    /// Whether a chip select line is wired.
    pub chip_select: bool,
}

impl Panel {
    /// The planes have their length, and a panel that sleeps is set up for no mode.
    pub open spec fn wf(self) -> bool {
        &&& self.planes.wf()
        &&& !self.awake ==> self.initialized_for is None
    }

    /// Whether a refresh in `mode` can go ahead without setting the panel up.
    pub open spec fn ready_for(self, mode: DisplayMode) -> bool {
        self.awake && self.initialized_for == Some(mode)
    }
}

/// The pause between the steps of a reset and before a wait: 200 microseconds.
pub open spec fn hold() -> DelayStep {
    DelayStep::Us(200)
}

/// Waiting for the busy line, polled every 200 microseconds for at most five seconds.
pub open spec fn idle() -> Seq<Step> {
    wait_plan(hold(), BUSY_TIMEOUT)
}

/// Sending a command with its data, in transfers of at most 4096 bytes.
pub open spec fn register(chip_select: bool, cmd: u8, data: Seq<u8>) -> Seq<Step> {
    command_data_plan(chip_select, cmd, data, 4096)
}

/// Whether `piece` sends `cmd` with exactly the bytes of `data`.
pub open spec fn sends(piece: Seq<Step>, chip_select: bool, cmd: u8, data: Seq<u8>) -> bool {
    exists|payload: Seq<u8>|
        payload =~= data && piece == #[trigger] register(chip_select, cmd, payload)
}

/// Data entry mode, then the window and the cursor of the master controller,
/// then those of the slave controller.
pub open spec fn address_window(cs: bool) -> Seq<Step> {
    chain(
        seq![
            register(cs, 0x11, seq![0x01u8]),
            register(cs, 0x44, seq![0x00u8, 0x31u8]),
            register(cs, 0x45, seq![0x0fu8, 0x01u8, 0x00u8, 0x00u8]),
            register(cs, 0x4e, seq![0x00u8]),
            register(cs, 0x4f, seq![0x0fu8, 0x01u8]),
            register(cs, 0x91, seq![0x00u8]),
            register(cs, 0xc4, seq![0x31u8, 0x00u8]),
            register(cs, 0xc5, seq![0x0fu8, 0x01u8, 0x00u8, 0x00u8]),
            register(cs, 0xce, seq![0x31u8]),
            register(cs, 0xcf, seq![0x0fu8, 0x01u8]),
        ],
    )
}

/// The waveform table and the voltages and timings that go with it.
pub open spec fn lut_plan(cs: bool) -> Seq<Step> {
    chain(
        seq![
            register(cs, 0x32, LUT_DATA@),
            register(cs, 0x3f, seq![0x22u8]),
            register(cs, 0x03, seq![0x17u8]),
            register(cs, 0x04, seq![0x41u8, 0xa8u8, 0x32u8]),
            register(cs, 0x2c, seq![0x40u8]),
        ],
    )
}

/// The reset pulse: reset on, off and on again, each held for 200
/// microseconds, then the wait for the busy line.
pub open spec fn hw_reset_plan() -> Seq<Step> {
    chain(
        seq![
            seq![drive(Line::Reset, true)],
            seq![pause(hold())],
            seq![drive(Line::Reset, false)],
            seq![pause(hold())],
            seq![drive(Line::Reset, true)],
            seq![pause(hold())],
            idle(),
        ],
    )
}

/// The software reset command, then the wait for the busy line.
pub open spec fn sw_reset_plan(cs: bool) -> Seq<Step> {
    chain(seq![command_plan(cs, 0x12), idle()])
}

/// What comes before the set-up of every mode: for a sleeping panel power
/// on and the reset pulse, then in every case the software reset.
pub open spec fn power_on_plan(cs: bool, awake: bool) -> Seq<Step> {
    if awake {
        sw_reset_plan(cs)
    } else {
        chain(seq![seq![drive(Line::Power, true)], hw_reset_plan(), sw_reset_plan(cs)])
    }
}

/// Starting a refresh that the panel performs by itself, then the wait for
/// the busy line.
pub open spec fn activate(cs: bool) -> Seq<Step> {
    chain(seq![command_plan(cs, 0x20), idle()])
}

/// Setting the panel up for a mode. The partial mode ends by sending the
/// primary planes as the secondary planes, the image that the panel shows.
pub open spec fn init_plan(panel: Panel, mode: DisplayMode) -> Seq<Step> {
    let cs = panel.chip_select;
    match mode {
        DisplayMode::Full => chain(seq![power_on_plan(cs, panel.awake), address_window(cs)]),
        DisplayMode::Fast => chain(
            seq![
                power_on_plan(cs, panel.awake),
                register(cs, 0x18, seq![0x80u8]),
                register(cs, 0x22, seq![0xb1u8]),
                activate(cs),
                register(cs, 0x1a, seq![0x64u8, 0x00u8]),
                register(cs, 0x22, seq![0x91u8]),
                activate(cs),
                address_window(cs),
            ],
        ),
        DisplayMode::Partial => chain(
            seq![
                power_on_plan(cs, panel.awake),
                register(cs, 0x3c, seq![0x80u8]),
                address_window(cs),
                send_secondary_plan(cs, panel.planes.with_secondary_from_primary()),
            ],
        ),
        DisplayMode::Gray2 => chain(
            seq![
                power_on_plan(cs, panel.awake),
                register(cs, 0x0c, seq![0x8bu8, 0x9cu8, 0xa6u8, 0x0fu8]),
                register(cs, 0x3c, seq![0x81u8]),
                address_window(cs),
                lut_plan(cs),
            ],
        ),
    }
}

/// Setting the panel up for a mode, unless it is set up for it already.
pub open spec fn ensure_plan(panel: Panel, mode: DisplayMode) -> Seq<Step> {
    if panel.ready_for(mode) {
        Seq::empty()
    } else {
        init_plan(panel, mode)
    }
}

/// Sending all four planes: primary and secondary of the master, then of the slave.
pub open spec fn send_all_plan(cs: bool, planes: Planes) -> Seq<Step> {
    chain(
        seq![
            send_plan(cs, planes, 0x24),
            send_plan(cs, planes, 0x26),
            send_plan(cs, planes, 0xa4),
            send_plan(cs, planes, 0xa6),
        ],
    )
}

/// Sending the two secondary planes: of the master, then of the slave.
pub open spec fn send_secondary_plan(cs: bool, planes: Planes) -> Seq<Step> {
    chain(seq![send_plan(cs, planes, 0x26), send_plan(cs, planes, 0xa6)])
}

/// Sending the two primary planes: of the master, then of the slave.
pub open spec fn send_primary_plan(cs: bool, planes: Planes) -> Seq<Step> {
    chain(seq![send_plan(cs, planes, 0x24), send_plan(cs, planes, 0xa4)])
}

/// Triggering the refresh: the update control byte of the mode, the
/// activation command, a pause of 200 microseconds, and the wait for the
/// busy line.
pub open spec fn refresh_plan(cs: bool, control: u8) -> Seq<Step> {
    chain(
        seq![register(cs, 0x22, seq![control]), command_plan(cs, 0x20), seq![pause(hold())], idle()],
    )
}

/// The update control byte of a mode.
pub open spec fn update_control(mode: DisplayMode) -> u8 {
    match mode {
        DisplayMode::Full => 0xf7,
        DisplayMode::Fast => 0xc7,
        DisplayMode::Partial => 0xff,
        DisplayMode::Gray2 => 0xcf,
    }
}

/// The planes as a refresh in `mode` sends them: the full and the fast mode
/// clear the secondary planes first.
pub open spec fn planes_shown(planes: Planes, mode: DisplayMode) -> Planes {
    match mode {
        DisplayMode::Full | DisplayMode::Fast => planes.with_secondary_cleared(),
        _ => planes,
    }
}

/// The planes after the panel was set up for `mode`, where that was needed:
/// the set-up of the partial mode copies the primary planes over the
/// secondary planes.
pub open spec fn planes_prepared(panel: Panel, mode: DisplayMode) -> Planes {
    if mode == DisplayMode::Partial && !panel.ready_for(mode) {
        panel.planes.with_secondary_from_primary()
    } else {
        panel.planes
    }
}

/// A whole refresh in `mode`: the set-up where it is needed, the planes, and
/// the trigger.
pub open spec fn display_plan(panel: Panel, mode: DisplayMode) -> Seq<Step> {
    let cs = panel.chip_select;
    let sent = planes_shown(planes_prepared(panel, mode), mode);
    chain(
        seq![
            ensure_plan(panel, mode),
            if mode == DisplayMode::Partial {
                send_primary_plan(cs, sent)
            } else {
                send_all_plan(cs, sent)
            },
            refresh_plan(cs, update_control(mode)),
        ],
    )
}

/// Deep sleep: the sleep command, power off, reset off. Nothing for a panel
/// that sleeps already.
pub open spec fn deep_sleep_plan(cs: bool, awake: bool) -> Seq<Step> {
    if awake {
        chain(
            seq![
                register(cs, 0x10, seq![0x03u8]),
                seq![drive(Line::Power, false)],
                seq![drive(Line::Reset, false)],
            ],
        )
    } else {
        Seq::empty()
    }
}

/// The plane that a memory write command fills.
pub open spec fn plane_of_command(cmd: u8) -> Plane {
    if cmd == 0x24 {
        Plane::MasterPrimary
    } else if cmd == 0xa4 {
        Plane::SlavePrimary
    } else if cmd == 0x26 {
        Plane::MasterSecondary
    } else {
        Plane::SlaveSecondary
    }
}

/// Sending one plane under its memory write command.
pub open spec fn send_plan(cs: bool, planes: Planes, cmd: u8) -> Seq<Step> {
    register(cs, cmd, planes.plane(plane_of_command(cmd)))
}

/// What a refresh in `mode` that failed may have done to the panel state.
/// The encoding and the wiring are as before, and a panel that was awake
/// still is. Where the failure came during the set-up, the panel counts as
/// set up for no mode, and the planes are as before or as the set-up leaves
/// them. Where it came later, the panel is awake and set up for `mode`, and
/// the planes are as the refresh sends them.
pub open spec fn disturbed(before: Panel, after: Panel, mode: DisplayMode) -> bool {
    &&& after.wf()
    &&& after.color == before.color
    &&& after.chip_select == before.chip_select
    &&& before.awake ==> after.awake
    &&& {
        ||| {
            &&& after.initialized_for is None
            &&& after.planes == before.planes || after.planes == planes_prepared(before, mode)
        }
        ||| {
            &&& after.awake
            &&& after.initialized_for == Some(mode)
            &&& after.planes == planes_shown(planes_prepared(before, mode), mode)
        }
    }
}

/// Whether an error is one that the bus can give: a fault of the hardware,
/// or a timeout that names the bound of five seconds and a time spent
/// waiting that is no less.
pub open spec fn bus_error<T>(r: Result<T, Error>) -> bool {
    match r {
        Ok(_) => true,
        Err(Error::Transport(_)) => true,
        Err(Error::TimeOut(e)) => e.timeout == BUSY_TIMEOUT && e.elapsed >= e.timeout,
        Err(Error::DeepSleep) => false,
    }
}

/// The state of the panel as the driver tracks it.
#[derive(Clone, Copy, Debug)]
struct Epd5in79State {
    power_on: Option<Instant>,
    color_in_buf: ColorInBuf,
    init_for: Option<DisplayMode>,
}

impl Epd5in79State {
    fn is_deepsleep(&self) -> (asleep: bool)
        ensures
            asleep == self.power_on is None,
    {
        self.power_on.is_none()
    }

    fn check_deepsleep(&self) -> (r: Result<(), Error>)
        ensures
            r == if self.power_on is None {
                Err::<(), Error>(Error::DeepSleep)
            } else {
                Ok(())
            },
    {
        if self.is_deepsleep() {
            return Err(Error::DeepSleep);
        }
        Ok(())
    }

    fn is_ready_for(&self, mode: DisplayMode) -> (ready: bool)
        ensures
            ready == (self.power_on is Some && self.init_for == Some(mode)),
    {
        match self.init_for {
            Some(m) => !self.is_deepsleep() && m == mode,
            None => false,
        }
    }
}

/// The driver: transport, byte planes and panel state.
pub struct Epd5in79Impl<H: Hardware> {
    spi_interface: SpiInterface<H>,
    frame: Framebuffer,
    state: Epd5in79State,
}

impl<H: Hardware> View for Epd5in79Impl<H> {
    type V = Panel;

    closed spec fn view(&self) -> Panel {
        Panel {
            awake: self.state.power_on is Some,
            color: self.state.color_in_buf,
            initialized_for: self.state.init_for,
            planes: self.frame@,
            chip_select: self.spi_interface.has_chip_select(),
        }
    }
}

impl<H: Hardware> Epd5in79Impl<H> {
    /// The record of what was done on the hardware.
    pub closed spec fn trace(&self) -> Seq<Event> {
        self.spi_interface.trace()
    }

    /// A driver for a sleeping panel with blank planes in the binary
    /// encoding. `chip_select` says whether a chip select line is wired.
    pub fn new(hardware: H, chip_select: bool) -> (epd: Self)
        ensures
            epd.trace() == hardware.trace(),
            epd@ == (Panel {
                awake: false,
                color: ColorInBuf::Binary,
                initialized_for: None,
                planes: Planes::blank(),
                chip_select,
            }),
            epd@.wf(),
    {
        Epd5in79Impl {
            spi_interface: SpiInterface::new(hardware, chip_select),
            frame: Framebuffer::new(),
            state: Epd5in79State {
                power_on: None,
                color_in_buf: ColorInBuf::Binary,
                init_for: None,
            },
        }
    }

    /// The hardware, to look at.
    pub fn hardware(&self) -> (hardware: &H)
        ensures
            hardware.trace() == self.trace(),
    {
        self.spi_interface.hardware()
    }

    /// The byte planes, to look at.
    pub fn frame(&self) -> (frame: &Framebuffer)
        ensures
            frame@ == self@.planes,
    {
        &self.frame
    }

    /// The encoding that the planes hold.
    pub fn color_in_buf(&self) -> (color: ColorInBuf)
        ensures
            color == self@.color,
    {
        self.state.color_in_buf
    }

    /// The mode that the panel is set up for, if any.
    pub fn initialized_for(&self) -> (mode: Option<DisplayMode>)
        ensures
            mode == self@.initialized_for,
    {
        self.state.init_for
    }

    /// Sends a command with its data as one piece of a chain.
    fn command_data(
        &mut self,
        cmd: u8,
        data: &[u8],
        Ghost(before): Ghost<Seq<Event>>,
        Ghost(pieces): Ghost<Seq<Seq<Step>>>,
        Ghost(done): Ghost<int>,
    ) -> (r: Result<(), Error>)
        requires
            progressed(before, old(self).trace(), pieces, done),
            done < pieces.len(),
            sends(pieces[done], old(self)@.chip_select, cmd, data@),
        ensures
            final(self)@ == old(self)@,
            stepped(before, final(self).trace(), pieces, done, r),
            bus_error(r),
    {
        let r = self.spi_interface.command_data(cmd, data, CHUNK_SIZE);
        proof {
            lemma_stepped(before, old(self).trace(), self.trace(), pieces, done, r);
        }
        r
    }

    /// Sends a command byte as one piece of a chain.
    fn command(
        &mut self,
        cmd: u8,
        Ghost(before): Ghost<Seq<Event>>,
        Ghost(pieces): Ghost<Seq<Seq<Step>>>,
        Ghost(done): Ghost<int>,
    ) -> (r: Result<(), Error>)
        requires
            progressed(before, old(self).trace(), pieces, done),
            done < pieces.len(),
            pieces[done] == command_plan(old(self)@.chip_select, cmd),
        ensures
            final(self)@ == old(self)@,
            stepped(before, final(self).trace(), pieces, done, r),
            bus_error(r),
    {
        let r = self.spi_interface.command(cmd);
        proof {
            lemma_stepped(before, old(self).trace(), self.trace(), pieces, done, r);
        }
        r
    }

    /// Switches the reset line as one piece of a chain.
    fn reset_line(
        &mut self,
        active: bool,
        Ghost(before): Ghost<Seq<Event>>,
        Ghost(pieces): Ghost<Seq<Seq<Step>>>,
        Ghost(done): Ghost<int>,
    ) -> (r: Result<(), Error>)
        requires
            progressed(before, old(self).trace(), pieces, done),
            done < pieces.len(),
            pieces[done] == seq![drive(Line::Reset, active)],
        ensures
            final(self)@ == old(self)@,
            stepped(before, final(self).trace(), pieces, done, r),
            bus_error(r),
    {
        let r = self.spi_interface.set_rst_pin(active);
        proof {
            lemma_stepped(before, old(self).trace(), self.trace(), pieces, done, r);
        }
        r
    }

    /// Switches the power supply as one piece of a chain.
    fn power_line(
        &mut self,
        on: bool,
        Ghost(before): Ghost<Seq<Event>>,
        Ghost(pieces): Ghost<Seq<Seq<Step>>>,
        Ghost(done): Ghost<int>,
    ) -> (r: Result<(), Error>)
        requires
            progressed(before, old(self).trace(), pieces, done),
            done < pieces.len(),
            pieces[done] == seq![drive(Line::Power, on)],
        ensures
            final(self)@ == old(self)@,
            stepped(before, final(self).trace(), pieces, done, r),
            bus_error(r),
    {
        let r = self.spi_interface.set_power(on);
        proof {
            lemma_stepped(before, old(self).trace(), self.trace(), pieces, done, r);
        }
        r
    }

    /// Pauses for 200 microseconds as one piece of a chain.
    fn hold(
        &mut self,
        Ghost(before): Ghost<Seq<Event>>,
        Ghost(pieces): Ghost<Seq<Seq<Step>>>,
        Ghost(done): Ghost<int>,
    )
        requires
            progressed(before, old(self).trace(), pieces, done),
            done < pieces.len(),
            pieces[done] == seq![pause(hold())],
        ensures
            final(self)@ == old(self)@,
            stepped(before, final(self).trace(), pieces, done, Ok::<(), Error>(())),
    {
        self.spi_interface.delay(DelayStep::Us(200));
        proof {
            lemma_stepped(
                before,
                old(self).trace(),
                self.trace(),
                pieces,
                done,
                Ok::<(), Error>(()),
            );
        }
    }

    /// Waits for the busy line as one piece of a chain.
    fn wait_busy_without_check(
        &mut self,
        Ghost(before): Ghost<Seq<Event>>,
        Ghost(pieces): Ghost<Seq<Seq<Step>>>,
        Ghost(done): Ghost<int>,
    ) -> (r: Result<(), Error>)
        requires
            progressed(before, old(self).trace(), pieces, done),
            done < pieces.len(),
            pieces[done] == idle(),
        ensures
            final(self)@ == old(self)@,
            stepped(before, final(self).trace(), pieces, done, r),
            bus_error(r),
    {
        let r = match self.spi_interface.wait_busy_timeout(DelayStep::Us(200), BUSY_TIMEOUT) {
            Ok(_) => Ok(()),
            Err(e) => Err(e),
        };
        proof {
            lemma_run_never_declined(
                idle(),
                self.trace().skip(old(self).trace().len() as int),
            );
            lemma_stepped(before, old(self).trace(), self.trace(), pieces, done, r);
        }
        r
    }

    /// Sends one plane under its memory write command as one piece of a chain.
    fn send_buf(
        &mut self,
        cmd: u8,
        Ghost(before): Ghost<Seq<Event>>,
        Ghost(pieces): Ghost<Seq<Seq<Step>>>,
        Ghost(done): Ghost<int>,
    ) -> (r: Result<(), Error>)
        requires
            cmd == 0x24 || cmd == 0xa4 || cmd == 0x26 || cmd == 0xa6,
            progressed(before, old(self).trace(), pieces, done),
            done < pieces.len(),
            pieces[done] == send_plan(old(self)@.chip_select, old(self)@.planes, cmd),
        ensures
            final(self)@ == old(self)@,
            stepped(before, final(self).trace(), pieces, done, r),
            bus_error(r),
    {
        let which = if cmd == 0x24 {
            Plane::MasterPrimary
        } else if cmd == 0xa4 {
            Plane::SlavePrimary
        } else if cmd == 0x26 {
            Plane::MasterSecondary
        } else {
            Plane::SlaveSecondary
        };
        let r = self.spi_interface.command_data(cmd, self.frame.plane(which).as_slice(), CHUNK_SIZE);
        proof {
            lemma_stepped(before, old(self).trace(), self.trace(), pieces, done, r);
        }
        r
    }

    /// Sets the data entry mode and the address windows of both controllers.
    fn set_address(&mut self) -> (r: Result<(), Error>)
        ensures
            final(self)@ == old(self)@,
            performed(
                old(self).trace(),
                final(self).trace(),
                address_window(old(self)@.chip_select),
                outcome_of(r),
            ),
            bus_error(r),
    {
        let ghost t = self.trace();
        let ghost cs = self@.chip_select;
        let ghost p = seq![
            register(cs, 0x11, seq![0x01u8]),
            register(cs, 0x44, seq![0x00u8, 0x31u8]),
            register(cs, 0x45, seq![0x0fu8, 0x01u8, 0x00u8, 0x00u8]),
            register(cs, 0x4e, seq![0x00u8]),
            register(cs, 0x4f, seq![0x0fu8, 0x01u8]),
            register(cs, 0x91, seq![0x00u8]),
            register(cs, 0xc4, seq![0x31u8, 0x00u8]),
            register(cs, 0xc5, seq![0x0fu8, 0x01u8, 0x00u8, 0x00u8]),
            register(cs, 0xce, seq![0x31u8]),
            register(cs, 0xcf, seq![0x0fu8, 0x01u8]),
        ];
        proof {
            lemma_progress_start(t, p);
        }
        self.command_data(0x11, &[0x01], Ghost(t), Ghost(p), Ghost(0))?;

        self.command_data(0x44, &[0x00, 0x31], Ghost(t), Ghost(p), Ghost(1))?;
        self.command_data(0x45, &[0x0f, 0x01, 0x00, 0x00], Ghost(t), Ghost(p), Ghost(2))?;

        self.command_data(0x4e, &[0x00], Ghost(t), Ghost(p), Ghost(3))?;
        self.command_data(0x4f, &[0x0f, 0x01], Ghost(t), Ghost(p), Ghost(4))?;

        self.command_data(0x91, &[0x00], Ghost(t), Ghost(p), Ghost(5))?;
        self.command_data(0xc4, &[0x31, 0x00], Ghost(t), Ghost(p), Ghost(6))?;
        self.command_data(0xc5, &[0x0f, 0x01, 0x00, 0x00], Ghost(t), Ghost(p), Ghost(7))?;

        self.command_data(0xce, &[0x31], Ghost(t), Ghost(p), Ghost(8))?;
        self.command_data(0xcf, &[0x0f, 0x01], Ghost(t), Ghost(p), Ghost(9))
    }
}

impl<H: Hardware> Epd5in79Impl<H> {
    /// Loads the waveform table and the voltages and timings that go with it.
    fn load_lut(&mut self) -> (r: Result<(), Error>)
        ensures
            final(self)@ == old(self)@,
            performed(
                old(self).trace(),
                final(self).trace(),
                lut_plan(old(self)@.chip_select),
                outcome_of(r),
            ),
            bus_error(r),
    {
        let ghost t = self.trace();
        let ghost cs = self@.chip_select;
        let ghost p = seq![
            register(cs, 0x32, LUT_DATA@),
            register(cs, 0x3f, seq![0x22u8]),
            register(cs, 0x03, seq![0x17u8]),
            register(cs, 0x04, seq![0x41u8, 0xa8u8, 0x32u8]),
            register(cs, 0x2c, seq![0x40u8]),
        ];
        proof {
            lemma_progress_start(t, p);
        }
        self.command_data(0x32, &LUT_DATA, Ghost(t), Ghost(p), Ghost(0))?;
        self.command_data(0x3f, &[0x22], Ghost(t), Ghost(p), Ghost(1))?;
        self.command_data(0x03, &[0x17], Ghost(t), Ghost(p), Ghost(2))?;
        self.command_data(0x04, &[0x41, 0xa8, 0x32], Ghost(t), Ghost(p), Ghost(3))?;
        self.command_data(0x2c, &[0x40], Ghost(t), Ghost(p), Ghost(4))
    }

    /// Pulses the reset line and waits for the panel; the panel is awake
    /// from then on.
    fn hw_reset(&mut self) -> (r: Result<(), Error>)
        ensures
            performed(old(self).trace(), final(self).trace(), hw_reset_plan(), outcome_of(r)),
            bus_error(r),
            final(self)@ == if r is Ok {
                Panel { awake: true, ..old(self)@ }
            } else {
                old(self)@
            },
    {
        let ghost t = self.trace();
        let ghost p = seq![
            seq![drive(Line::Reset, true)],
            seq![pause(hold())],
            seq![drive(Line::Reset, false)],
            seq![pause(hold())],
            seq![drive(Line::Reset, true)],
            seq![pause(hold())],
            idle(),
        ];
        proof {
            lemma_progress_start(t, p);
        }
        self.reset_line(true, Ghost(t), Ghost(p), Ghost(0))?;
        self.hold(Ghost(t), Ghost(p), Ghost(1));
        self.reset_line(false, Ghost(t), Ghost(p), Ghost(2))?;
        self.hold(Ghost(t), Ghost(p), Ghost(3));
        self.reset_line(true, Ghost(t), Ghost(p), Ghost(4))?;
        self.hold(Ghost(t), Ghost(p), Ghost(5));
        self.wait_busy_without_check(Ghost(t), Ghost(p), Ghost(6))?;
        self.state.power_on = Some(Instant::now());
        Ok(())
    }

    /// Sends the software reset and waits for the panel.
    fn sw_reset(&mut self) -> (r: Result<(), Error>)
        ensures
            final(self)@ == old(self)@,
            performed(
                old(self).trace(),
                final(self).trace(),
                sw_reset_plan(old(self)@.chip_select),
                outcome_of(r),
            ),
            bus_error(r),
    {
        let ghost t = self.trace();
        let ghost p = seq![command_plan(self@.chip_select, 0x12), idle()];
        proof {
            lemma_progress_start(t, p);
        }
        self.command(0x12, Ghost(t), Ghost(p), Ghost(0))?;
        self.wait_busy_without_check(Ghost(t), Ghost(p), Ghost(1))
    }

    /// Wakes the panel where it sleeps and resets it. The panel counts as
    /// set up for no mode from the start of the reset, whether or not the
    /// reset goes through.
    fn power_on(&mut self) -> (r: Result<(), Error>)
        ensures
            performed(
                old(self).trace(),
                final(self).trace(),
                power_on_plan(old(self)@.chip_select, old(self)@.awake),
                outcome_of(r),
            ),
            bus_error(r),
            final(self)@ == (Panel {
                awake: final(self)@.awake,
                initialized_for: None,
                ..old(self)@
            }),
            r is Ok ==> final(self)@.awake,
            old(self)@.awake ==> final(self)@.awake,
    {
        self.state.init_for = None;
        if self.state.is_deepsleep() {
            let ghost t = self.trace();
            let ghost p = seq![
                seq![drive(Line::Power, true)],
                hw_reset_plan(),
                sw_reset_plan(self@.chip_select),
            ];
            proof {
                lemma_progress_start(t, p);
            }
            self.power_line(true, Ghost(t), Ghost(p), Ghost(0))?;
            let ghost m = self.trace();
            let r = self.hw_reset();
            proof {
                lemma_stepped(t, m, self.trace(), p, 1, r);
            }
            r?;
            let ghost m = self.trace();
            let r = self.sw_reset();
            proof {
                lemma_stepped(t, m, self.trace(), p, 2, r);
            }
            r
        } else {
            self.sw_reset()
        }
    }

    /// Sends all four planes.
    fn send_bufs_all(&mut self) -> (r: Result<(), Error>)
        ensures
            final(self)@ == old(self)@,
            performed(
                old(self).trace(),
                final(self).trace(),
                send_all_plan(old(self)@.chip_select, old(self)@.planes),
                outcome_of(r),
            ),
            bus_error(r),
    {
        let ghost t = self.trace();
        let ghost cs = self@.chip_select;
        let ghost planes = self@.planes;
        let ghost p = seq![
            send_plan(cs, planes, 0x24),
            send_plan(cs, planes, 0x26),
            send_plan(cs, planes, 0xa4),
            send_plan(cs, planes, 0xa6),
        ];
        proof {
            lemma_progress_start(t, p);
        }
        self.send_buf(0x24, Ghost(t), Ghost(p), Ghost(0))?;
        self.send_buf(0x26, Ghost(t), Ghost(p), Ghost(1))?;
        self.send_buf(0xa4, Ghost(t), Ghost(p), Ghost(2))?;
        self.send_buf(0xa6, Ghost(t), Ghost(p), Ghost(3))
    }

    /// Sends the two planes that `first` and `second` fill, in that order.
    fn send_bufs(&mut self, first: u8, second: u8) -> (r: Result<(), Error>)
        requires
            first == 0x24 || first == 0xa4 || first == 0x26 || first == 0xa6,
            second == 0x24 || second == 0xa4 || second == 0x26 || second == 0xa6,
        ensures
            final(self)@ == old(self)@,
            performed(
                old(self).trace(),
                final(self).trace(),
                chain(
                    seq![
                        send_plan(old(self)@.chip_select, old(self)@.planes, first),
                        send_plan(old(self)@.chip_select, old(self)@.planes, second),
                    ],
                ),
                outcome_of(r),
            ),
            bus_error(r),
    {
        let ghost t = self.trace();
        let ghost cs = self@.chip_select;
        let ghost planes = self@.planes;
        let ghost p = seq![send_plan(cs, planes, first), send_plan(cs, planes, second)];
        proof {
            lemma_progress_start(t, p);
        }
        self.send_buf(first, Ghost(t), Ghost(p), Ghost(0))?;
        self.send_buf(second, Ghost(t), Ghost(p), Ghost(1))
    }

    /// Triggers the refresh with the update control byte of a mode and waits
    /// for the panel.
    fn refresh(&mut self, control: u8) -> (r: Result<(), Error>)
        ensures
            final(self)@ == old(self)@,
            performed(
                old(self).trace(),
                final(self).trace(),
                refresh_plan(old(self)@.chip_select, control),
                outcome_of(r),
            ),
            bus_error(r),
    {
        let ghost t = self.trace();
        let ghost cs = self@.chip_select;
        let ghost p = seq![
            register(cs, 0x22, seq![control]),
            command_plan(cs, 0x20),
            seq![pause(hold())],
            idle(),
        ];
        proof {
            lemma_progress_start(t, p);
        }
        self.command_data(0x22, &[control], Ghost(t), Ghost(p), Ghost(0))?;
        self.command(0x20, Ghost(t), Ghost(p), Ghost(1))?;
        self.hold(Ghost(t), Ghost(p), Ghost(2));
        self.wait_busy_without_check(Ghost(t), Ghost(p), Ghost(3))
    }

    /// Starts an update that the panel performs by itself and waits for it.
    fn activate(&mut self) -> (r: Result<(), Error>)
        ensures
            final(self)@ == old(self)@,
            performed(
                old(self).trace(),
                final(self).trace(),
                activate(old(self)@.chip_select),
                outcome_of(r),
            ),
            bus_error(r),
    {
        let ghost t = self.trace();
        let ghost p = seq![command_plan(self@.chip_select, 0x20), idle()];
        proof {
            lemma_progress_start(t, p);
        }
        self.command(0x20, Ghost(t), Ghost(p), Ghost(0))?;
        self.wait_busy_without_check(Ghost(t), Ghost(p), Ghost(1))
    }
}

/// Whether the record grew from `before` to `after` by a performance of
/// `plan`, however it ended.
pub open spec fn attempted(before: Seq<Event>, after: Seq<Event>, plan: Seq<Step>) -> bool {
    exists|outcome: Outcome| #[trigger] performed(before, after, plan, outcome)
}

/// The panel state after the panel went to sleep.
pub open spec fn asleep(panel: Panel) -> Panel {
    Panel { awake: false, initialized_for: None, ..panel }
}

impl<H: Hardware> Epd5in79Impl<H> {
    /// Sends the panel to deep sleep and switches its power off. Nothing is
    /// done for a panel that sleeps already. The panel counts as asleep as
    /// soon as the sleep command went through.
    pub fn deep_sleep(&mut self) -> (r: Result<(), Error>)
        requires
            old(self)@.wf(),
        ensures
            final(self)@.wf(),
            performed(
                old(self).trace(),
                final(self).trace(),
                deep_sleep_plan(old(self)@.chip_select, old(self)@.awake),
                outcome_of(r),
            ),
            bus_error(r),
            r is Ok ==> final(self)@ == asleep(old(self)@),
            r is Err ==> final(self)@ == old(self)@ || final(self)@ == asleep(old(self)@),
            !old(self)@.awake ==> r is Ok && final(self).trace() == old(self).trace()
                && final(self)@ == old(self)@,
    {
        if !self.state.is_deepsleep() {
            let ghost t = self.trace();
            let ghost p = seq![
                register(self@.chip_select, 0x10, seq![0x03u8]),
                seq![drive(Line::Power, false)],
                seq![drive(Line::Reset, false)],
            ];
            proof {
                lemma_progress_start(t, p);
            }
            self.command_data(0x10, &[0x03], Ghost(t), Ghost(p), Ghost(0))?;
            self.state.power_on = None;
            self.state.init_for = None;
            self.power_line(false, Ghost(t), Ghost(p), Ghost(1))?;
            self.reset_line(false, Ghost(t), Ghost(p), Ghost(2))
        } else {
            proof {
                lemma_performed_nothing(self.trace());
            }
            Ok(())
        }
    }

    /// The time since the panel woke up; `None` while it sleeps.
    pub fn power_on_dur(&self) -> (elapsed: Option<Duration>)
        ensures
            elapsed is Some == self@.awake,
    {
        match &self.state.power_on {
            Some(since) => Some(since.elapsed()),
            None => None,
        }
    }

    /// Ends the use of the panel: tries to send it to deep sleep, whatever
    /// comes of that, and gives the hardware back.
    pub fn shutdown(self) -> (hardware: H)
        requires
            self@.wf(),
        ensures
            attempted(
                self.trace(),
                hardware.trace(),
                deep_sleep_plan(self@.chip_select, self@.awake),
            ),
    {
        let mut epd = self;
        let _ = epd.deep_sleep();
        epd.spi_interface.release()
    }

    /// Rewrites the planes to the binary encoding, unless they hold it already.
    fn mapping_to_binary<F: Fn(Gray2) -> BinaryColor>(&mut self, f: F)
        requires
            old(self)@.wf(),
            forall|c: Gray2| call_requires(f, (c,)),
        ensures
            final(self).trace() == old(self).trace(),
            final(self)@ == (Panel {
                color: ColorInBuf::Binary,
                planes: final(self)@.planes,
                ..old(self)@
            }),
            final(self)@.wf(),
            if old(self)@.color == ColorInBuf::Binary {
                final(self)@.planes == old(self)@.planes
            } else {
                remapped_to_binary(f, old(self)@.planes, final(self)@.planes)
            },
    {
        match self.state.color_in_buf {
            ColorInBuf::Binary => {},
            ColorInBuf::Gray => {
                self.frame.remap_to_binary(f);
                self.state.color_in_buf = ColorInBuf::Binary;
            },
        }
    }

    /// Rewrites the planes to the gray encoding, unless they hold it already.
    fn mapping_to_gray2<F: Fn(BinaryColor) -> Gray2>(&mut self, f: F)
        requires
            old(self)@.wf(),
            forall|c: BinaryColor| call_requires(f, (c,)),
        ensures
            final(self).trace() == old(self).trace(),
            final(self)@ == (Panel {
                color: ColorInBuf::Gray,
                planes: final(self)@.planes,
                ..old(self)@
            }),
            final(self)@.wf(),
            if old(self)@.color == ColorInBuf::Gray {
                final(self)@.planes == old(self)@.planes
            } else {
                remapped_to_gray(f, old(self)@.planes, final(self)@.planes)
            },
    {
        match self.state.color_in_buf {
            ColorInBuf::Gray => {},
            ColorInBuf::Binary => {
                self.frame.remap_to_gray(f);
                self.state.color_in_buf = ColorInBuf::Gray;
            },
        }
    }

    /// The binary view. Planes that hold the gray encoding are rewritten
    /// first, each pixel by `f`; planes that hold the binary encoding are
    /// left as they are.
    pub fn as_binary_with<F: Fn(Gray2) -> BinaryColor>(self, f: F) -> (view: Epd5in79<
        H,
        BinaryColor,
    >)
        requires
            self@.wf(),
            forall|c: Gray2| call_requires(f, (c,)),
        ensures
            view.wf(),
            view.trace() == self.trace(),
            view@ == (Panel { color: ColorInBuf::Binary, planes: view@.planes, ..self@ }),
            if self@.color == ColorInBuf::Binary {
                view@.planes == self@.planes
            } else {
                remapped_to_binary(f, self@.planes, view@.planes)
            },
    {
        let mut inner = self;
        inner.mapping_to_binary(f);
        Epd5in79 { inner, color: PhantomData }
    }

    /// The binary view, with the default conversion: the two light gray
    /// levels become on, the two dark ones off.
    pub fn as_binary(self) -> (view: Epd5in79<H, BinaryColor>)
        requires
            self@.wf(),
        ensures
            view.wf(),
            view.trace() == self.trace(),
            view@ == (Panel { color: ColorInBuf::Binary, planes: view@.planes, ..self@ }),
            if self@.color == ColorInBuf::Binary {
                view@.planes == self@.planes
            } else {
                &&& view@.planes.master_secondary == self@.planes.master_secondary
                &&& view@.planes.slave_secondary == self@.planes.slave_secondary
                &&& forall|x: int, y: int|
                    in_screen(x, y) ==> #[trigger] view@.planes.shows_binary(
                        x,
                        y,
                        binary_of_gray(self@.planes.gray_at(x, y)),
                    )
            },
    {
        let view = self.as_binary_with(binary_from_gray);
        proof {
            if self@.color != ColorInBuf::Binary {
                assert forall|x: int, y: int| in_screen(x, y) implies #[trigger] view@.planes.shows_binary(
                    x,
                    y,
                    binary_of_gray(self@.planes.gray_at(x, y)),
                ) by {
                    let b = view@.planes.binary_at(x, y);
                    assert(call_ensures(binary_from_gray, (self@.planes.gray_at(x, y),), b));
                }
            }
        }
        view
    }

    /// The gray view. Planes that hold the binary encoding are rewritten
    /// first, each pixel by `f`; planes that hold the gray encoding are left
    /// as they are.
    pub fn as_gray2_with<F: Fn(BinaryColor) -> Gray2>(self, f: F) -> (view: Epd5in79<H, Gray2>)
        requires
            self@.wf(),
            forall|c: BinaryColor| call_requires(f, (c,)),
        ensures
            view.wf(),
            view.trace() == self.trace(),
            view@ == (Panel { color: ColorInBuf::Gray, planes: view@.planes, ..self@ }),
            if self@.color == ColorInBuf::Gray {
                view@.planes == self@.planes
            } else {
                remapped_to_gray(f, self@.planes, view@.planes)
            },
    {
        let mut inner = self;
        inner.mapping_to_gray2(f);
        Epd5in79 { inner, color: PhantomData }
    }

    /// The gray view, with the default conversion: on becomes white, off black.
    pub fn as_gray2(self) -> (view: Epd5in79<H, Gray2>)
        requires
            self@.wf(),
        ensures
            view.wf(),
            view.trace() == self.trace(),
            view@ == (Panel { color: ColorInBuf::Gray, planes: view@.planes, ..self@ }),
            if self@.color == ColorInBuf::Gray {
                view@.planes == self@.planes
            } else {
                forall|x: int, y: int|
                    in_screen(x, y) ==> #[trigger] view@.planes.shows_gray(
                        x,
                        y,
                        gray_of_binary(self@.planes.binary_at(x, y)),
                    )
            },
    {
        let view = self.as_gray2_with(gray_from_binary);
        proof {
            if self@.color != ColorInBuf::Gray {
                assert forall|x: int, y: int| in_screen(x, y) implies #[trigger] view@.planes.shows_gray(
                    x,
                    y,
                    gray_of_binary(self@.planes.binary_at(x, y)),
                ) by {
                    let g = view@.planes.gray_at(x, y);
                    assert(call_ensures(gray_from_binary, (self@.planes.binary_at(x, y),), g));
                }
            }
        }
        view
    }
}

/// The driver seen through one pixel encoding, `BinaryColor` or `Gray2`.
/// While the view exists, the planes hold that encoding.
pub struct Epd5in79<H: Hardware, C: Encoding> {
    inner: Epd5in79Impl<H>,
    color: PhantomData<C>,
}

impl<H: Hardware, C: Encoding> View for Epd5in79<H, C> {
    type V = Panel;

    closed spec fn view(&self) -> Panel {
        self.inner@
    }
}

impl<H: Hardware, C: Encoding> Epd5in79<H, C> {
    /// The record of what was done on the hardware.
    pub closed spec fn trace(&self) -> Seq<Event> {
        self.inner.trace()
    }

    /// The panel state is well formed and the planes hold the encoding of the view.
    pub open spec fn wf(&self) -> bool {
        &&& self@.wf()
        &&& self@.color == C::tag()
    }

    /// Gives the driver back, so that the other view can be taken.
    pub fn release(self) -> (epd: Epd5in79Impl<H>)
        requires
            self.wf(),
        ensures
            epd@ == self@,
            epd@.wf(),
            epd.trace() == self.trace(),
    {
        self.inner
    }

    /// The hardware, to look at.
    pub fn hardware(&self) -> (hardware: &H)
        ensures
            hardware.trace() == self.trace(),
    {
        self.inner.hardware()
    }

    /// The byte planes, to look at.
    pub fn frame(&self) -> (frame: &Framebuffer)
        ensures
            frame@ == self@.planes,
    {
        self.inner.frame()
    }

    /// The mode that the panel is set up for, if any.
    pub fn initialized_for(&self) -> (mode: Option<DisplayMode>)
        ensures
            mode == self@.initialized_for,
    {
        self.inner.initialized_for()
    }

    /// The size of the panel in pixels: width, then height.
    pub fn size(&self) -> (size: (u32, u32))
        ensures
            size == (792u32, 272u32),
    {
        (792, 272)
    }

    /// Sends the panel to deep sleep and switches its power off. Nothing is
    /// done for a panel that sleeps already.
    pub fn deep_sleep(&mut self) -> (r: Result<(), Error>)
        requires
            old(self).wf(),
        ensures
            final(self).wf(),
            performed(
                old(self).trace(),
                final(self).trace(),
                deep_sleep_plan(old(self)@.chip_select, old(self)@.awake),
                outcome_of(r),
            ),
            bus_error(r),
            r is Ok ==> final(self)@ == asleep(old(self)@),
            r is Err ==> final(self)@ == old(self)@ || final(self)@ == asleep(old(self)@),
            !old(self)@.awake ==> r is Ok && final(self).trace() == old(self).trace()
                && final(self)@ == old(self)@,
    {
        self.inner.deep_sleep()
    }

    /// The time since the panel woke up; `None` while it sleeps.
    pub fn power_on_dur(&self) -> (elapsed: Option<Duration>)
        ensures
            elapsed is Some == self@.awake,
    {
        self.inner.power_on_dur()
    }

    fn check_deepsleep(&self) -> (r: Result<(), Error>)
        ensures
            r == if self@.awake {
                Ok::<(), Error>(())
            } else {
                Err(Error::DeepSleep)
            },
    {
        self.inner.state.check_deepsleep()
    }

    /// Waits until the panel is idle, polling every 200 microseconds for at
    /// most five seconds. A sleeping panel is not touched: the wait is
    /// refused with `DeepSleep`.
    pub fn wait_busy(&mut self) -> (r: Result<(), Error>)
        requires
            old(self).wf(),
        ensures
            final(self).wf(),
            final(self)@ == old(self)@,
            if old(self)@.awake {
                performed(old(self).trace(), final(self).trace(), idle(), outcome_of(r))
                    && bus_error(r)
            } else {
                r == Err::<(), Error>(Error::DeepSleep) && final(self).trace() == old(self).trace()
            },
    {
        self.check_deepsleep()?;
        let ghost t = self.trace();
        let ghost p = seq![idle()];
        proof {
            lemma_progress_start(t, p);
            assert(chain(p) =~= idle()) by {
                assert(p.drop_last() =~= Seq::<Seq<Step>>::empty());
                assert(chain(p.drop_last()) =~= Seq::<Step>::empty());
                reveal_with_fuel(chain, 2);
            }
        }
        self.inner.wait_busy_without_check(Ghost(t), Ghost(p), Ghost(0))
    }
}

impl<H: Hardware> Epd5in79<H, Gray2> {
    /// Sets the panel up for the gray2 refresh.
    fn init_gray2(&mut self) -> (r: Result<(), Error>)
        requires
            old(self).wf(),
        ensures
            final(self).wf(),
            performed(
                old(self).trace(),
                final(self).trace(),
                init_plan(old(self)@, DisplayMode::Gray2),
                outcome_of(r),
            ),
            bus_error(r),
            r is Ok ==> final(self)@ == (Panel {
                awake: true,
                initialized_for: Some(DisplayMode::Gray2),
                planes: old(self)@.planes,
                ..old(self)@
            }),
            r is Err ==> disturbed(old(self)@, final(self)@, DisplayMode::Gray2),
    {
        let ghost t = self.trace();
        let ghost cs = self@.chip_select;
        let ghost p = seq![
            power_on_plan(cs, self@.awake),
            register(cs, 0x0c, seq![0x8bu8, 0x9cu8, 0xa6u8, 0x0fu8]),
            register(cs, 0x3c, seq![0x81u8]),
            address_window(cs),
            lut_plan(cs),
        ];
        proof {
            lemma_progress_start(t, p);
        }
        let r = self.inner.power_on();
        proof {
            lemma_stepped(t, t, self.trace(), p, 0, r);
        }
        r?;
        self.inner.command_data(0x0c, &[0x8b, 0x9c, 0xa6, 0x0f], Ghost(t), Ghost(p), Ghost(1))?;
        self.inner.command_data(0x3c, &[0x81], Ghost(t), Ghost(p), Ghost(2))?;
        let ghost m = self.trace();
        let r = self.inner.set_address();
        proof {
            lemma_stepped(t, m, self.trace(), p, 3, r);
        }
        r?;
        let ghost m = self.trace();
        let r = self.inner.load_lut();
        proof {
            lemma_stepped(t, m, self.trace(), p, 4, r);
        }
        r?;
        self.inner.state.init_for = Some(DisplayMode::Gray2);
        Ok(())
    }

    /// Sets the panel up for the gray2 refresh, unless it is set up
    /// for it already.
    fn ensure_inited_gray2(&mut self) -> (r: Result<(), Error>)
        requires
            old(self).wf(),
        ensures
            final(self).wf(),
            performed(
                old(self).trace(),
                final(self).trace(),
                ensure_plan(old(self)@, DisplayMode::Gray2),
                outcome_of(r),
            ),
            bus_error(r),
            r is Ok ==> final(self)@ == (Panel {
                awake: true,
                initialized_for: Some(DisplayMode::Gray2),
                planes: planes_prepared(old(self)@, DisplayMode::Gray2),
                ..old(self)@
            }),
            r is Err ==> disturbed(old(self)@, final(self)@, DisplayMode::Gray2),
    {
        if !self.inner.state.is_ready_for(DisplayMode::Gray2) {
            self.init_gray2()?;
        } else {
            proof {
                lemma_performed_nothing(self.trace());
            }
        }
        Ok(())
    }

    /// Shows the planes in four gray levels: sets the panel up for the gray
    /// refresh where that is needed, sends all four planes, and triggers the
    /// refresh.
    pub fn display_gray2(&mut self) -> (r: Result<(), Error>)
        requires
            old(self).wf(),
        ensures
            final(self).wf(),
            performed(
                old(self).trace(),
                final(self).trace(),
                display_plan(old(self)@, DisplayMode::Gray2),
                outcome_of(r),
            ),
            bus_error(r),
            r is Ok ==> final(self)@ == shown(old(self)@, DisplayMode::Gray2),
            r is Err ==> disturbed(old(self)@, final(self)@, DisplayMode::Gray2),
    {
        let ghost t = self.trace();
        let ghost cs = self@.chip_select;
        let ghost sent = planes_shown(
            planes_prepared(self@, DisplayMode::Gray2),
            DisplayMode::Gray2,
        );
        let ghost p = seq![
            ensure_plan(self@, DisplayMode::Gray2),
            send_all_plan(cs, sent),
            refresh_plan(cs, 0xcf),
        ];
        proof {
            lemma_progress_start(t, p);
        }
        let r = self.ensure_inited_gray2();
        proof {
            lemma_stepped(t, t, self.trace(), p, 0, r);
        }
        r?;

        // send data
        let ghost m = self.trace();
        let r = self.inner.send_bufs_all();
        proof {
            lemma_stepped(t, m, self.trace(), p, 1, r);
        }
        r?;
        // turn on display
        let ghost m = self.trace();
        let r = self.inner.refresh(0xcf);
        proof {
            lemma_stepped(t, m, self.trace(), p, 2, r);
        }
        r
    }

    /// The gray level of a pixel; `None` for a point off the panel.
    pub fn pixel(&self, p: Point) -> (color: Option<Gray2>)
        requires
            self.wf(),
        ensures
            color == if in_screen(p.x as int, p.y as int) {
                Some(self@.planes.gray_at(p.x as int, p.y as int))
            } else {
                None
            },
    {
        self.inner.frame.get_gray(p)
    }

    /// Draws the pixels in order; pixels off the panel are left out.
    pub fn draw_iter(&mut self, pixels: &[Pixel<Gray2>])
        requires
            old(self).wf(),
        ensures
            final(self).wf(),
            final(self).trace() == old(self).trace(),
            final(self)@ == (Panel { planes: drawn_gray(old(self)@.planes, pixels@), ..old(self)@ }),
    {
        self.inner.frame.draw_gray(pixels);
    }
}

impl<H: Hardware> Epd5in79<H, BinaryColor> {
    /// Sets the panel up for the full refresh.
    fn init_binary_full(&mut self) -> (r: Result<(), Error>)
        requires
            old(self).wf(),
        ensures
            final(self).wf(),
            performed(
                old(self).trace(),
                final(self).trace(),
                init_plan(old(self)@, DisplayMode::Full),
                outcome_of(r),
            ),
            bus_error(r),
            r is Ok ==> final(self)@ == (Panel {
                awake: true,
                initialized_for: Some(DisplayMode::Full),
                planes: old(self)@.planes,
                ..old(self)@
            }),
            r is Err ==> disturbed(old(self)@, final(self)@, DisplayMode::Full),
    {
        let ghost t = self.trace();
        let ghost cs = self@.chip_select;
        let ghost p = seq![
            power_on_plan(cs, self@.awake),
            address_window(cs),
        ];
        proof {
            lemma_progress_start(t, p);
        }
        let r = self.inner.power_on();
        proof {
            lemma_stepped(t, t, self.trace(), p, 0, r);
        }
        r?;
        let ghost m = self.trace();
        let r = self.inner.set_address();
        proof {
            lemma_stepped(t, m, self.trace(), p, 1, r);
        }
        r?;
        self.inner.state.init_for = Some(DisplayMode::Full);
        Ok(())
    }

    /// Sets the panel up for the full refresh, unless it is set up
    /// for it already.
    fn ensure_inited_binary_full(&mut self) -> (r: Result<(), Error>)
        requires
            old(self).wf(),
        ensures
            final(self).wf(),
            performed(
                old(self).trace(),
                final(self).trace(),
                ensure_plan(old(self)@, DisplayMode::Full),
                outcome_of(r),
            ),
            bus_error(r),
            r is Ok ==> final(self)@ == (Panel {
                awake: true,
                initialized_for: Some(DisplayMode::Full),
                planes: planes_prepared(old(self)@, DisplayMode::Full),
                ..old(self)@
            }),
            r is Err ==> disturbed(old(self)@, final(self)@, DisplayMode::Full),
    {
        if !self.inner.state.is_ready_for(DisplayMode::Full) {
            self.init_binary_full()?;
        } else {
            proof {
                lemma_performed_nothing(self.trace());
            }
        }
        Ok(())
    }

    /// Shows the planes with the full refresh: sets the panel up for it where
    /// that is needed, clears the secondary planes, sends all four planes,
    /// and triggers the refresh.
    pub fn display_binary_full(&mut self) -> (r: Result<(), Error>)
        requires
            old(self).wf(),
        ensures
            final(self).wf(),
            performed(
                old(self).trace(),
                final(self).trace(),
                display_plan(old(self)@, DisplayMode::Full),
                outcome_of(r),
            ),
            bus_error(r),
            r is Ok ==> final(self)@ == shown(old(self)@, DisplayMode::Full),
            r is Err ==> disturbed(old(self)@, final(self)@, DisplayMode::Full),
    {
        let ghost t = self.trace();
        let ghost cs = self@.chip_select;
        let ghost sent = planes_shown(
            planes_prepared(self@, DisplayMode::Full),
            DisplayMode::Full,
        );
        let ghost p = seq![
            ensure_plan(self@, DisplayMode::Full),
            send_all_plan(cs, sent),
            refresh_plan(cs, 0xf7),
        ];
        proof {
            lemma_progress_start(t, p);
        }
        let r = self.ensure_inited_binary_full();
        proof {
            lemma_stepped(t, t, self.trace(), p, 0, r);
        }
        r?;

        // send data
        self.inner.frame.clear_secondary();
        let ghost m = self.trace();
        let r = self.inner.send_bufs_all();
        proof {
            lemma_stepped(t, m, self.trace(), p, 1, r);
        }
        r?;
        // turn on display
        let ghost m = self.trace();
        let r = self.inner.refresh(0xf7);
        proof {
            lemma_stepped(t, m, self.trace(), p, 2, r);
        }
        r
    }

    /// Sets the panel up for the fast refresh.
    fn init_binary_fast(&mut self) -> (r: Result<(), Error>)
        requires
            old(self).wf(),
        ensures
            final(self).wf(),
            performed(
                old(self).trace(),
                final(self).trace(),
                init_plan(old(self)@, DisplayMode::Fast),
                outcome_of(r),
            ),
            bus_error(r),
            r is Ok ==> final(self)@ == (Panel {
                awake: true,
                initialized_for: Some(DisplayMode::Fast),
                planes: old(self)@.planes,
                ..old(self)@
            }),
            r is Err ==> disturbed(old(self)@, final(self)@, DisplayMode::Fast),
    {
        let ghost t = self.trace();
        let ghost cs = self@.chip_select;
        let ghost p = seq![
            power_on_plan(cs, self@.awake),
            register(cs, 0x18, seq![0x80u8]),
            register(cs, 0x22, seq![0xb1u8]),
            activate(cs),
            register(cs, 0x1a, seq![0x64u8, 0x00u8]),
            register(cs, 0x22, seq![0x91u8]),
            activate(cs),
            address_window(cs),
        ];
        proof {
            lemma_progress_start(t, p);
        }
        let r = self.inner.power_on();
        proof {
            lemma_stepped(t, t, self.trace(), p, 0, r);
        }
        r?;

        self.inner.command_data(0x18, &[0x80], Ghost(t), Ghost(p), Ghost(1))?;
        self.inner.command_data(0x22, &[0xb1], Ghost(t), Ghost(p), Ghost(2))?;
        let ghost m = self.trace();
        let r = self.inner.activate();
        proof {
            lemma_stepped(t, m, self.trace(), p, 3, r);
        }
        r?;

        self.inner.command_data(0x1a, &[0x64, 0x00], Ghost(t), Ghost(p), Ghost(4))?;
        self.inner.command_data(0x22, &[0x91], Ghost(t), Ghost(p), Ghost(5))?;
        let ghost m = self.trace();
        let r = self.inner.activate();
        proof {
            lemma_stepped(t, m, self.trace(), p, 6, r);
        }
        r?;

        let ghost m = self.trace();
        let r = self.inner.set_address();
        proof {
            lemma_stepped(t, m, self.trace(), p, 7, r);
        }
        r?;
        self.inner.state.init_for = Some(DisplayMode::Fast);
        Ok(())
    }

    /// Sets the panel up for the fast refresh, unless it is set up
    /// for it already.
    fn ensure_inited_binary_fast(&mut self) -> (r: Result<(), Error>)
        requires
            old(self).wf(),
        ensures
            final(self).wf(),
            performed(
                old(self).trace(),
                final(self).trace(),
                ensure_plan(old(self)@, DisplayMode::Fast),
                outcome_of(r),
            ),
            bus_error(r),
            r is Ok ==> final(self)@ == (Panel {
                awake: true,
                initialized_for: Some(DisplayMode::Fast),
                planes: planes_prepared(old(self)@, DisplayMode::Fast),
                ..old(self)@
            }),
            r is Err ==> disturbed(old(self)@, final(self)@, DisplayMode::Fast),
    {
        if !self.inner.state.is_ready_for(DisplayMode::Fast) {
            self.init_binary_fast()?;
        } else {
            proof {
                lemma_performed_nothing(self.trace());
            }
        }
        Ok(())
    }

    /// Shows the planes with the fast refresh: sets the panel up for it where
    /// that is needed, clears the secondary planes, sends all four planes,
    /// and triggers the refresh.
    pub fn display_binary_fast(&mut self) -> (r: Result<(), Error>)
        requires
            old(self).wf(),
        ensures
            final(self).wf(),
            performed(
                old(self).trace(),
                final(self).trace(),
                display_plan(old(self)@, DisplayMode::Fast),
                outcome_of(r),
            ),
            bus_error(r),
            r is Ok ==> final(self)@ == shown(old(self)@, DisplayMode::Fast),
            r is Err ==> disturbed(old(self)@, final(self)@, DisplayMode::Fast),
    {
        let ghost t = self.trace();
        let ghost cs = self@.chip_select;
        let ghost sent = planes_shown(
            planes_prepared(self@, DisplayMode::Fast),
            DisplayMode::Fast,
        );
        let ghost p = seq![
            ensure_plan(self@, DisplayMode::Fast),
            send_all_plan(cs, sent),
            refresh_plan(cs, 0xc7),
        ];
        proof {
            lemma_progress_start(t, p);
        }
        let r = self.ensure_inited_binary_fast();
        proof {
            lemma_stepped(t, t, self.trace(), p, 0, r);
        }
        r?;

        // send data
        self.inner.frame.clear_secondary();
        let ghost m = self.trace();
        let r = self.inner.send_bufs_all();
        proof {
            lemma_stepped(t, m, self.trace(), p, 1, r);
        }
        r?;
        // turn on display
        let ghost m = self.trace();
        let r = self.inner.refresh(0xc7);
        proof {
            lemma_stepped(t, m, self.trace(), p, 2, r);
        }
        r
    }

    /// Sets the panel up for the partial refresh, for which it is not set
    /// up yet: the planes that it shows become the image shown so far.
    fn init_binary_partial(&mut self) -> (r: Result<(), Error>)
        requires
            old(self).wf(),
            !old(self)@.ready_for(DisplayMode::Partial),
        ensures
            final(self).wf(),
            performed(
                old(self).trace(),
                final(self).trace(),
                init_plan(old(self)@, DisplayMode::Partial),
                outcome_of(r),
            ),
            bus_error(r),
            r is Ok ==> final(self)@ == (Panel {
                awake: true,
                initialized_for: Some(DisplayMode::Partial),
                planes: old(self)@.planes.with_secondary_from_primary(),
                ..old(self)@
            }),
            r is Err ==> disturbed(old(self)@, final(self)@, DisplayMode::Partial),
    {
        let ghost t = self.trace();
        let ghost cs = self@.chip_select;
        let ghost p = seq![
            power_on_plan(cs, self@.awake),
            register(cs, 0x3c, seq![0x80u8]),
            address_window(cs),
            send_secondary_plan(cs, self@.planes.with_secondary_from_primary()),
        ];
        proof {
            lemma_progress_start(t, p);
        }
        let r = self.inner.power_on();
        proof {
            lemma_stepped(t, t, self.trace(), p, 0, r);
        }
        r?;
        self.inner.command_data(0x3c, &[0x80], Ghost(t), Ghost(p), Ghost(1))?;
        let ghost m = self.trace();
        let r = self.inner.set_address();
        proof {
            lemma_stepped(t, m, self.trace(), p, 2, r);
        }
        r?;
        self.inner.frame.copy_primary_to_secondary();
        let ghost m = self.trace();
        let r = self.inner.send_bufs(0x26, 0xa6);
        proof {
            lemma_stepped(t, m, self.trace(), p, 3, r);
        }
        r?;
        self.inner.state.init_for = Some(DisplayMode::Partial);
        Ok(())
    }

    /// Sets the panel up for the partial refresh, unless it is set up
    /// for it already.
    fn ensure_inited_binary_partial(&mut self) -> (r: Result<(), Error>)
        requires
            old(self).wf(),
        ensures
            final(self).wf(),
            performed(
                old(self).trace(),
                final(self).trace(),
                ensure_plan(old(self)@, DisplayMode::Partial),
                outcome_of(r),
            ),
            bus_error(r),
            r is Ok ==> final(self)@ == (Panel {
                awake: true,
                initialized_for: Some(DisplayMode::Partial),
                planes: planes_prepared(old(self)@, DisplayMode::Partial),
                ..old(self)@
            }),
            r is Err ==> disturbed(old(self)@, final(self)@, DisplayMode::Partial),
    {
        if !self.inner.state.is_ready_for(DisplayMode::Partial) {
            self.init_binary_partial()?;
        } else {
            proof {
                lemma_performed_nothing(self.trace());
            }
        }
        Ok(())
    }

    /// Shows the planes with the partial refresh: sets the panel up for it
    /// where that is needed, which sends the image shown so far, then sends
    /// the two primary planes and triggers the refresh.
    pub fn display_binary_partial(&mut self) -> (r: Result<(), Error>)
        requires
            old(self).wf(),
        ensures
            final(self).wf(),
            performed(
                old(self).trace(),
                final(self).trace(),
                display_plan(old(self)@, DisplayMode::Partial),
                outcome_of(r),
            ),
            bus_error(r),
            r is Ok ==> final(self)@ == shown(old(self)@, DisplayMode::Partial),
            r is Err ==> disturbed(old(self)@, final(self)@, DisplayMode::Partial),
    {
        let ghost t = self.trace();
        let ghost cs = self@.chip_select;
        let ghost sent = planes_shown(
            planes_prepared(self@, DisplayMode::Partial),
            DisplayMode::Partial,
        );
        let ghost p = seq![
            ensure_plan(self@, DisplayMode::Partial),
            send_primary_plan(cs, sent),
            refresh_plan(cs, 0xff),
        ];
        proof {
            lemma_progress_start(t, p);
        }
        let r = self.ensure_inited_binary_partial();
        proof {
            lemma_stepped(t, t, self.trace(), p, 0, r);
        }
        r?;

        // send data
        let ghost m = self.trace();
        let r = self.inner.send_bufs(0x24, 0xa4);
        proof {
            lemma_stepped(t, m, self.trace(), p, 1, r);
        }
        r?;
        // turn on display
        let ghost m = self.trace();
        let r = self.inner.refresh(0xff);
        proof {
            lemma_stepped(t, m, self.trace(), p, 2, r);
        }
        r
    }

    /// The binary colour of a pixel; `None` for a point off the panel.
    pub fn pixel(&self, p: Point) -> (color: Option<BinaryColor>)
        requires
            self.wf(),
        ensures
            color == if in_screen(p.x as int, p.y as int) {
                Some(self@.planes.binary_at(p.x as int, p.y as int))
            } else {
                None
            },
    {
        self.inner.frame.get_binary(p)
    }

    /// Draws the pixels in order; pixels off the panel are left out.
    pub fn draw_iter(&mut self, pixels: &[Pixel<BinaryColor>])
        requires
            old(self).wf(),
        ensures
            final(self).wf(),
            final(self).trace() == old(self).trace(),
            final(self)@ == (Panel {
                planes: drawn_binary(old(self)@.planes, pixels@),
                ..old(self)@
            }),
    {
        self.inner.frame.draw_binary(pixels);
    }
}

/// The panel state after a refresh in `mode` went through.
pub open spec fn shown(panel: Panel, mode: DisplayMode) -> Panel {
    Panel {
        awake: true,
        initialized_for: Some(mode),
        planes: planes_shown(planes_prepared(panel, mode), mode),
        ..panel
    }
}

/// Mode-skip law: after a refresh in a mode went through, the next refresh
/// in the same mode sets nothing up. Its plan is to send the planes and to
/// trigger the refresh, and the planes that it sends are those that the
/// first refresh left.
pub proof fn lemma_second_refresh_skips_set_up(panel: Panel, mode: DisplayMode)
    requires
        panel.wf(),
    ensures
        shown(panel, mode).wf(),
        shown(panel, mode).ready_for(mode),
        ensure_plan(shown(panel, mode), mode) == Seq::<Step>::empty(),
        planes_shown(planes_prepared(shown(panel, mode), mode), mode) == shown(panel, mode).planes,
        display_plan(shown(panel, mode), mode) == if mode == DisplayMode::Partial {
            send_primary_plan(panel.chip_select, shown(panel, mode).planes)
        } else {
            send_all_plan(panel.chip_select, shown(panel, mode).planes)
        } + refresh_plan(panel.chip_select, update_control(mode)),
{
    let next = shown(panel, mode);
    let cs = panel.chip_select;
    let sent = planes_shown(planes_prepared(next, mode), mode);
    assert(sent =~= next.planes) by {
        assert(next.planes.with_secondary_cleared().master_secondary =~= Seq::new(
            13600,
            |i: int| 0u8,
        ));
    }
    let send = if mode == DisplayMode::Partial {
        send_primary_plan(cs, sent)
    } else {
        send_all_plan(cs, sent)
    };
    let pieces = seq![Seq::<Step>::empty(), send, refresh_plan(cs, update_control(mode))];
    assert(display_plan(next, mode) == chain(pieces));
    assert(pieces.drop_last() =~= seq![Seq::<Step>::empty(), send]);
    assert(pieces.drop_last().drop_last() =~= seq![Seq::<Step>::empty()]);
    assert(pieces.drop_last().drop_last().drop_last() =~= Seq::<Seq<Step>>::empty());
    reveal_with_fuel(chain, 4);
    assert(chain(pieces) =~= send + refresh_plan(cs, update_control(mode)));
}

/// Sleep law: a deep sleep of a panel that sleeps already sends no second
/// sleep command. It adds nothing to the record and can only succeed.
pub proof fn lemma_sleep_twice(
    panel: Panel,
    before: Seq<Event>,
    after: Seq<Event>,
    outcome: Outcome,
)
    requires
        performed(
            before,
            after,
            deep_sleep_plan(panel.chip_select, asleep(panel).awake),
            outcome,
        ),
    ensures
        after == before,
        outcome == Outcome::Completed,
        asleep(asleep(panel)) == asleep(panel),
{
    lemma_performed_empty(before, after, outcome);
}

} // verus!
