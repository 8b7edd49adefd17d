use waveshare_epd::error::{Error, TimeOutError, TransportError};
use waveshare_epd::hardware::{Board, DelayStep, Line, Recorded};
use waveshare_epd::simulator::{Record, Simulator};
use waveshare_epd::spi_interface::{PinDefinition, SpiInterface};

fn drive(line: Line, on: bool) -> Record {
    Record::Drive { line, on }
}

fn write(bytes: &[u8]) -> Record {
    Record::Write { bytes: bytes.to_vec() }
}

fn sample(busy: bool) -> Record {
    Record::Sample { busy }
}

fn pause(step: DelayStep) -> Record {
    Record::Delay { step }
}

#[test]
fn pin_definitions() {
    let pins = PinDefinition::new(1, 2, Some(3), 4, 5);
    assert_eq!(pins.rst_pin, 1);
    assert_eq!(pins.dc_pin, 2);
    assert_eq!(pins.cs_pin, Some(3));
    assert_eq!(pins.busy_pin, 4);
    assert_eq!(pins.pwr_pin, 5);
    assert_eq!(PinDefinition::default(), PinDefinition::new(17, 25, None, 24, 18));
    assert_eq!(PinDefinition::default_with_cs(), PinDefinition::new(17, 25, Some(8), 24, 18));
}

#[test]
fn delay_steps() {
    assert_eq!(DelayStep::Ns(0).max_one(), DelayStep::Ns(1));
    assert_eq!(DelayStep::Us(0).max_one(), DelayStep::Us(1));
    assert_eq!(DelayStep::Ms(0).max_one(), DelayStep::Ms(1));
    assert_eq!(DelayStep::Ns(7).max_one(), DelayStep::Ns(7));
    assert_eq!(DelayStep::Us(200).max_one(), DelayStep::Us(200));
    assert_eq!(DelayStep::Ms(u32::MAX).max_one(), DelayStep::Ms(u32::MAX));
    assert_eq!(DelayStep::Ns(7).as_nanos(), 7);
    assert_eq!(DelayStep::Us(200).as_nanos(), 200_000);
    assert_eq!(DelayStep::Ms(3).as_nanos(), 3_000_000);
    assert_eq!(DelayStep::Ms(u32::MAX).as_nanos(), 4_294_967_295_000_000);
}

#[test]
fn command_without_chip_select() {
    let mut spi = SpiInterface::new(Simulator::new(), false);
    spi.command(0x12).unwrap();
    assert_eq!(
        spi.hardware().log(),
        &vec![drive(Line::DataCommand, false), write(&[0x12])]
    );
}

#[test]
fn command_with_chip_select() {
    let mut spi = SpiInterface::new(Simulator::new(), true);
    spi.command(0x20).unwrap();
    assert_eq!(
        spi.release().log(),
        &vec![
            drive(Line::ChipSelect, true),
            drive(Line::DataCommand, false),
            write(&[0x20]),
            drive(Line::ChipSelect, false),
        ]
    );
}

#[test]
fn data_is_sent_in_chunks() {
    let mut spi = SpiInterface::new(Simulator::new(), true);
    spi.data(&[1, 2, 3, 4, 5, 6, 7, 8, 9, 10], 4).unwrap();
    assert_eq!(
        spi.hardware().log(),
        &vec![
            drive(Line::ChipSelect, true),
            drive(Line::DataCommand, true),
            write(&[1, 2, 3, 4]),
            write(&[5, 6, 7, 8]),
            write(&[9, 10]),
            drive(Line::ChipSelect, false),
        ]
    );
}

#[test]
fn data_that_fits_one_chunk() {
    let mut spi = SpiInterface::new(Simulator::new(), false);
    spi.data(&[1, 2, 3, 4], 4).unwrap();
    spi.data(&[5, 6], 4096).unwrap();
    assert_eq!(
        spi.hardware().log(),
        &vec![
            drive(Line::DataCommand, true),
            write(&[1, 2, 3, 4]),
            drive(Line::DataCommand, true),
            write(&[5, 6]),
        ]
    );
}

#[test]
fn empty_data_sends_nothing() {
    let mut spi = SpiInterface::new(Simulator::new(), true);
    spi.data(&[], 4).unwrap();
    assert!(spi.hardware().log().is_empty());
}

#[test]
fn chunk_size_zero_counts_as_one() {
    let mut spi = SpiInterface::new(Simulator::new(), false);
    spi.data(&[7, 8], 0).unwrap();
    assert_eq!(
        spi.hardware().log(),
        &vec![drive(Line::DataCommand, true), write(&[7]), write(&[8])]
    );
}

#[test]
fn command_data_is_command_then_data() {
    let mut spi = SpiInterface::new(Simulator::new(), true);
    spi.command_data(0x44, &[0x00, 0x31], 4096).unwrap();
    assert_eq!(
        spi.hardware().log(),
        &vec![
            drive(Line::ChipSelect, true),
            drive(Line::DataCommand, false),
            write(&[0x44]),
            drive(Line::ChipSelect, false),
            drive(Line::ChipSelect, true),
            drive(Line::DataCommand, true),
            write(&[0x00, 0x31]),
            drive(Line::ChipSelect, false),
        ]
    );
}

#[test]
fn command_data_without_payload() {
    let mut spi = SpiInterface::new(Simulator::new(), false);
    spi.command_data(0x20, &[], 4096).unwrap();
    assert_eq!(
        spi.hardware().log(),
        &vec![drive(Line::DataCommand, false), write(&[0x20])]
    );
}

#[test]
fn lines_and_delay() {
    let mut spi = SpiInterface::new(Simulator::new(), false);
    spi.set_power(true).unwrap();
    spi.set_rst_pin(true).unwrap();
    spi.delay(DelayStep::Us(200));
    spi.set_rst_pin(false).unwrap();
    spi.set_power(false).unwrap();
    assert!(!spi.is_busy().unwrap());
    assert_eq!(
        spi.hardware().log(),
        &vec![
            drive(Line::Power, true),
            drive(Line::Reset, true),
            pause(DelayStep::Us(200)),
            drive(Line::Reset, false),
            drive(Line::Power, false),
            sample(false),
        ]
    );
}

#[test]
fn is_busy_reads_the_line() {
    let mut sim = Simulator::new();
    sim.set_busy_samples(1);
    let mut spi = SpiInterface::new(sim, false);
    assert!(spi.is_busy().unwrap());
    assert!(!spi.is_busy().unwrap());
}

#[test]
fn wait_returns_at_once_when_idle() {
    let mut spi = SpiInterface::new(Simulator::new(), false);
    assert_eq!(spi.wait_busy_timeout(DelayStep::Us(200), 5_000_000_000), Ok(0));
    assert_eq!(spi.hardware().log(), &vec![sample(false)]);
}

#[test]
fn wait_counts_the_pauses() {
    let mut sim = Simulator::new();
    sim.set_busy_samples(3);
    let mut spi = SpiInterface::new(sim, false);
    let elapsed = spi.wait_busy_timeout(DelayStep::Us(200), 5_000_000_000).unwrap();
    assert_eq!(elapsed, 600_000);
    let step = DelayStep::Us(200);
    assert_eq!(
        spi.hardware().log(),
        &vec![
            sample(true),
            pause(step),
            sample(true),
            pause(step),
            sample(true),
            pause(step),
            sample(false),
        ]
    );
}

#[test]
fn wait_times_out_when_the_line_never_clears() {
    let mut sim = Simulator::new();
    sim.set_stuck(true);
    let mut spi = SpiInterface::new(sim, false);
    let r = spi.wait_busy_timeout(DelayStep::Ms(1), 3_500_000);
    assert_eq!(
        r,
        Err(Error::TimeOut(TimeOutError { timeout: 3_500_000, elapsed: 4_000_000 }))
    );
    // four pauses, and a sample before and after each
    assert_eq!(spi.hardware().log().len(), 9);
    assert_eq!(spi.hardware().log().last(), Some(&sample(true)));
}

#[test]
fn wait_with_timeout_zero() {
    let mut sim = Simulator::new();
    sim.set_stuck(true);
    let mut spi = SpiInterface::new(sim, false);
    let r = spi.wait_busy_timeout(DelayStep::Us(200), 0);
    assert_eq!(r, Err(Error::TimeOut(TimeOutError { timeout: 0, elapsed: 0 })));
    assert_eq!(spi.hardware().log(), &vec![sample(true)]);
    // an idle line is no timeout, whatever the bound
    let mut spi = SpiInterface::new(Simulator::new(), false);
    assert_eq!(spi.wait_busy_timeout(DelayStep::Us(200), 0), Ok(0));
}

#[test]
fn wait_with_step_zero_makes_progress() {
    let mut sim = Simulator::new();
    sim.set_stuck(true);
    let mut spi = SpiInterface::new(sim, false);
    let r = spi.wait_busy_timeout(DelayStep::Ns(0), 5);
    assert_eq!(r, Err(Error::TimeOut(TimeOutError { timeout: 5, elapsed: 5 })));
    assert_eq!(spi.hardware().log()[1], pause(DelayStep::Ns(1)));
    assert_eq!(spi.hardware().log().len(), 11);
}

#[test]
fn wait_survives_the_largest_bound() {
    let mut sim = Simulator::new();
    sim.set_busy_samples(2);
    let mut spi = SpiInterface::new(sim, false);
    let r = spi.wait_busy_timeout(DelayStep::Ms(u32::MAX), u64::MAX);
    assert_eq!(r, Ok(2 * 4_294_967_295_000_000));
}

#[test]
fn a_fault_is_handed_on_and_nothing_follows_it() {
    let mut sim = Simulator::new();
    sim.fail_after(1, TransportError::Bus);
    let mut spi = SpiInterface::new(sim, true);
    let r = spi.command(0x12);
    assert_eq!(r, Err(Error::Transport(TransportError::Bus)));
    assert_eq!(
        spi.hardware().log(),
        &vec![
            drive(Line::ChipSelect, true),
            Record::Fault { error: TransportError::Bus },
        ]
    );
    // the planned fault is spent
    spi.command(0x12).unwrap();
    assert_eq!(spi.hardware().log().len(), 6);
}

#[test]
fn a_fault_while_waiting() {
    let mut sim = Simulator::new();
    sim.set_stuck(true);
    sim.fail_after(2, TransportError::Input);
    let mut spi = SpiInterface::new(sim, false);
    let r = spi.wait_busy_timeout(DelayStep::Us(200), 5_000_000_000);
    assert_eq!(r, Err(Error::Transport(TransportError::Input)));
    assert_eq!(
        spi.hardware().log(),
        &vec![
            sample(true),
            pause(DelayStep::Us(200)),
            sample(true),
            pause(DelayStep::Us(200)),
            Record::Fault { error: TransportError::Input },
        ]
    );
}

#[test]
fn a_fault_in_the_middle_of_data() {
    let mut sim = Simulator::new();
    sim.fail_after(2, TransportError::Bus);
    let mut spi = SpiInterface::new(sim, false);
    let r = spi.data(&[1, 2, 3], 1);
    assert_eq!(r, Err(Error::Transport(TransportError::Bus)));
    assert_eq!(
        spi.hardware().log(),
        &vec![
            drive(Line::DataCommand, true),
            write(&[1]),
            Record::Fault { error: TransportError::Bus },
        ]
    );
}

#[test]
fn timeout_message() {
    let e = TimeOutError { timeout: 5, elapsed: 7 };
    assert_eq!(e.message(), "timeout: 5ns, elapsed: 7ns");
    let e = TimeOutError { timeout: 5_000_000_000, elapsed: 5_000_200_000 };
    assert_eq!(e.message(), "timeout: 5000000000ns, elapsed: 5000200000ns");
    let e = TimeOutError { timeout: 0, elapsed: u64::MAX };
    assert_eq!(e.message(), "timeout: 0ns, elapsed: 18446744073709551615ns");
    let e = TimeOutError { timeout: 10, elapsed: 1234567890 };
    assert_eq!(e.message(), format!("timeout: {}ns, elapsed: {}ns", e.timeout, e.elapsed));
}

#[test]
fn simulator_record_can_be_cleared() {
    let mut sim = Simulator::new();
    sim.set_busy_samples(1);
    let mut spi = SpiInterface::new(sim, false);
    spi.command(1).unwrap();
    let mut sim = spi.release();
    sim.clear_log();
    assert!(sim.log().is_empty());
    let mut spi = SpiInterface::new(sim, false);
    assert_eq!(spi.is_busy(), Ok(true));
}

struct CountingBoard {
    writes: usize,
    lines: usize,
    busy: u32,
    paused: u64,
}

impl Board for CountingBoard {
    fn set_line(&mut self, _line: Line, _on: bool) -> Result<(), TransportError> {
        self.lines += 1;
        Ok(())
    }

    fn read_busy(&mut self) -> Result<bool, TransportError> {
        if self.busy > 0 {
            self.busy -= 1;
            Ok(true)
        } else {
            Ok(false)
        }
    }

    fn write(&mut self, bytes: &[u8]) -> Result<(), TransportError> {
        if bytes.len() > 4 {
            return Err(TransportError::Bus);
        }
        self.writes += 1;
        Ok(())
    }

    fn delay(&mut self, step: DelayStep) {
        self.paused += step.as_nanos();
    }
}

#[test]
fn a_board_of_the_caller() {
    let board = CountingBoard { writes: 0, lines: 0, busy: 2, paused: 0 };
    let mut spi = SpiInterface::new(Recorded::new(board), true);
    spi.command_data(0x24, &[0; 10], 4).unwrap();
    assert_eq!(spi.wait_busy_timeout(DelayStep::Ms(2), 1_000_000_000), Ok(4_000_000));
    assert_eq!(
        spi.data(&[0; 10], 5),
        Err(Error::Transport(TransportError::Bus))
    );
    let board = spi.release().into_board();
    assert_eq!(board.writes, 4);
    assert_eq!(board.lines, 8);
    assert_eq!(board.paused, 4_000_000);
}
