//! The hardware that the driver is handed: four digital outputs, the busy
//! input, the serial bus and a delay, together with a record of what was done
//! on them.
use vstd::prelude::*;
use crate::error::TransportError;

verus! {

/// A pause, in one of three units.
#[derive(Clone, Copy, Debug, PartialEq, Eq, Structural)]
pub enum DelayStep {
    Ns(u32),
    Us(u32),
    Ms(u32),
}

impl DelayStep {
    /// The length of the pause in nanoseconds.
    pub open spec fn nanos(self) -> int {
        match self {
            DelayStep::Ns(ns) => ns as int,
            DelayStep::Us(us) => us * 1000,
            DelayStep::Ms(ms) => ms * 1000000,
        }
    }

    /// The same pause, or one unit where the pause is zero.
    pub open spec fn at_least_one(self) -> DelayStep {
        match self {
            DelayStep::Ns(ns) => DelayStep::Ns(if ns < 1 { 1u32 } else { ns }),
            DelayStep::Us(us) => DelayStep::Us(if us < 1 { 1u32 } else { us }),
            DelayStep::Ms(ms) => DelayStep::Ms(if ms < 1 { 1u32 } else { ms }),
        }
    }

    /// The same pause, or one unit where the pause is zero.
    pub fn max_one(self) -> (step: DelayStep)
        ensures
            step == self.at_least_one(),
            step.nanos() >= 1,
    {
        match self {
            DelayStep::Ns(ns) => DelayStep::Ns(if ns < 1 { 1 } else { ns }),
            DelayStep::Us(us) => DelayStep::Us(if us < 1 { 1 } else { us }),
            DelayStep::Ms(ms) => DelayStep::Ms(if ms < 1 { 1 } else { ms }),
        }
    }

    /// The length of the pause in nanoseconds.
    pub fn as_nanos(self) -> (ns: u64)
        ensures
            ns == self.nanos(),
    {
        match self {
            DelayStep::Ns(ns) => ns as u64,
            DelayStep::Us(us) => us as u64 * 1000,
            DelayStep::Ms(ms) => ms as u64 * 1000000,
        }
    }
}

/// A digital output of the panel.
#[derive(Clone, Copy, Debug, PartialEq, Eq, Structural)]
pub enum Line {
    /// Reset; the panel is reset by a pulse.
    Reset,
    /// Data or command select: off for a command byte, on for data.
    DataCommand,
    /// Chip select: on selects the panel.
    ChipSelect,
    /// Power supply of the panel.
    Power,
}

/// One thing that happened on the hardware.
pub enum Event {
    /// A digital output was switched on or off.
    Drive { line: Line, on: bool },
    /// Bytes were written to the serial bus in one transfer.
    Write { bytes: Seq<u8> },
    /// The busy input was sampled.
    Sample { busy: bool },
    /// Execution paused.
    Delay { step: DelayStep },
    /// An operation was attempted and the hardware reported a failure.
    Fault { error: TransportError },
}

/// The capabilities that the driver needs, already opened and configured.
///
/// `trace` is the record of everything done through this value, oldest first.
/// Every operation adds exactly one event to it: what was done, or the fault
/// that was reported in its place.
pub trait Hardware {
    spec fn trace(&self) -> Seq<Event>;

    /// Switches a digital output.
    fn set_line(&mut self, line: Line, on: bool) -> (r: Result<(), TransportError>)
        ensures
            final(self).trace() == old(self).trace().push(
                match r {
                    Ok(_) => Event::Drive { line, on },
                    Err(error) => Event::Fault { error },
                },
            ),
    ;

    /// Samples the busy input; `true` while the panel is busy.
    fn read_busy(&mut self) -> (r: Result<bool, TransportError>)
        ensures
            final(self).trace() == old(self).trace().push(
                match r {
                    Ok(busy) => Event::Sample { busy },
                    Err(error) => Event::Fault { error },
                },
            ),
    ;

    /// Writes bytes to the serial bus in one transfer.
    fn write(&mut self, bytes: &[u8]) -> (r: Result<(), TransportError>)
        ensures
            final(self).trace() == old(self).trace().push(
                match r {
                    Ok(_) => Event::Write { bytes: bytes@ },
                    Err(error) => Event::Fault { error },
                },
            ),
    ;

    /// Pauses for at least the given time.
    fn delay(&mut self, step: DelayStep)
        ensures
            final(self).trace() == old(self).trace().push(Event::Delay { step }),
    ;
}

/// The bare operations of a board: what the caller has to supply to drive a
/// real panel. Nothing is asked of an implementation beyond its signatures.
pub trait Board {
    /// Switches a digital output.
    fn set_line(&mut self, line: Line, on: bool) -> Result<(), TransportError>;

    /// Samples the busy input; `true` while the panel is busy.
    fn read_busy(&mut self) -> Result<bool, TransportError>;

    /// Writes bytes to the serial bus in one transfer.
    fn write(&mut self, bytes: &[u8]) -> Result<(), TransportError>;

    /// Pauses for at least the given time.
    fn delay(&mut self, step: DelayStep);
}

/// A board together with the record of what was asked of it and what it
/// answered.
pub struct Recorded<B: Board> {
    board: B,
    history: Ghost<Seq<Event>>,
}

impl<B: Board> Recorded<B> {
    /// The board that is recorded.
    pub closed spec fn board(&self) -> B {
        self.board
    }

    /// A board with an empty record.
    pub fn new(board: B) -> (hardware: Self)
        ensures
            hardware.board() == board,
            hardware.trace() == Seq::<Event>::empty(),
    {
        Recorded { board, history: Ghost(Seq::empty()) }
    }

    /// Gives the board back.
    pub fn into_board(self) -> (board: B)
        ensures
            board == self.board(),
    {
        self.board
    }
}

impl<B: Board> Hardware for Recorded<B> {
    closed spec fn trace(&self) -> Seq<Event> {
        self.history@
    }

    fn set_line(&mut self, line: Line, on: bool) -> (r: Result<(), TransportError>) {
        let r = self.board.set_line(line, on);
        proof {
            self.history@ = self.history@.push(
                match r {
                    Ok(_) => Event::Drive { line, on },
                    Err(error) => Event::Fault { error },
                },
            );
        }
        r
    }

    fn read_busy(&mut self) -> (r: Result<bool, TransportError>) {
        let r = self.board.read_busy();
        proof {
            self.history@ = self.history@.push(
                match r {
                    Ok(busy) => Event::Sample { busy },
                    Err(error) => Event::Fault { error },
                },
            );
        }
        r
    }

    fn write(&mut self, bytes: &[u8]) -> (r: Result<(), TransportError>) {
        let r = self.board.write(bytes);
        proof {
            self.history@ = self.history@.push(
                match r {
                    Ok(_) => Event::Write { bytes: bytes@ },
                    Err(error) => Event::Fault { error },
                },
            );
        }
        r
    }

    fn delay(&mut self, step: DelayStep) {
        self.board.delay(step);
        proof {
            self.history@ = self.history@.push(Event::Delay { step });
        }
    }
}

} // verus!
