//! The transport: command and data transfers with the line sequencing that
//! the panel expects, and the wait for its busy line.
//!
//! Conventions:
//! - data/command line: off for a command byte, on for data
//! - chip select: optional; where it is wired, it is switched on around
//!   every transfer
use vstd::prelude::*;
use vstd::slice::slice_subrange;
use crate::error::{Error, TimeOutError};
pub use crate::hardware::DelayStep;
use crate::hardware::{Event, Hardware, Line};
use crate::protocol::{
    Outcome, Step, Waited, chain, lemma_completed_emits, lemma_performed_emit,
    lemma_performed_fault, lemma_performed_nothing, lemma_performed_stop, lemma_performed_then,
    lemma_progress_start, lemma_progress_step, lemma_wait_prefix, outcome_of, performed, run,
    wait,
};

verus! {

/// The step that switches a digital output.
pub open spec fn drive(line: Line, on: bool) -> Step {
    Step::Emit(Event::Drive { line, on })
}

/// The step that writes bytes to the bus in one transfer.
pub open spec fn transfer(bytes: Seq<u8>) -> Step {
    Step::Emit(Event::Write { bytes })
}

/// The step that pauses.
pub open spec fn pause(step: DelayStep) -> Step {
    Step::Emit(Event::Delay { step })
}

/// Switching chip select, where it is wired.
pub open spec fn select(chip_select: bool, on: bool) -> Seq<Step> {
    if chip_select {
        seq![drive(Line::ChipSelect, on)]
    } else {
        Seq::empty()
    }
}

/// Sending one command byte.
pub open spec fn command_plan(chip_select: bool, cmd: u8) -> Seq<Step> {
    chain(
        seq![
            select(chip_select, true),
            seq![drive(Line::DataCommand, false)],
            seq![transfer(seq![cmd])],
            select(chip_select, false),
        ],
    )
}

/// Writing `bytes` in transfers of at most `chunk` bytes, in order.
pub open spec fn transfers(bytes: Seq<u8>, chunk: int) -> Seq<Step>
    decreases bytes.len(),
{
    if bytes.len() == 0 || chunk <= 0 {
        Seq::empty()
    } else if bytes.len() <= chunk {
        seq![transfer(bytes)]
    } else {
        seq![transfer(bytes.take(chunk))] + transfers(bytes.skip(chunk), chunk)
    }
}

/// Sending a data payload in transfers of at most `chunk_size` bytes (of one
/// byte where `chunk_size` is zero); nothing at all for an empty payload.
pub open spec fn data_plan(chip_select: bool, bytes: Seq<u8>, chunk_size: int) -> Seq<Step> {
    if bytes.len() == 0 {
        Seq::empty()
    } else {
        chain(
            seq![
                select(chip_select, true),
                seq![drive(Line::DataCommand, true)],
                transfers(bytes, if chunk_size < 1 { 1 } else { chunk_size }),
                select(chip_select, false),
            ],
        )
    }
}

/// Sending a command byte and then its data payload.
pub open spec fn command_data_plan(
    chip_select: bool,
    cmd: u8,
    bytes: Seq<u8>,
    chunk_size: int,
) -> Seq<Step> {
    chain(seq![command_plan(chip_select, cmd), data_plan(chip_select, bytes, chunk_size)])
}

/// Whether a result is a success or a fault of the hardware.
pub open spec fn fault_or_ok<T>(r: Result<T, Error>) -> bool {
    r matches Err(e) ==> e is Transport
}

/// Waiting for the busy line with a poll step of at least one unit.
pub open spec fn wait_plan(delay: DelayStep, timeout: u64) -> Seq<Step> {
    seq![Step::AwaitIdle { poll: delay.at_least_one(), timeout }]
}

/// A number of nanoseconds as a `u64`, the largest one where it does not fit.
pub open spec fn clamp(nanos: int) -> u64 {
    if nanos > u64::MAX {
        u64::MAX
    } else if nanos < 0 {
        0
    } else {
        nanos as u64
    }
}

/// `count` polls that read busy, each followed by a pause.
pub open spec fn polls(poll: DelayStep, count: nat) -> Seq<Event>
    decreases count,
{
    if count == 0 {
        Seq::empty()
    } else {
        seq![Event::Sample { busy: true }, Event::Delay { step: poll }] + polls(
            poll,
            (count - 1) as nat,
        )
    }
}

/// One more poll at the end is one more poll.
proof fn lemma_polls_push(poll: DelayStep, count: nat)
    ensures
        polls(poll, count + 1) =~= polls(poll, count) + seq![
            Event::Sample { busy: true },
            Event::Delay { step: poll },
        ],
        polls(poll, count).len() == 2 * count,
    decreases count,
{
    if count > 0 {
        lemma_polls_push(poll, (count - 1) as nat);
    }
}

/// A wait that starts with `count` busy polls, none of them past the
/// timeout, goes on as the wait that is read after them.
proof fn lemma_wait_polls(
    poll: DelayStep,
    timeout: int,
    elapsed: int,
    count: nat,
    rest: Seq<Event>,
)
    requires
        poll.nanos() >= 0,
        count > 0 ==> elapsed + (count - 1) * poll.nanos() < timeout,
    ensures
        wait(poll, timeout, elapsed, polls(poll, count) + rest) == match wait(
            poll,
            timeout,
            elapsed + count * poll.nanos(),
            rest,
        ) {
            Some(w) => Some(
                Waited {
                    outcome: w.outcome,
                    elapsed: w.elapsed,
                    used: w.used + 2 * count,
                },
            ),
            None => None,
        },
    decreases count,
{
    let ns = poll.nanos();
    if count == 0 {
        assert(polls(poll, count) + rest =~= rest);
        assert(elapsed + count * ns == elapsed) by (nonlinear_arith)
            requires
                count == 0,
        ;
    } else {
        let all = polls(poll, count) + rest;
        let fewer = (count - 1) as nat;
        assert(all.skip(2) =~= polls(poll, fewer) + rest);
        assert(all[0] == Event::Sample { busy: true });
        assert(all[1] == Event::Delay { step: poll });
        assert((count - 1) * ns >= 0 && count * ns == (count - 1) * ns + ns
            && (fewer > 0 ==> (count - 1) * ns == (fewer - 1) * ns + ns)) by (nonlinear_arith)
            requires
                count >= 1,
                fewer == count - 1,
                ns >= 0,
        ;
        assert(elapsed < timeout);
        lemma_wait_polls(poll, timeout, elapsed + ns, fewer, rest);
        assert(elapsed + ns + fewer * ns == elapsed + count * ns);
    }
}

/// The serial transport to the panel.
pub struct SpiInterface<H: Hardware> {
    hardware: H,
    chip_select: bool,
}

impl<H: Hardware> SpiInterface<H> {
    /// The record of what was done on the hardware.
    pub closed spec fn trace(&self) -> Seq<Event> {
        self.hardware.trace()
    }

    /// Whether a chip select line is wired.
    pub closed spec fn has_chip_select(&self) -> bool {
        self.chip_select
    }

    /// The transport over opened hardware. `chip_select` says whether a chip
    /// select line is wired; a panel that is always selected has none.
    pub fn new(hardware: H, chip_select: bool) -> (spi: Self)
        ensures
            spi.trace() == hardware.trace(),
            spi.has_chip_select() == chip_select,
    {
        SpiInterface { hardware, chip_select }
    }

    /// The hardware, to look at.
    pub fn hardware(&self) -> (hardware: &H)
        ensures
            hardware.trace() == self.trace(),
    {
        &self.hardware
    }

    /// Gives the hardware back.
    pub fn release(self) -> (hardware: H)
        ensures
            hardware.trace() == self.trace(),
    {
        self.hardware
    }

    /// Switches one digital output.
    fn set_line(&mut self, line: Line, on: bool) -> (r: Result<(), Error>)
        ensures
            fault_or_ok(r),
            final(self).has_chip_select() == old(self).has_chip_select(),
            performed(old(self).trace(), final(self).trace(), seq![drive(line, on)], outcome_of(r)),
    {
        proof {
            lemma_performed_emit(self.trace(), Event::Drive { line, on });
        }
        match self.hardware.set_line(line, on) {
            Ok(_) => Ok(()),
            Err(e) => {
                proof {
                    lemma_performed_fault(old(self).trace(), Event::Drive { line, on }, e);
                }
                Err(Error::Transport(e))
            },
        }
    }

    /// Switches chip select, where it is wired.
    fn set_cs(&mut self, active: bool) -> (r: Result<(), Error>)
        ensures
            fault_or_ok(r),
            final(self).has_chip_select() == old(self).has_chip_select(),
            performed(
                old(self).trace(),
                final(self).trace(),
                select(old(self).has_chip_select(), active),
                outcome_of(r),
            ),
    {
        if self.chip_select {
            self.set_line(Line::ChipSelect, active)
        } else {
            proof {
                lemma_performed_nothing(self.trace());
            }
            Ok(())
        }
    }

    /// Samples the busy line once.
    pub fn is_busy(&mut self) -> (r: Result<bool, Error>)
        ensures
            final(self).has_chip_select() == old(self).has_chip_select(),
            match r {
                Ok(busy) => final(self).trace() == old(self).trace().push(Event::Sample { busy }),
                Err(Error::Transport(error)) => final(self).trace() == old(self).trace().push(
                    Event::Fault { error },
                ),
                Err(_) => false,
            },
    {
        match self.hardware.read_busy() {
            Ok(busy) => Ok(busy),
            Err(e) => Err(Error::Transport(e)),
        }
    }

    /// Switches the reset line.
    pub fn set_rst_pin(&mut self, active: bool) -> (r: Result<(), Error>)
        ensures
            fault_or_ok(r),
            final(self).has_chip_select() == old(self).has_chip_select(),
            performed(
                old(self).trace(),
                final(self).trace(),
                seq![drive(Line::Reset, active)],
                outcome_of(r),
            ),
    {
        self.set_line(Line::Reset, active)
    }

    /// Switches the power supply of the panel.
    pub fn set_power(&mut self, on: bool) -> (r: Result<(), Error>)
        ensures
            fault_or_ok(r),
            final(self).has_chip_select() == old(self).has_chip_select(),
            performed(
                old(self).trace(),
                final(self).trace(),
                seq![drive(Line::Power, on)],
                outcome_of(r),
            ),
    {
        self.set_line(Line::Power, on)
    }

    /// Pauses.
    pub fn delay(&mut self, delay: DelayStep)
        ensures
            final(self).has_chip_select() == old(self).has_chip_select(),
            performed(
                old(self).trace(),
                final(self).trace(),
                seq![pause(delay)],
                Outcome::Completed,
            ),
    {
        proof {
            lemma_performed_emit(self.trace(), Event::Delay { step: delay });
        }
        self.hardware.delay(delay);
    }
}

impl<H: Hardware> SpiInterface<H> {
    /// Sends one command byte: chip select on, data/command line off, the
    /// byte, chip select off.
    pub fn command(&mut self, cmd: u8) -> (r: Result<(), Error>)
        ensures
            fault_or_ok(r),
            final(self).has_chip_select() == old(self).has_chip_select(),
            performed(
                old(self).trace(),
                final(self).trace(),
                command_plan(old(self).has_chip_select(), cmd),
                outcome_of(r),
            ),
    {
        let ghost t0 = self.trace();
        let ghost cs = self.has_chip_select();
        let ghost pieces = seq![
            select(cs, true),
            seq![drive(Line::DataCommand, false)],
            seq![transfer(seq![cmd])],
            select(cs, false),
        ];
        proof {
            lemma_progress_start(t0, pieces);
        }
        let ghost t = self.trace();
        let r = self.set_cs(true);
        proof {
            lemma_progress_step(t0, t, self.trace(), pieces, 0, outcome_of(r));
            t = self.trace();
        }
        r?;
        let r = self.set_line(Line::DataCommand, false);
        proof {
            lemma_progress_step(t0, t, self.trace(), pieces, 1, outcome_of(r));
            t = self.trace();
        }
        r?;
        let byte = [cmd];
        let r = self.write(byte.as_slice());
        proof {
            assert(byte@ =~= seq![cmd]);
            lemma_progress_step(t0, t, self.trace(), pieces, 2, outcome_of(r));
            t = self.trace();
        }
        r?;
        let r = self.set_cs(false);
        proof {
            lemma_progress_step(t0, t, self.trace(), pieces, 3, outcome_of(r));
        }
        r
    }

    /// Writes bytes to the bus in one transfer.
    fn write(&mut self, bytes: &[u8]) -> (r: Result<(), Error>)
        ensures
            fault_or_ok(r),
            final(self).has_chip_select() == old(self).has_chip_select(),
            performed(old(self).trace(), final(self).trace(), seq![transfer(bytes@)], outcome_of(r)),
    {
        proof {
            lemma_performed_emit(self.trace(), Event::Write { bytes: bytes@ });
        }
        match self.hardware.write(bytes) {
            Ok(_) => Ok(()),
            Err(e) => {
                proof {
                    lemma_performed_fault(old(self).trace(), Event::Write { bytes: bytes@ }, e);
                }
                Err(Error::Transport(e))
            },
        }
    }

    /// Writes bytes to the bus in transfers of at most `chunk` bytes.
    fn write_chunks(&mut self, data: &[u8], chunk: usize) -> (r: Result<(), Error>)
        requires
            chunk >= 1,
        ensures
            fault_or_ok(r),
            final(self).has_chip_select() == old(self).has_chip_select(),
            performed(
                old(self).trace(),
                final(self).trace(),
                transfers(data@, chunk as int),
                outcome_of(r),
            ),
    {
        let ghost t0 = self.trace();
        let ghost cs = self.has_chip_select();
        let ghost done: Seq<Step> = Seq::empty();
        let mut offset: usize = 0;
        proof {
            lemma_performed_nothing(t0);
            assert(data@.skip(0) =~= data@);
        }
        while offset < data.len()
            invariant
                chunk >= 1,
                offset <= data@.len(),
                self.has_chip_select() == cs,
                cs == old(self).has_chip_select(),
                t0 == old(self).trace(),
                performed(t0, self.trace(), done, Outcome::Completed),
                done + transfers(data@.skip(offset as int), chunk as int) == transfers(
                    data@,
                    chunk as int,
                ),
            decreases data@.len() - offset,
        {
            let end = if data.len() - offset <= chunk {
                data.len()
            } else {
                offset + chunk
            };
            let part = slice_subrange(data, offset, end);
            let ghost t = self.trace();
            let ghost rest = data@.skip(offset as int);
            let r = self.write(part);
            proof {
                lemma_performed_then(t0, t, self.trace(), done, seq![transfer(part@)], outcome_of(r));
                if rest.len() <= chunk {
                    assert(part@ =~= rest);
                    assert(data@.skip(end as int) =~= Seq::<u8>::empty());
                    assert(transfers(rest, chunk as int) =~= seq![transfer(part@)] + transfers(
                        data@.skip(end as int),
                        chunk as int,
                    ));
                } else {
                    assert(part@ =~= rest.take(chunk as int));
                    assert(data@.skip(end as int) =~= rest.skip(chunk as int));
                }
                assert((done + seq![transfer(part@)]) + transfers(
                    data@.skip(end as int),
                    chunk as int,
                ) =~= done + transfers(rest, chunk as int));
                if r is Err {
                    lemma_performed_stop(
                        t0,
                        self.trace(),
                        done + seq![transfer(part@)],
                        transfers(data@.skip(end as int), chunk as int),
                        outcome_of(r),
                    );
                }
                done = done + seq![transfer(part@)];
            }
            r?;
            offset = end;
        }
        proof {
            assert(done + Seq::<Step>::empty() =~= done);
        }
        Ok(())
    }

    /// Sends a data payload: chip select on, data/command line on, the
    /// payload in transfers of at most `chunk_size` bytes, chip select off.
    /// An empty payload sends nothing.
    pub fn data(&mut self, data: &[u8], chunk_size: usize) -> (r: Result<(), Error>)
        ensures
            fault_or_ok(r),
            final(self).has_chip_select() == old(self).has_chip_select(),
            performed(
                old(self).trace(),
                final(self).trace(),
                data_plan(old(self).has_chip_select(), data@, chunk_size as int),
                outcome_of(r),
            ),
    {
        let chunk_size = if chunk_size < 1 {
            1
        } else {
            chunk_size
        };
        if data.len() == 0 {
            proof {
                lemma_performed_nothing(self.trace());
            }
            return Ok(());
        }
        let ghost t0 = self.trace();
        let ghost cs = self.has_chip_select();
        let ghost pieces = seq![
            select(cs, true),
            seq![drive(Line::DataCommand, true)],
            transfers(data@, chunk_size as int),
            select(cs, false),
        ];
        proof {
            lemma_progress_start(t0, pieces);
        }
        let ghost t = self.trace();
        let r = self.set_cs(true);
        proof {
            lemma_progress_step(t0, t, self.trace(), pieces, 0, outcome_of(r));
            t = self.trace();
        }
        r?;
        let r = self.set_line(Line::DataCommand, true);
        proof {
            lemma_progress_step(t0, t, self.trace(), pieces, 1, outcome_of(r));
            t = self.trace();
        }
        r?;
        let r = self.write_chunks(data, chunk_size);
        proof {
            lemma_progress_step(t0, t, self.trace(), pieces, 2, outcome_of(r));
            t = self.trace();
        }
        r?;
        let r = self.set_cs(false);
        proof {
            lemma_progress_step(t0, t, self.trace(), pieces, 3, outcome_of(r));
        }
        r
    }

    /// Sends a command byte and then its data payload.
    pub fn command_data(&mut self, cmd: u8, data: &[u8], chunk_size: usize) -> (r: Result<
        (),
        Error,
    >)
        ensures
            fault_or_ok(r),
            final(self).has_chip_select() == old(self).has_chip_select(),
            performed(
                old(self).trace(),
                final(self).trace(),
                command_data_plan(old(self).has_chip_select(), cmd, data@, chunk_size as int),
                outcome_of(r),
            ),
    {
        let ghost t0 = self.trace();
        let ghost cs = self.has_chip_select();
        let ghost pieces = seq![command_plan(cs, cmd), data_plan(cs, data@, chunk_size as int)];
        proof {
            lemma_progress_start(t0, pieces);
        }
        let r = self.command(cmd);
        proof {
            lemma_progress_step(t0, t0, self.trace(), pieces, 0, outcome_of(r));
        }
        r?;
        let ghost t = self.trace();
        let r = self.data(data, chunk_size);
        proof {
            lemma_progress_step(t0, t, self.trace(), pieces, 1, outcome_of(r));
        }
        r
    }
}

/// The nanoseconds spent pausing in the wait that the record grew by from
/// `before` to `after`.
pub open spec fn waited_nanos(
    before: Seq<Event>,
    after: Seq<Event>,
    delay: DelayStep,
    timeout: u64,
) -> int {
    wait(delay.at_least_one(), timeout as int, 0, after.skip(before.len() as int))->0.elapsed
}

/// What a record that grew by `events` says of a wait, once the wait is read
/// off all of `events`.
proof fn lemma_wait_performed(
    before: Seq<Event>,
    after: Seq<Event>,
    delay: DelayStep,
    timeout: u64,
    events: Seq<Event>,
)
    requires
        after == before + events,
        wait(delay.at_least_one(), timeout as int, 0, events) is Some,
        wait(delay.at_least_one(), timeout as int, 0, events)->0.used == events.len(),
    ensures
        performed(
            before,
            after,
            wait_plan(delay, timeout),
            wait(delay.at_least_one(), timeout as int, 0, events)->0.outcome,
        ),
        after.skip(before.len() as int) == events,
{
    let plan = wait_plan(delay, timeout);
    assert(after.take(before.len() as int) =~= before);
    assert(after.skip(before.len() as int) =~= events);
    assert(plan.drop_first() =~= Seq::<Step>::empty());
    assert(events.skip(events.len() as int) =~= Seq::<Event>::empty());
    reveal_with_fuel(run, 2);
}

impl<H: Hardware> SpiInterface<H> {
    /// Waits until the busy line reads idle. The line is sampled at once;
    /// while it reads busy and less than `timeout` nanoseconds were spent
    /// pausing, the transport pauses for `delay` (for one unit where `delay`
    /// is zero) and samples again. Gives the nanoseconds spent pausing: zero
    /// where the line was idle at once.
    pub fn wait_busy_timeout(&mut self, delay: DelayStep, timeout: u64) -> (r: Result<u64, Error>)
        ensures
            final(self).has_chip_select() == old(self).has_chip_select(),
            performed(
                old(self).trace(),
                final(self).trace(),
                wait_plan(delay, timeout),
                outcome_of(r),
            ),
            match r {
                Ok(elapsed) => elapsed == clamp(
                    waited_nanos(old(self).trace(), final(self).trace(), delay, timeout),
                ),
                Err(Error::TimeOut(e)) => e.timeout == timeout && e.elapsed >= timeout && e.elapsed
                    == clamp(waited_nanos(old(self).trace(), final(self).trace(), delay, timeout)),
                Err(_) => true,
            },
    {
        let ghost t0 = self.trace();
        let ghost cs = self.has_chip_select();
        let ghost poll = delay.at_least_one();
        let ghost limit = timeout as int;
        match self.is_busy() {
            Err(e) => {
                proof {
                    assert(self.trace() =~= t0 + seq![Event::Fault { error: e->Transport_0 }]);
                    lemma_wait_performed(
                        t0,
                        self.trace(),
                        delay,
                        timeout,
                        seq![Event::Fault { error: e->Transport_0 }],
                    );
                }
                return Err(e);
            },
            Ok(false) => {
                proof {
                    assert(self.trace() =~= t0 + seq![Event::Sample { busy: false }]);
                    lemma_wait_performed(
                        t0,
                        self.trace(),
                        delay,
                        timeout,
                        seq![Event::Sample { busy: false }],
                    );
                }
                return Ok(0);
            },
            Ok(true) => {},
        }
        let step = delay.max_one();
        let step_nanos = step.as_nanos();
        let mut elapsed: u64 = 0;
        let ghost count: nat = 0;
        let ghost busy = seq![Event::Sample { busy: true }];
        proof {
            assert(polls(poll, 0) + busy =~= busy);
            assert(self.trace() =~= t0 + busy);
            assert(0 * poll.nanos() == 0) by (nonlinear_arith);
        }
        loop
            invariant
                t0 == old(self).trace(),
                cs == old(self).has_chip_select(),
                self.has_chip_select() == cs,
                poll == delay.at_least_one(),
                step == poll,
                limit == timeout,
                step_nanos == poll.nanos(),
                step_nanos >= 1,
                busy == seq![Event::Sample { busy: true }],
                self.trace() == t0 + (polls(poll, count) + busy),
                elapsed == clamp(count * poll.nanos()),
                count * poll.nanos() >= 0,
                count > 0 ==> (count - 1) * poll.nanos() < limit,
            decreases
                    if count * poll.nanos() < limit {
                        limit - count * poll.nanos()
                    } else {
                        0
                    },
        {
            let ghost spent = count * poll.nanos();
            if elapsed >= timeout {
                proof {
                    lemma_wait_polls(poll, limit, 0, count, busy);
                    lemma_polls_push(poll, count);
                    lemma_wait_performed(
                        t0,
                        self.trace(),
                        delay,
                        timeout,
                        polls(poll, count) + busy,
                    );
                }
                return Err(Error::TimeOut(TimeOutError { timeout, elapsed }));
            }
            let ghost t = self.trace();
            self.delay(step);
            proof {
                lemma_trace_of_emit(t, self.trace(), Event::Delay { step });
                lemma_polls_push(poll, count);
                lemma_polls_push(poll, count + 1);
            }
            elapsed = elapsed.saturating_add(step_nanos);
            let ghost grown = (count + 1) as nat;
            proof {
                assert(grown * poll.nanos() == spent + poll.nanos() && (grown - 1) * poll.nanos()
                    == spent) by (nonlinear_arith)
                    requires
                        spent == count * poll.nanos(),
                        grown == count + 1,
                ;
            }
            match self.is_busy() {
                Err(e) => {
                    proof {
                        let last = seq![Event::Fault { error: e->Transport_0 }];
                        assert(self.trace() =~= t0 + (polls(poll, grown) + last));
                        lemma_wait_polls(poll, limit, 0, grown, last);
                        lemma_wait_performed(
                            t0,
                            self.trace(),
                            delay,
                            timeout,
                            polls(poll, grown) + last,
                        );
                    }
                    return Err(e);
                },
                Ok(false) => {
                    proof {
                        let last = seq![Event::Sample { busy: false }];
                        assert(self.trace() =~= t0 + (polls(poll, grown) + last));
                        lemma_wait_polls(poll, limit, 0, grown, last);
                        lemma_wait_performed(
                            t0,
                            self.trace(),
                            delay,
                            timeout,
                            polls(poll, grown) + last,
                        );
                    }
                    return Ok(elapsed);
                },
                Ok(true) => {
                    proof {
                        assert(self.trace() =~= t0 + (polls(poll, grown) + busy));
                        count = grown;
                    }
                },
            }
        }
    }
}

/// A record that grew by a completed one-step plan grew by that step's event.
proof fn lemma_trace_of_emit(before: Seq<Event>, after: Seq<Event>, event: Event)
    requires
        performed(before, after, seq![Step::Emit(event)], Outcome::Completed),
        event !is Fault,
    ensures
        after == before.push(event),
{
    let events = after.skip(before.len() as int);
    let plan = seq![Step::Emit(event)];
    reveal_with_fuel(run, 2);
    assert(plan.drop_first() =~= Seq::<Step>::empty());
    assert(events.len() > 0);
    assert(events[0] == event);
    assert(events.drop_first().len() == 0);
    assert(after =~= before.push(event));
}

/// Line numbers of the panel's pins.
#[derive(Clone, Copy, Debug, PartialEq, Eq, Structural)]
pub struct PinDefinition {
    pub rst_pin: u32,
    pub dc_pin: u32,
    pub cs_pin: Option<u32>,
    pub busy_pin: u32,
    pub pwr_pin: u32,
}

impl PinDefinition {
    /// The usual wiring: reset 17, data/command 25, busy 24, power 18, and
    /// chip select as given.
    pub open spec fn usual(cs_pin: Option<u32>) -> PinDefinition {
        PinDefinition { rst_pin: 17, dc_pin: 25, cs_pin, busy_pin: 24, pwr_pin: 18 }
    }

    /// The usual wiring, with chip select on line 8.
    pub fn default_with_cs() -> (pins: PinDefinition)
        ensures
            pins == PinDefinition::usual(Some(8u32)),
    {
        PinDefinition::new(17, 25, Some(8), 24, 18)
    }

    pub fn new(rst_pin: u32, dc_pin: u32, cs_pin: Option<u32>, busy_pin: u32, pwr_pin: u32) -> (pins:
        PinDefinition)
        ensures
            pins == (PinDefinition { rst_pin, dc_pin, cs_pin, busy_pin, pwr_pin }),
    {
        PinDefinition { rst_pin, dc_pin, cs_pin, busy_pin, pwr_pin }
    }
}

impl Default for PinDefinition {
    /// The usual wiring, without a chip select line.
    fn default() -> (pins: PinDefinition)
        ensures
            pins == PinDefinition::usual(None),
    {
        PinDefinition::new(17, 25, None, 24, 18)
    }
}

/// A wait during which the busy line never read idle and the hardware
/// reported no fault ended in a timeout, after at least `timeout`
/// nanoseconds of pauses.
pub proof fn lemma_stuck_busy_times_out(
    poll: DelayStep,
    timeout: int,
    elapsed: int,
    events: Seq<Event>,
)
    requires
        wait(poll, timeout, elapsed, events) is Some,
        wait(poll, timeout, elapsed, events)->0.used == events.len(),
        forall|i: int|
            0 <= i < events.len() ==> events[i] != (Event::Sample { busy: false })
                && !(#[trigger] events[i] is Fault),
    ensures
        wait(poll, timeout, elapsed, events)->0.outcome == Outcome::TimedOut,
        wait(poll, timeout, elapsed, events)->0.elapsed >= timeout,
    decreases events.len(),
{
    assert(!(events[0] is Fault));
    if elapsed < timeout {
        let rest = events.skip(2);
        assert forall|i: int| 0 <= i < rest.len() implies rest[i] != (Event::Sample {
            busy: false,
        }) && !(#[trigger] rest[i] is Fault) by {
            assert(rest[i] == events[i + 2]);
            assert(!(events[i + 2] is Fault));
        }
        lemma_stuck_busy_times_out(poll, timeout, elapsed + poll.nanos(), rest);
    }
}

/// Timeout law of the transport: where the record of a wait shows no idle
/// sample and no fault, the wait failed with a timeout.
pub proof fn lemma_wait_never_idle(
    before: Seq<Event>,
    after: Seq<Event>,
    delay: DelayStep,
    timeout: u64,
    outcome: Outcome,
)
    requires
        performed(before, after, wait_plan(delay, timeout), outcome),
        forall|i: int|
            before.len() <= i < after.len() ==> after[i] != (Event::Sample { busy: false })
                && !(#[trigger] after[i] is Fault),
    ensures
        outcome == Outcome::TimedOut,
        waited_nanos(before, after, delay, timeout) >= timeout,
{
    let events = after.skip(before.len() as int);
    let plan = wait_plan(delay, timeout);
    let poll = delay.at_least_one();
    reveal_with_fuel(run, 2);
    assert(plan.drop_first() =~= Seq::<Step>::empty());
    let w = wait(poll, timeout as int, 0, events);
    assert(w is Some);
    lemma_wait_prefix(poll, timeout as int, 0, events, Seq::empty());
    assert forall|i: int| 0 <= i < events.len() implies events[i] != (Event::Sample {
        busy: false,
    }) && !(#[trigger] events[i] is Fault) by {
        assert(events[i] == after[before.len() + i]);
        assert(!(after[before.len() + i] is Fault));
    }
    if w->0.outcome == Outcome::Completed {
        // the wait ended on an idle sample, which the record does not hold
        lemma_completed_wait_ends_idle(poll, timeout as int, 0, events);
        let k = w->0.used - 1;
        assert(events[k] == Event::Sample { busy: false });
        assert(!(events[k] is Fault));
    } else {
        lemma_stuck_busy_times_out(poll, timeout as int, 0, events);
    }
}

/// A completed wait ends on an idle sample.
proof fn lemma_completed_wait_ends_idle(
    poll: DelayStep,
    timeout: int,
    elapsed: int,
    events: Seq<Event>,
)
    requires
        wait(poll, timeout, elapsed, events) is Some,
        wait(poll, timeout, elapsed, events)->0.outcome == Outcome::Completed,
    ensures
        1 <= wait(poll, timeout, elapsed, events)->0.used <= events.len(),
        events[wait(poll, timeout, elapsed, events)->0.used - 1] == (Event::Sample { busy: false }),
    decreases events.len(),
{
    match events[0] {
        Event::Sample { busy: true } => {
            let rest = events.skip(2);
            lemma_completed_wait_ends_idle(poll, timeout, elapsed + poll.nanos(), rest);
            let u = wait(poll, timeout, elapsed + poll.nanos(), rest)->0.used;
            assert(rest[u - 1] == events[u + 1]);
        },
        _ => {},
    }
}

/// The events of a command transfer: chip select on where it is wired, the
/// data/command line off, the command byte, chip select off where it is wired.
pub open spec fn command_events(chip_select: bool, cmd: u8) -> Seq<Event> {
    let core = seq![
        Event::Drive { line: Line::DataCommand, on: false },
        Event::Write { bytes: seq![cmd] },
    ];
    if chip_select {
        seq![Event::Drive { line: Line::ChipSelect, on: true }] + core + seq![
            Event::Drive { line: Line::ChipSelect, on: false },
        ]
    } else {
        core
    }
}

/// Command law: a command that went through added exactly the events of a
/// command transfer to the record.
pub proof fn lemma_command_events(
    before: Seq<Event>,
    after: Seq<Event>,
    chip_select: bool,
    cmd: u8,
)
    requires
        performed(before, after, command_plan(chip_select, cmd), Outcome::Completed),
    ensures
        after == before + command_events(chip_select, cmd),
{
    let pieces = seq![
        select(chip_select, true),
        seq![drive(Line::DataCommand, false)],
        seq![transfer(seq![cmd])],
        select(chip_select, false),
    ];
    let plan = command_plan(chip_select, cmd);
    reveal_with_fuel(chain, 5);
    assert(pieces.drop_last() =~= seq![pieces[0], pieces[1], pieces[2]]);
    assert(pieces.drop_last().drop_last() =~= seq![pieces[0], pieces[1]]);
    assert(pieces.drop_last().drop_last().drop_last() =~= seq![pieces[0]]);
    assert(pieces.drop_last().drop_last().drop_last().drop_last() =~= Seq::<Seq<Step>>::empty());
    let flat = pieces[0] + pieces[1] + pieces[2] + pieces[3];
    assert(plan =~= flat);
    let events = after.skip(before.len() as int);
    lemma_completed_emits(plan, events);
    assert(events =~= command_events(chip_select, cmd));
    assert(after =~= after.take(before.len() as int) + events);
}

} // verus!
