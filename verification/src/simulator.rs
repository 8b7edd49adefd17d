//! Hardware that only keeps a record of what is done on it. Its busy line
//! and its faults follow a script, so that the driver can be tried without a
//! panel.
use vstd::prelude::*;
use vstd::slice::slice_to_vec;
use crate::error::TransportError;
use crate::hardware::{DelayStep, Event, Hardware, Line};

verus! {

/// One entry of the simulator's record.
#[derive(Clone, Debug, PartialEq, Eq)]
pub enum Record {
    Drive { line: Line, on: bool },
    Write { bytes: Vec<u8> },
    Sample { busy: bool },
    Delay { step: DelayStep },
    Fault { error: TransportError },
}

impl Record {
    /// The event that the entry stands for.
    pub open spec fn event(self) -> Event {
        match self {
            Record::Drive { line, on } => Event::Drive { line, on },
            Record::Write { bytes } => Event::Write { bytes: bytes@ },
            Record::Sample { busy } => Event::Sample { busy },
            Record::Delay { step } => Event::Delay { step },
            Record::Fault { error } => Event::Fault { error },
        }
    }
}

/// The events that a record stands for.
pub open spec fn events_of(log: Seq<Record>) -> Seq<Event> {
    log.map_values(|r: Record| r.event())
}

/// What the script of a simulator holds.
pub struct Script {
    /// How many of the next samples of the busy line read busy.
    pub busy_samples: u64,
    /// Whether the busy line never clears.
    pub stuck: bool,
    /// How many operations on lines and bus still succeed before one is
    /// answered with the fault; `None` where no fault is planned.
    pub healthy: Option<u64>,
    /// The fault that is planned.
    pub fault: TransportError,
}

impl Script {
    /// Whether the next operation on a line or the bus is answered with the fault.
    pub open spec fn fault_due(self) -> bool {
        self.healthy == Some(0u64)
    }

    /// The script after one operation on a line or the bus.
    pub open spec fn counted(self) -> Script {
        Script {
            healthy: match self.healthy {
                Some(n) if n > 0 => Some((n - 1) as u64),
                _ => None,
            },
            ..self
        }
    }

    /// Whether the next sample of the busy line reads busy.
    pub open spec fn reads_busy(self) -> bool {
        self.stuck || self.busy_samples > 0
    }

    /// The script after one sample of the busy line was answered.
    pub open spec fn sampled(self) -> Script {
        Script {
            busy_samples: if !self.stuck && self.busy_samples > 0 {
                (self.busy_samples - 1) as u64
            } else {
                self.busy_samples
            },
            ..self.counted()
        }
    }
}

/// Simulated hardware.
pub struct Simulator {
    log: Vec<Record>,
    busy_samples: u64,
    stuck: bool,
    healthy_operations: Option<u64>,
    fault: TransportError,
}

impl Simulator {
    /// The entries of the record, oldest first.
    pub closed spec fn log_view(&self) -> Seq<Record> {
        self.log@
    }

    /// The script: what the busy line and the faults will do.
    pub closed spec fn script(&self) -> Script {
        Script {
            busy_samples: self.busy_samples,
            stuck: self.stuck,
            healthy: self.healthy_operations,
            fault: self.fault,
        }
    }

    /// Hardware with an empty record, an idle busy line and no fault planned.
    pub fn new() -> (sim: Simulator)
        ensures
            sim.log_view() == Seq::<Record>::empty(),
            sim.trace() == Seq::<Event>::empty(),
            sim.script() == (Script {
                busy_samples: 0,
                stuck: false,
                healthy: None,
                fault: TransportError::Bus,
            }),
    {
        let sim = Simulator {
            log: Vec::new(),
            busy_samples: 0,
            stuck: false,
            healthy_operations: None,
            fault: TransportError::Bus,
        };
        assert(events_of(sim.log@) =~= Seq::<Event>::empty());
        sim
    }

    /// Lets the next `samples` samples of the busy line read busy.
    pub fn set_busy_samples(&mut self, samples: u64)
        ensures
            final(self).script() == (Script { busy_samples: samples, ..old(self).script() }),
            final(self).log_view() == old(self).log_view(),
            final(self).trace() == old(self).trace(),
    {
        self.busy_samples = samples;
    }

    /// Lets the busy line read busy for ever, or ends that.
    pub fn set_stuck(&mut self, stuck: bool)
        ensures
            final(self).script() == (Script { stuck, ..old(self).script() }),
            final(self).log_view() == old(self).log_view(),
            final(self).trace() == old(self).trace(),
    {
        self.stuck = stuck;
    }

    /// Plans a fault: the next `healthy` operations on lines and bus succeed,
    /// the one after them is answered with `fault`, and those after it
    /// succeed again.
    pub fn fail_after(&mut self, healthy: u64, fault: TransportError)
        ensures
            final(self).script() == (Script { healthy: Some(healthy), fault, ..old(self).script() }),
            final(self).log_view() == old(self).log_view(),
            final(self).trace() == old(self).trace(),
    {
        self.healthy_operations = Some(healthy);
        self.fault = fault;
    }

    /// The record so far, oldest entry first.
    pub fn log(&self) -> (log: &Vec<Record>)
        ensures
            log@ == self.log_view(),
            events_of(log@) == self.trace(),
    {
        &self.log
    }

    /// Forgets the record.
    pub fn clear_log(&mut self)
        ensures
            final(self).log_view() == Seq::<Record>::empty(),
            final(self).trace() == Seq::<Event>::empty(),
            final(self).script() == old(self).script(),
    {
        self.log = Vec::new();
        assert(events_of(self.log@) =~= Seq::<Event>::empty());
    }

    /// Counts one operation against the planned fault and says whether this
    /// is the one that fails.
    fn next_fault(&mut self) -> (fault: Option<TransportError>)
        ensures
            final(self).log@ == old(self).log@,
            final(self).script() == old(self).script().counted(),
            fault == if old(self).script().fault_due() {
                Some(old(self).script().fault)
            } else {
                None
            },
    {
        match self.healthy_operations {
            Some(n) => {
                if n == 0 {
                    self.healthy_operations = None;
                    Some(self.fault)
                } else {
                    self.healthy_operations = Some(n - 1);
                    None
                }
            },
            None => None,
        }
    }

    /// Adds an entry to the record.
    fn note(&mut self, record: Record)
        ensures
            final(self).log@ == old(self).log@.push(record),
            final(self).trace() == old(self).trace().push(record.event()),
            final(self).script() == old(self).script(),
    {
        self.log.push(record);
        assert(events_of(self.log@) =~= events_of(old(self).log@).push(record.event()));
    }
}

impl Hardware for Simulator {
    closed spec fn trace(&self) -> Seq<Event> {
        events_of(self.log@)
    }

    fn set_line(&mut self, line: Line, on: bool) -> (r: Result<(), TransportError>)
        ensures
            r == if old(self).script().fault_due() {
                Err::<(), TransportError>(old(self).script().fault)
            } else {
                Ok(())
            },
            final(self).script() == old(self).script().counted(),
            final(self).log_view() == old(self).log_view().push(
                match r {
                    Ok(_) => Record::Drive { line, on },
                    Err(error) => Record::Fault { error },
                },
            ),
    {
        match self.next_fault() {
            Some(error) => {
                self.note(Record::Fault { error });
                Err(error)
            },
            None => {
                self.note(Record::Drive { line, on });
                Ok(())
            },
        }
    }

    fn read_busy(&mut self) -> (r: Result<bool, TransportError>)
        ensures
            r == if old(self).script().fault_due() {
                Err::<bool, TransportError>(old(self).script().fault)
            } else {
                Ok(old(self).script().reads_busy())
            },
            final(self).script() == if old(self).script().fault_due() {
                old(self).script().counted()
            } else {
                old(self).script().sampled()
            },
            final(self).log_view() == old(self).log_view().push(
                match r {
                    Ok(busy) => Record::Sample { busy },
                    Err(error) => Record::Fault { error },
                },
            ),
    {
        match self.next_fault() {
            Some(error) => {
                self.note(Record::Fault { error });
                Err(error)
            },
            None => {
                let busy = if self.stuck {
                    true
                } else if self.busy_samples > 0 {
                    self.busy_samples = self.busy_samples - 1;
                    true
                } else {
                    false
                };
                self.note(Record::Sample { busy });
                Ok(busy)
            },
        }
    }

    fn write(&mut self, bytes: &[u8]) -> (r: Result<(), TransportError>)
        ensures
            r == if old(self).script().fault_due() {
                Err::<(), TransportError>(old(self).script().fault)
            } else {
                Ok(())
            },
            final(self).script() == old(self).script().counted(),
            final(self).log_view().len() == old(self).log_view().len() + 1,
            final(self).log_view().drop_last() == old(self).log_view(),
            final(self).log_view().last().event() == match r {
                Ok(_) => Event::Write { bytes: bytes@ },
                Err(error) => Event::Fault { error },
            },
    {
        match self.next_fault() {
            Some(error) => {
                self.note(Record::Fault { error });
                Err(error)
            },
            None => {
                self.note(Record::Write { bytes: slice_to_vec(bytes) });
                Ok(())
            },
        }
    }

    fn delay(&mut self, step: DelayStep)
        ensures
            final(self).script() == old(self).script(),
            final(self).log_view() == old(self).log_view().push(Record::Delay { step }),
    {
        self.note(Record::Delay { step });
    }
}

} // verus!
