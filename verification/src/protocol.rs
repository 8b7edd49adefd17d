//! Plans: the sequences of bus steps that the driver performs, and the
//! relation between a plan and the record of what happened on the hardware.
use vstd::prelude::*;
use crate::error::{Error, TransportError};
use crate::hardware::{DelayStep, Event};

verus! {

/// One step of a plan.
pub enum Step {
    /// Do one thing on the hardware.
    Emit(Event),
    /// Wait until the busy input reads idle: sample it, and while it reads
    /// busy and less than `timeout` nanoseconds were spent pausing, pause for
    /// `poll` and sample again.
    AwaitIdle { poll: DelayStep, timeout: u64 },
}

/// How the performance of a plan ended.
#[derive(PartialEq, Eq, Structural)]
pub enum Outcome {
    /// Every step was done.
    Completed,
    /// The hardware reported a failure; nothing was attempted after it.
    Faulted(TransportError),
    /// A wait for the busy input ran out of time; nothing was attempted after it.
    TimedOut,
    /// The operation was refused before the hardware was touched.
    Declined,
}

/// The outcome that a result reports.
pub open spec fn outcome_of<T>(r: Result<T, Error>) -> Outcome {
    match r {
        Ok(_) => Outcome::Completed,
        Err(Error::Transport(e)) => Outcome::Faulted(e),
        Err(Error::TimeOut(_)) => Outcome::TimedOut,
        Err(Error::DeepSleep) => Outcome::Declined,
    }
}

/// A wait read off the front of a record of events.
pub struct Waited {
    /// How the wait ended; never `Declined`.
    pub outcome: Outcome,
    /// Nanoseconds spent pausing.
    pub elapsed: int,
    /// Number of events that belong to the wait.
    pub used: int,
}

/// Reads one wait for idle off the front of `events`, with `elapsed`
/// nanoseconds already spent; `None` where `events` does not start with one.
pub open spec fn wait(poll: DelayStep, timeout: int, elapsed: int, events: Seq<Event>) -> Option<
    Waited,
>
    decreases events.len(),
{
    if events.len() == 0 {
        None
    } else {
        match events[0] {
            Event::Sample { busy: false } => Some(
                Waited { outcome: Outcome::Completed, elapsed, used: 1 },
            ),
            Event::Fault { error } => Some(
                Waited { outcome: Outcome::Faulted(error), elapsed, used: 1 },
            ),
            Event::Sample { busy: true } => if elapsed >= timeout {
                Some(Waited { outcome: Outcome::TimedOut, elapsed, used: 1 })
            } else if events.len() >= 2 && events[1] == (Event::Delay { step: poll }) {
                match wait(poll, timeout, elapsed + poll.nanos(), events.skip(2)) {
                    Some(w) => Some(
                        Waited { outcome: w.outcome, elapsed: w.elapsed, used: w.used + 2 },
                    ),
                    None => None,
                }
            } else {
                None
            },
            _ => None,
        }
    }
}

/// Reads `events` as a performance of `plan` and gives its outcome: the steps
/// were done in order, up to the end of the plan or up to the first fault or
/// timeout, and nothing else happened. `None` where `events` is no
/// performance of `plan`.
pub open spec fn run(plan: Seq<Step>, events: Seq<Event>) -> Option<Outcome>
    decreases plan.len(), events.len(),
{
    if plan.len() == 0 {
        if events.len() == 0 {
            Some(Outcome::Completed)
        } else {
            None
        }
    } else {
        match plan[0] {
            Step::Emit(event) => if events.len() == 0 {
                None
            } else if events[0] == event {
                run(plan.drop_first(), events.drop_first())
            } else if events.len() == 1 && events[0] is Fault {
                Some(Outcome::Faulted(events[0]->error))
            } else {
                None
            },
            Step::AwaitIdle { poll, timeout } => match wait(poll, timeout as int, 0, events) {
                Some(w) => if w.outcome == Outcome::Completed {
                    run(plan.drop_first(), events.skip(w.used))
                } else if w.used == events.len() {
                    Some(w.outcome)
                } else {
                    None
                },
                None => None,
            },
        }
    }
}

/// Whether the record grew from `before` to `after` by a performance of
/// `plan` that ended in `outcome`.
pub open spec fn performed(
    before: Seq<Event>,
    after: Seq<Event>,
    plan: Seq<Step>,
    outcome: Outcome,
) -> bool {
    &&& before.len() <= after.len()
    &&& after.take(before.len() as int) == before
    &&& run(plan, after.skip(before.len() as int)) == Some(outcome)
}

/// The plan that does the pieces one after the other.
pub open spec fn chain(pieces: Seq<Seq<Step>>) -> Seq<Step>
    decreases pieces.len(),
{
    if pieces.len() == 0 {
        Seq::empty()
    } else {
        chain(pieces.drop_last()) + pieces.last()
    }
}

/// A wait read off the front of a record is read off any longer record too.
pub proof fn lemma_wait_prefix(
    poll: DelayStep,
    timeout: int,
    elapsed: int,
    events: Seq<Event>,
    more: Seq<Event>,
)
    requires
        wait(poll, timeout, elapsed, events) is Some,
    ensures
        wait(poll, timeout, elapsed, events + more) == wait(poll, timeout, elapsed, events),
        1 <= wait(poll, timeout, elapsed, events)->0.used <= events.len(),
        wait(poll, timeout, elapsed, events)->0.outcome != Outcome::Declined,
        wait(poll, timeout, elapsed, events)->0.elapsed >= elapsed,
        wait(poll, timeout, elapsed, events)->0.outcome == Outcome::TimedOut ==> wait(
            poll,
            timeout,
            elapsed,
            events,
        )->0.elapsed >= timeout,
    decreases events.len(),
{
    let all = events + more;
    assert(all[0] == events[0]);
    match events[0] {
        Event::Sample { busy: true } => {
            if elapsed < timeout {
                assert(all[1] == events[1]);
                assert(all.skip(2) =~= events.skip(2) + more);
                lemma_wait_prefix(poll, timeout, elapsed + poll.nanos(), events.skip(2), more);
            }
        },
        _ => {},
    }
}

/// After a completed performance of one plan, what follows is a performance
/// of both plans in a row exactly when it is one of the second plan.
pub proof fn lemma_run_then(plan: Seq<Step>, events: Seq<Event>, next: Seq<Step>, more: Seq<Event>)
    requires
        run(plan, events) == Some(Outcome::Completed),
    ensures
        run(plan + next, events + more) == run(next, more),
    decreases plan.len(), events.len(),
{
    let both = plan + next;
    let all = events + more;
    if plan.len() == 0 {
        assert(both =~= next);
        assert(all =~= more);
    } else {
        assert(both[0] == plan[0]);
        assert(both.drop_first() =~= plan.drop_first() + next);
        match plan[0] {
            Step::Emit(event) => {
                assert(all[0] == events[0]);
                assert(all.drop_first() =~= events.drop_first() + more);
                lemma_run_then(plan.drop_first(), events.drop_first(), next, more);
            },
            Step::AwaitIdle { poll, timeout } => {
                lemma_wait_prefix(poll, timeout as int, 0, events, more);
                let w = wait(poll, timeout as int, 0, events)->0;
                assert(all.skip(w.used) =~= events.skip(w.used) + more);
                lemma_run_then(plan.drop_first(), events.skip(w.used), next, more);
            },
        }
    }
}

/// A performance that stopped at a fault or a timeout is a performance of
/// every longer plan too, with the same outcome.
pub proof fn lemma_run_stop(plan: Seq<Step>, events: Seq<Event>, next: Seq<Step>)
    requires
        run(plan, events) is Some,
        run(plan, events) != Some(Outcome::Completed),
    ensures
        run(plan + next, events) == run(plan, events),
        run(plan, events) != Some(Outcome::Declined),
    decreases plan.len(), events.len(),
{
    let both = plan + next;
    assert(both[0] == plan[0]);
    assert(both.drop_first() =~= plan.drop_first() + next);
    match plan[0] {
        Step::Emit(event) => {
            if events[0] == event {
                lemma_run_stop(plan.drop_first(), events.drop_first(), next);
            }
        },
        Step::AwaitIdle { poll, timeout } => {
            lemma_wait_prefix(poll, timeout as int, 0, events, Seq::empty());
            let w = wait(poll, timeout as int, 0, events)->0;
            if w.outcome == Outcome::Completed {
                lemma_run_stop(plan.drop_first(), events.skip(w.used), next);
            }
        },
    }
}

/// No performance ends as declined.
pub proof fn lemma_run_never_declined(plan: Seq<Step>, events: Seq<Event>)
    ensures
        run(plan, events) != Some(Outcome::Declined),
    decreases plan.len(), events.len(),
{
    if plan.len() > 0 {
        match plan[0] {
            Step::Emit(event) => {
                if events.len() > 0 && events[0] == event {
                    lemma_run_never_declined(plan.drop_first(), events.drop_first());
                }
            },
            Step::AwaitIdle { poll, timeout } => {
                if wait(poll, timeout as int, 0, events) is Some {
                    lemma_wait_prefix(poll, timeout as int, 0, events, Seq::empty());
                    let w = wait(poll, timeout as int, 0, events)->0;
                    lemma_run_never_declined(plan.drop_first(), events.skip(w.used));
                }
            },
        }
    }
}

/// Nothing done is the empty plan, completed.
pub proof fn lemma_performed_nothing(before: Seq<Event>)
    ensures
        performed(before, before, Seq::empty(), Outcome::Completed),
{
    assert(before.take(before.len() as int) =~= before);
}

/// The empty plan can only be completed, and adds nothing to the record.
pub proof fn lemma_performed_empty(before: Seq<Event>, after: Seq<Event>, outcome: Outcome)
    requires
        performed(before, after, Seq::empty(), outcome),
    ensures
        after == before,
        outcome == Outcome::Completed,
{
    assert(after.skip(before.len() as int).len() == 0);
    assert(after =~= after.take(before.len() as int));
}

/// One event added to the record is a performance of the step that emits it.
pub proof fn lemma_performed_emit(before: Seq<Event>, event: Event)
    ensures
        performed(before, before.push(event), seq![Step::Emit(event)], Outcome::Completed),
{
    let after = before.push(event);
    let plan = seq![Step::Emit(event)];
    assert(after.take(before.len() as int) =~= before);
    assert(after.skip(before.len() as int) =~= seq![event]);
    assert(plan.drop_first() =~= Seq::<Step>::empty());
    assert(seq![event].drop_first() =~= Seq::<Event>::empty());
    reveal_with_fuel(run, 2);
}

/// A fault added to the record is a performance of any one step that stopped
/// at the fault.
pub proof fn lemma_performed_fault(before: Seq<Event>, event: Event, error: TransportError)
    requires
        event !is Fault,
    ensures
        performed(
            before,
            before.push(Event::Fault { error }),
            seq![Step::Emit(event)],
            Outcome::Faulted(error),
        ),
{
    let after = before.push(Event::Fault { error });
    assert(after.take(before.len() as int) =~= before);
    assert(after.skip(before.len() as int) =~= seq![Event::Fault { error }]);
}

/// Two performances in a row are one performance of the two plans in a row.
pub proof fn lemma_performed_then(
    before: Seq<Event>,
    between: Seq<Event>,
    after: Seq<Event>,
    first: Seq<Step>,
    second: Seq<Step>,
    outcome: Outcome,
)
    requires
        performed(before, between, first, Outcome::Completed),
        performed(between, after, second, outcome),
    ensures
        performed(before, after, first + second, outcome),
{
    let n = before.len() as int;
    let m = between.len() as int;
    assert(after.take(n) =~= between.take(n));
    assert(after.skip(n) =~= between.skip(n) + after.skip(m));
    lemma_run_then(first, between.skip(n), second, after.skip(m));
}

/// A performance that stopped early is a performance of every longer plan.
pub proof fn lemma_performed_stop(
    before: Seq<Event>,
    after: Seq<Event>,
    first: Seq<Step>,
    second: Seq<Step>,
    outcome: Outcome,
)
    requires
        performed(before, after, first, outcome),
        outcome != Outcome::Completed,
    ensures
        performed(before, after, first + second, outcome),
{
    lemma_run_stop(first, after.skip(before.len() as int), second);
}

/// Whether the record grew from `before` to `after` by a completed
/// performance of the first `done` pieces.
pub open spec fn progressed(
    before: Seq<Event>,
    after: Seq<Event>,
    pieces: Seq<Seq<Step>>,
    done: int,
) -> bool {
    &&& 0 <= done <= pieces.len()
    &&& performed(before, after, chain(pieces.take(done)), Outcome::Completed)
}

/// A performance that stopped early within the first pieces of a chain is a
/// performance of the whole chain.
pub proof fn lemma_chain_stop(
    before: Seq<Event>,
    after: Seq<Event>,
    pieces: Seq<Seq<Step>>,
    done: int,
    outcome: Outcome,
)
    requires
        0 <= done <= pieces.len(),
        performed(before, after, chain(pieces.take(done)), outcome),
        outcome != Outcome::Completed,
    ensures
        performed(before, after, chain(pieces), outcome),
    decreases pieces.len() - done,
{
    if done == pieces.len() {
        assert(pieces.take(done) =~= pieces);
    } else {
        assert(pieces.take(done + 1).drop_last() =~= pieces.take(done));
        lemma_performed_stop(before, after, chain(pieces.take(done)), pieces[done], outcome);
        lemma_chain_stop(before, after, pieces, done + 1, outcome);
    }
}

/// Nothing done yet is progress by no piece.
pub proof fn lemma_progress_start(before: Seq<Event>, pieces: Seq<Seq<Step>>)
    ensures
        progressed(before, before, pieces, 0),
{
    lemma_performed_nothing(before);
    assert(pieces.take(0) =~= Seq::<Seq<Step>>::empty());
}

/// After the first `done` pieces, a performance of the next piece either
/// advances the progress by one piece or ends the performance of the chain.
pub proof fn lemma_progress_step(
    before: Seq<Event>,
    between: Seq<Event>,
    after: Seq<Event>,
    pieces: Seq<Seq<Step>>,
    done: int,
    outcome: Outcome,
)
    requires
        progressed(before, between, pieces, done),
        done < pieces.len(),
        performed(between, after, pieces[done], outcome),
    ensures
        outcome == Outcome::Completed ==> progressed(before, after, pieces, done + 1),
        outcome != Outcome::Completed ==> performed(before, after, chain(pieces), outcome),
        done + 1 == pieces.len() ==> performed(before, after, chain(pieces), outcome),
{
    assert(pieces.take(done + 1).drop_last() =~= pieces.take(done));
    lemma_performed_then(
        before,
        between,
        after,
        chain(pieces.take(done)),
        pieces[done],
        outcome,
    );
    if outcome != Outcome::Completed {
        lemma_chain_stop(before, after, pieces, done + 1, outcome);
    }
    if done + 1 == pieces.len() {
        assert(pieces.take(done + 1) =~= pieces);
    }
}

/// What one more piece did to a chain of which `done` pieces were completed:
/// a success is progress by one piece, a failure ends the performance of the
/// chain, and the last piece ends it either way.
pub open spec fn stepped<T>(
    before: Seq<Event>,
    after: Seq<Event>,
    pieces: Seq<Seq<Step>>,
    done: int,
    r: Result<T, Error>,
) -> bool {
    &&& r is Ok ==> progressed(before, after, pieces, done + 1)
    &&& r is Err ==> performed(before, after, chain(pieces), outcome_of(r))
    &&& done + 1 == pieces.len() ==> performed(before, after, chain(pieces), outcome_of(r))
}

/// After the first `done` pieces, a performance of the next piece is a step
/// of the chain.
pub proof fn lemma_stepped<T>(
    before: Seq<Event>,
    between: Seq<Event>,
    after: Seq<Event>,
    pieces: Seq<Seq<Step>>,
    done: int,
    r: Result<T, Error>,
)
    requires
        progressed(before, between, pieces, done),
        done < pieces.len(),
        performed(between, after, pieces[done], outcome_of(r)),
    ensures
        stepped(before, after, pieces, done, r),
{
    lemma_progress_step(before, between, after, pieces, done, outcome_of(r));
}

/// Whether every step of a plan does one thing on the hardware: the plan
/// holds no wait.
pub open spec fn only_emits(plan: Seq<Step>) -> bool {
    forall|i: int| 0 <= i < plan.len() ==> (#[trigger] plan[i]) is Emit && !(plan[i]->Emit_0 is Fault)
}

/// The events of a plan that holds no wait, in order.
pub open spec fn emitted(plan: Seq<Step>) -> Seq<Event> {
    Seq::new(plan.len(), |i: int| plan[i]->Emit_0)
}

/// A completed performance of a plan without waits added exactly the events
/// of the plan to the record, in order.
pub proof fn lemma_completed_emits(plan: Seq<Step>, events: Seq<Event>)
    requires
        only_emits(plan),
        run(plan, events) == Some(Outcome::Completed),
    ensures
        events == emitted(plan),
    decreases plan.len(),
{
    if plan.len() == 0 {
        assert(events =~= emitted(plan));
    } else {
        let rest = plan.drop_first();
        assert(plan[0] is Emit);
        assert forall|i: int| 0 <= i < rest.len() implies (#[trigger] rest[i]) is Emit && !(
        rest[i]->Emit_0 is Fault) by {
            assert(rest[i] == plan[i + 1]);
        }
        lemma_completed_emits(rest, events.drop_first());
        assert forall|i: int| 0 <= i < events.len() implies events[i] == emitted(plan)[i] by {
            if i > 0 {
                assert(events[i] == events.drop_first()[i - 1]);
                assert(rest[i - 1] == plan[i]);
            }
        }
        assert(events.len() == plan.len());
        assert(events =~= emitted(plan));
    }
}

} // verus!
