use vstd::prelude::*;

verus! {

/// The exit status that a child's exit code gives: its low eight bits, or 1
/// when the child ended without a code (killed by a signal).
pub open spec fn status_of(code: Option<i32>) -> u8 {
    match code {
        Some(c) => c as u8,
        None => 1,
    }
}

/// The exit status to leave with once the child has ended with `code`.
pub fn exit_status(code: Option<i32>) -> (r: u8)
    ensures
        r == status_of(code),
{
    match code {
        Some(c) => c as u8,
        None => 1,
    }
}

/// Where the supervisor stands.
#[derive(Clone, Copy, Debug, PartialEq, Eq, Structural)]
pub enum Phase {
    /// Nothing started yet.
    Start,
    /// The child runs; its orphaned descendants are reaped.
    Supervising { child: u32 },
    /// The child has ended; the last pass runs.
    Cleanup { status: u8 },
    /// All done: leave with `status`.
    Done { status: u8 },
    /// A fatal failure: leave with an error.
    Failed,
}

/// What the outside world reports to the supervisor.
#[derive(Clone, Copy, Debug, PartialEq, Eq, Structural)]
pub enum Event {
    /// Startup is over: the pid of the child, or `None` when the command
    /// was missing, the subreaper could not be set, the command could not
    /// be started, or its pid is unknown.
    Started(Option<u32>),
    /// One scheduled pass ended, well or not.
    ReapFinished,
    /// The child ended, with its exit code if it had one.
    ChildExited(Option<i32>),
    /// The last pass ended: whether it could run.
    SweepFinished(bool),
}

/// What the supervisor asks the outside world to do next.
#[derive(Clone, Copy, Debug, PartialEq, Eq, Structural)]
pub enum Action {
    /// Run a pass, after the polling interval, sparing `except`.
    Reap { except: u32 },
    /// Run the last pass, sparing `except`.
    Sweep { except: u32 },
    /// Leave with `status`.
    Exit { status: u8 },
    /// Leave with an error.
    Abort,
    /// Nothing to do for this event.
    Wait,
}

/// The supervisor's transitions: a started child is supervised with its own
/// pid exempt; its end leads to a last pass that exempts nobody (pid 0);
/// after that pass the supervisor leaves with the child's status; a startup
/// failure or a last pass that cannot run aborts. Any other event leaves the
/// phase as it is.
pub open spec fn next_step(phase: Phase, event: Event) -> (Phase, Action) {
    match (phase, event) {
        (Phase::Start, Event::Started(Some(child))) => (
            Phase::Supervising { child },
            Action::Reap { except: child },
        ),
        (Phase::Start, Event::Started(None)) => (Phase::Failed, Action::Abort),
        (Phase::Supervising { child }, Event::ReapFinished) => (
            Phase::Supervising { child },
            Action::Reap { except: child },
        ),
        (Phase::Supervising { child }, Event::ChildExited(code)) => (
            Phase::Cleanup { status: status_of(code) },
            Action::Sweep { except: 0 },
        ),
        (Phase::Cleanup { status }, Event::SweepFinished(true)) => (
            Phase::Done { status },
            Action::Exit { status },
        ),
        (Phase::Cleanup { status }, Event::SweepFinished(false)) => (Phase::Failed, Action::Abort),
        _ => (phase, Action::Wait),
    }
}

/// The phase reached from `phase` after `events`, in order.
pub open spec fn phase_after(phase: Phase, events: Seq<Event>) -> Phase
    decreases events.len(),
{
    if events.len() == 0 {
        phase
    } else {
        next_step(phase_after(phase, events.drop_last()), events.last()).0
    }
}

/// `n` scheduled passes in a row.
pub open spec fn scheduled_passes(n: nat) -> Seq<Event> {
    Seq::new(n, |i: int| Event::ReapFinished)
}

proof fn lemma_phase_after_concat(phase: Phase, a: Seq<Event>, b: Seq<Event>)
    ensures
        phase_after(phase, a + b) == phase_after(phase_after(phase, a), b),
    decreases b.len(),
{
    if b.len() == 0 {
        assert(a + b == a);
    } else {
        assert((a + b).drop_last() == a + b.drop_last());
        lemma_phase_after_concat(phase, a, b.drop_last());
    }
}

proof fn lemma_passes_keep_supervising(child: u32, passes: nat)
    ensures
        phase_after((Phase::Supervising { child }), scheduled_passes(passes)) == (
        Phase::Supervising { child }),
    decreases passes,
{
    if passes > 0 {
        let p = (passes - 1) as nat;
        assert(scheduled_passes(passes).drop_last() == scheduled_passes(p));
        lemma_passes_keep_supervising(child, p);
    }
}

/// A child that starts, outlives any number of scheduled passes and ends
/// with `code`, followed by a last pass that runs, leaves the supervisor
/// done with the child's own status; the last pass exempts nobody.
pub proof fn lemma_run_ends_with_child_status(child: u32, passes: nat, code: Option<i32>)
    ensures
        phase_after(
            Phase::Start,
            seq![Event::Started(Some(child))] + scheduled_passes(passes)
                + seq![Event::ChildExited(code), Event::SweepFinished(true)],
        ) == (Phase::Done { status: status_of(code) }),
        next_step(Phase::Supervising { child }, Event::ChildExited(code)).1 == (Action::Sweep {
            except: 0,
        }),
{
    let first = seq![Event::Started(Some(child))];
    let middle = scheduled_passes(passes);
    let last = seq![Event::ChildExited(code), Event::SweepFinished(true)];
    assert(first.drop_last() == Seq::<Event>::empty());
    assert(phase_after(Phase::Start, first.drop_last()) == Phase::Start);
    assert(first.last() == Event::Started(Some(child)));
    assert(phase_after(Phase::Start, first) == Phase::Supervising { child });
    lemma_phase_after_concat(Phase::Start, first, middle);
    lemma_passes_keep_supervising(child, passes);
    lemma_phase_after_concat(Phase::Start, first + middle, last);
    let sup = Phase::Supervising { child };
    let one = seq![Event::ChildExited(code)];
    assert(last.drop_last() == one);
    assert(one.drop_last() == Seq::<Event>::empty());
    assert(phase_after(sup, one.drop_last()) == sup);
    assert(one.last() == Event::ChildExited(code));
    assert(phase_after(sup, one) == Phase::Cleanup { status: status_of(code) });
    assert(last.last() == Event::SweepFinished(true));
    assert(phase_after(sup, last) == Phase::Done { status: status_of(code) });
}

/// Takes the supervisor one step, as `next_step` says.
pub fn step(phase: Phase, event: Event) -> (r: (Phase, Action))
    ensures
        r == next_step(phase, event),
{
    match (phase, event) {
        (Phase::Start, Event::Started(Some(child))) => (
            Phase::Supervising { child },
            Action::Reap { except: child },
        ),
        (Phase::Start, Event::Started(None)) => (Phase::Failed, Action::Abort),
        (Phase::Supervising { child }, Event::ReapFinished) => (
            Phase::Supervising { child },
            Action::Reap { except: child },
        ),
        (Phase::Supervising { child }, Event::ChildExited(code)) => (
            Phase::Cleanup { status: exit_status(code) },
            Action::Sweep { except: 0 },
        ),
        (Phase::Cleanup { status }, Event::SweepFinished(ok)) => {
            if ok {
                (Phase::Done { status }, Action::Exit { status })
            } else {
                (Phase::Failed, Action::Abort)
            }
        },
        _ => (phase, Action::Wait),
    }
}

} // verus!
