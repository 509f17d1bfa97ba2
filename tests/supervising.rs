use anakin::supervisor::{exit_status, step, Action, Event, Phase};

#[test]
fn exit_code_is_passed_on() {
    assert_eq!(exit_status(Some(0)), 0);
    assert_eq!(exit_status(Some(3)), 3);
    assert_eq!(exit_status(Some(255)), 255);
}

#[test]
fn exit_code_keeps_low_eight_bits() {
    assert_eq!(exit_status(Some(256)), 0);
    assert_eq!(exit_status(Some(257)), 1);
    assert_eq!(exit_status(Some(-1)), 255);
}

#[test]
fn child_killed_by_signal_gives_status_one() {
    assert_eq!(exit_status(None), 1);
}

#[test]
fn failed_startup_aborts() {
    assert_eq!(step(Phase::Start, Event::Started(None)), (Phase::Failed, Action::Abort));
}

#[test]
fn full_run_exits_with_child_status() {
    let (p, a) = step(Phase::Start, Event::Started(Some(42)));
    assert_eq!(a, Action::Reap { except: 42 });
    let (p, a) = step(p, Event::ReapFinished);
    assert_eq!(a, Action::Reap { except: 42 });
    let (p, a) = step(p, Event::ChildExited(Some(7)));
    assert_eq!(a, Action::Sweep { except: 0 });
    let (p, a) = step(p, Event::SweepFinished(true));
    assert_eq!(p, Phase::Done { status: 7 });
    assert_eq!(a, Action::Exit { status: 7 });
}

#[test]
fn signalled_child_run_exits_with_one() {
    let (p, _) = step(Phase::Start, Event::Started(Some(42)));
    let (p, _) = step(p, Event::ChildExited(None));
    let (_, a) = step(p, Event::SweepFinished(true));
    assert_eq!(a, Action::Exit { status: 1 });
}

#[test]
fn failed_sweep_aborts() {
    let (p, _) = step(Phase::Start, Event::Started(Some(42)));
    let (p, _) = step(p, Event::ChildExited(Some(0)));
    assert_eq!(step(p, Event::SweepFinished(false)), (Phase::Failed, Action::Abort));
}

#[test]
fn stray_event_changes_nothing() {
    assert_eq!(step(Phase::Start, Event::ReapFinished), (Phase::Start, Action::Wait));
    let done = Phase::Done { status: 3 };
    assert_eq!(step(done, Event::ChildExited(Some(1))), (done, Action::Wait));
}
