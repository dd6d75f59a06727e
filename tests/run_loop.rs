use tide::run_loop::{Action, Event, Mode, RunLoop, POLL_MS};

#[test]
fn one_shot_run() {
    let (mut run, first) = RunLoop::start(Mode::Once);
    assert_eq!(first, Action::Replace);
    assert_eq!(run.step(Event::Replaced), Action::AwaitSignal);
    assert_eq!(run.step(Event::Slept), Action::AwaitSignal);
    assert_eq!(run.step(Event::Interrupted), Action::Terminate);
    assert!(!run.is_done());
    assert_eq!(run.step(Event::Terminated), Action::Exit(0));
    assert!(run.is_done());
}

#[test]
fn watch_run_polls_and_restarts() {
    let (mut run, first) = RunLoop::start(Mode::Watch);
    assert_eq!(first, Action::Scan);
    assert_eq!(run.step(Event::Scanned(true)), Action::Replace);
    assert_eq!(run.step(Event::Replaced), Action::Sleep(POLL_MS));
    assert_eq!(POLL_MS, 100);
    assert_eq!(run.step(Event::Slept), Action::Scan);
    assert_eq!(run.step(Event::Scanned(false)), Action::Sleep(100));
    assert_eq!(run.step(Event::Slept), Action::Scan);
    assert_eq!(run.step(Event::Interrupted), Action::Terminate);
    // nothing but the end of termination moves on
    assert_eq!(run.step(Event::Interrupted), Action::Terminate);
    assert_eq!(run.step(Event::Terminated), Action::Exit(0));
    assert_eq!(run.step(Event::Scanned(true)), Action::Exit(0));
}

#[test]
fn failed_scan_ends_with_status_one() {
    let (mut run, _) = RunLoop::start(Mode::Watch);
    assert_eq!(run.step(Event::ScanFailed), Action::Terminate);
    assert_eq!(run.step(Event::Terminated), Action::Exit(1));
}

#[test]
fn interrupt_while_sleeping() {
    let (mut run, _) = RunLoop::start(Mode::Watch);
    assert_eq!(run.step(Event::Scanned(false)), Action::Sleep(100));
    assert_eq!(run.step(Event::Interrupted), Action::Terminate);
    assert_eq!(run.step(Event::Terminated), Action::Exit(0));
}
